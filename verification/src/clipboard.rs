//! The clipboard sink. Writing and clearing go through one trusted call
//! into the system clipboard; what may be claimed of it is only the shape
//! of its outcome, since whether a clipboard exists depends on the
//! environment. Clearing is writing the empty string, which is idempotent,
//! so the countdown loop and the interrupt handler may both clear.

use vstd::prelude::*;

use crate::errors::ErrorKind;
use crate::pwd::Pwd;

verus! {

/// Relies on `arboard::Clipboard`: `new` initializes a handle to the
/// system clipboard and `set_text` replaces its contents with the given
/// text; either may fail when no clipboard is available. `None` clears by
/// writing the empty string. Nothing more is promised of the outcome: it
/// depends on the environment.
#[verifier::external_body]
pub fn set_clipboard(val: Option<Pwd>) -> (res: Result<(), ErrorKind>)
    ensures
        match res {
            Ok(_) => true,
            Err(e) => e == ErrorKind::ClipboardUnavailable,
        },
{
    let text = match val {
        Some(p) => p.into_text(),
        None => String::new(),
    };
    arboard::Clipboard::new()
        .and_then(|mut clipboard| clipboard.set_text(text))
        .map_err(|_| ErrorKind::ClipboardUnavailable)
}

} // verus!
