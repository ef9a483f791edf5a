//! Error kinds surfaced by the commands, with their user-facing messages.

use vstd::prelude::*;

verus! {

/// Every failure a command can surface. `NoInteraction` covers prompting
/// being suppressed or impossible, `InvalidCredential` wraps a vault
/// decrypt/parse failure behind a generic message, and the two file kinds
/// are precondition failures of the open/initialize commands.
#[derive(Clone, Copy, PartialEq, Eq, Structural, Debug)]
pub enum ErrorKind {
    NoInteraction,
    InvalidCredential,
    ClipboardUnavailable,
    EntryNotFound,
    TotpMissingSecret,
    TotpMalformed,
    FileNotFound,
    FileExists,
}

impl ErrorKind {
    /// The fixed message printed for this kind. The clipboard kind carries a
    /// per-command suggestion built by `clipboard_unavailable_message`.
    pub open spec fn spec_message(self) -> Seq<char> {
        match self {
            ErrorKind::NoInteraction => "No interaction allowed"@,
            ErrorKind::InvalidCredential => "Invalid password or key"@,
            ErrorKind::ClipboardUnavailable => "Clipboard unavailable"@,
            ErrorKind::EntryNotFound => "Not found"@,
            ErrorKind::TotpMissingSecret => "Entry has no TOTP secret"@,
            ErrorKind::TotpMalformed => "Invalid TOTP secret"@,
            ErrorKind::FileNotFound => "File does not exist"@,
            ErrorKind::FileExists => "File exists"@,
        }
    }

    pub fn message(&self) -> (r: String)
        ensures
            r@ == self.spec_message(),
    {
        match self {
            ErrorKind::NoInteraction => "No interaction allowed".to_owned(),
            ErrorKind::InvalidCredential => "Invalid password or key".to_owned(),
            ErrorKind::ClipboardUnavailable => "Clipboard unavailable".to_owned(),
            ErrorKind::EntryNotFound => "Not found".to_owned(),
            ErrorKind::TotpMissingSecret => "Entry has no TOTP secret".to_owned(),
            ErrorKind::TotpMalformed => "Invalid TOTP secret".to_owned(),
            ErrorKind::FileNotFound => "File does not exist".to_owned(),
            ErrorKind::FileExists => "File exists".to_owned(),
        }
    }
}

/// The suggestion shown when the clipboard sink cannot be used: the caller
/// should pipe standard output instead.
pub open spec fn spec_clipboard_unavailable_message(command: Seq<char>, title: Seq<char>) -> Seq<
    char,
> {
    "Clipboard unavailable. Try use STDOUT, i.e. `kdbx "@ + command + " '"@ + title + "' | cat`."@
}

pub fn clipboard_unavailable_message(command: &str, title: &str) -> (r: String)
    ensures
        r@ == spec_clipboard_unavailable_message(command@, title@),
{
    let mut r = "Clipboard unavailable. Try use STDOUT, i.e. `kdbx ".to_owned();
    r.append(command);
    r.append(" '");
    r.append(title);
    r.append("' | cat`.");
    r
}

/// The error shown when a query matched nothing and standard output is not a
/// terminal, so the picker cannot be offered.
pub open spec fn spec_no_single_match_message(query: Seq<char>) -> Seq<char> {
    "No single match for "@ + query + "."@
}

pub fn no_single_match_message(query: &str) -> (r: String)
    ensures
        r@ == spec_no_single_match_message(query@),
{
    let mut r = "No single match for ".to_owned();
    r.append(query);
    r.append(".");
    r
}

} // verus!
