//! The credential type: an owned secret string, possibly empty (empty means
//! "no password supplied"). It is held by exactly one call stack at a time
//! and never logged; contracts speak only of its character view.
//!
//! The secret is moved, never implicitly copied: cloning is explicit, and
//! `into_text` surrenders the buffer to its one next holder. Wiping the
//! buffer in place is nothing safe code can promise (the allocator may
//! already have moved or copied it), so final erasure rests with process
//! exit, as the front end's interrupt handler assumes.

use vstd::prelude::*;

verus! {

pub struct Pwd {
    text: String,
}

impl View for Pwd {
    type V = Seq<char>;

    closed spec fn view(&self) -> Seq<char> {
        self.text@
    }
}

impl Clone for Pwd {
    fn clone(&self) -> (r: Self)
        ensures
            r@ == self@,
    {
        Pwd { text: self.text.clone() }
    }
}

impl Pwd {
    pub fn new(text: String) -> (r: Pwd)
        ensures
            r@ == text@,
    {
        Pwd { text }
    }

    pub fn from_str(text: &str) -> (r: Pwd)
        ensures
            r@ == text@,
    {
        Pwd { text: text.to_owned() }
    }

    /// Empty means that no password was supplied.
    pub fn is_empty(&self) -> (r: bool)
        ensures
            r == (self@.len() == 0),
    {
        self.text.as_str().is_empty()
    }

    pub fn as_str(&self) -> (r: &str)
        ensures
            r@ == self@,
    {
        self.text.as_str()
    }

    /// Surrenders the secret to the caller, e.g. to hand it to the
    /// clipboard sink or the vault-open collaborator.
    pub fn into_text(self) -> (r: String)
        ensures
            r@ == self@,
    {
        self.text
    }
}

} // verus!
