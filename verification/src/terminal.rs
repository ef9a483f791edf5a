//! The terminal session model: an immutable snapshot of the line-discipline
//! flags (or the "not a terminal" marker), the flag transformation applied
//! while a secret is read, and the trimming of trailing line terminators.
//! The front end performs the platform calls and feeds their results in;
//! every decision about what to apply and read is computed here.

use vstd::prelude::*;

verus! {

/// The character-echo bit of the local-mode flag word.
pub const ECHO_FLAG: u32 = 0x8;

/// The echo-newline-even-when-echo-is-off bit of the local-mode flag word.
pub const ECHONL_FLAG: u32 = 0x40;

/// An immutable snapshot of the terminal's local-mode flags.
#[derive(Clone, Copy, Debug, PartialEq, Eq, Structural)]
pub struct TermAttrs {
    pub lflag: u32,
}

pub open spec fn echo_on(a: TermAttrs) -> bool {
    a.lflag & ECHO_FLAG != 0
}

pub open spec fn echonl_on(a: TermAttrs) -> bool {
    a.lflag & ECHONL_FLAG != 0
}

/// Captured once per process: either the interactive terminal's attributes
/// or the marker that input is not a terminal (a pipe, or a platform call
/// that failed and degraded to non-interactive).
#[derive(Clone, Copy, Debug, PartialEq, Eq, Structural)]
pub enum TerminalState {
    Interactive(TermAttrs),
    NotInteractive,
}

/// How one read is performed: on a terminal, apply `raw`, read one line,
/// and reapply `restore` immediately after the read; on piped input, read
/// the entire remaining stream as the secret.
#[derive(Clone, Copy, Debug, PartialEq, Eq, Structural)]
pub enum ReadMode {
    PromptedLine { raw: TermAttrs, restore: TermAttrs },
    WholeStream,
}

/// The attributes applied while a secret is read: character echo disabled,
/// newline echo enabled, every other bit untouched.
pub fn secret_attrs(a: TermAttrs) -> (r: TermAttrs)
    ensures
        r.lflag == a.lflag & !ECHO_FLAG | ECHONL_FLAG,
        !echo_on(r),
        echonl_on(r),
        forall|m: u32| m & (ECHO_FLAG | ECHONL_FLAG) == 0 ==> #[trigger] (r.lflag & m) == a.lflag
            & m,
{
    let l = a.lflag;
    proof {
        assert((l & !0x8u32 | 0x40u32) & 0x8u32 == 0) by (bit_vector);
        assert((l & !0x8u32 | 0x40u32) & 0x40u32 != 0) by (bit_vector);
        assert(forall|m: u32|
            m & (0x8u32 | 0x40u32) == 0 ==> #[trigger] ((l & !0x8u32 | 0x40u32) & m) == l & m)
            by (bit_vector);
        assert(0x8u32 | 0x40u32 == ECHO_FLAG | ECHONL_FLAG);
    }
    TermAttrs { lflag: l & !ECHO_FLAG | ECHONL_FLAG }
}

/// A captured terminal session. The snapshot is taken once and never
/// mutated; restore operations reapply it.
#[derive(Clone, Copy, Debug, PartialEq, Eq, Structural)]
pub struct TerminalSession {
    pub state: TerminalState,
}

impl TerminalSession {
    /// Captures the session from what the platform reported: the attributes
    /// of an interactive terminal, or nothing when input is not a terminal
    /// or the platform call failed (which degrades to non-interactive).
    pub fn capture(attrs: Option<TermAttrs>) -> (r: TerminalSession)
        ensures
            match attrs {
                Some(a) => r.state == TerminalState::Interactive(a),
                None => r.state == TerminalState::NotInteractive,
            },
    {
        match attrs {
            Some(a) => TerminalSession { state: TerminalState::Interactive(a) },
            None => TerminalSession { state: TerminalState::NotInteractive },
        }
    }

    pub fn is_interactive(&self) -> (r: bool)
        ensures
            r == (self.state is Interactive),
    {
        match self.state {
            TerminalState::Interactive(_) => true,
            TerminalState::NotInteractive => false,
        }
    }

    /// How a secret is read: with echo suppressed on a terminal (restoring
    /// the snapshot right after the read), or by consuming the whole piped
    /// stream.
    pub fn secret_read_mode(&self) -> (r: ReadMode)
        ensures
            match self.state {
                TerminalState::Interactive(a) => r matches ReadMode::PromptedLine {
                    raw,
                    restore,
                } && raw.lflag == a.lflag & !ECHO_FLAG | ECHONL_FLAG && !echo_on(raw) && echonl_on(
                    raw,
                ) && restore == a,
                TerminalState::NotInteractive => r is WholeStream,
            },
    {
        match self.state {
            TerminalState::Interactive(a) => ReadMode::PromptedLine {
                raw: secret_attrs(a),
                restore: a,
            },
            TerminalState::NotInteractive => ReadMode::WholeStream,
        }
    }

    /// How a non-secret line is read: echo is never disabled, so the raw
    /// and restored attributes are both the snapshot itself.
    pub fn line_read_mode(&self) -> (r: ReadMode)
        ensures
            match self.state {
                TerminalState::Interactive(a) => r == (ReadMode::PromptedLine {
                    raw: a,
                    restore: a,
                }),
                TerminalState::NotInteractive => r is WholeStream,
            },
    {
        match self.state {
            TerminalState::Interactive(a) => ReadMode::PromptedLine { raw: a, restore: a },
            TerminalState::NotInteractive => ReadMode::WholeStream,
        }
    }

    /// What a restore applies: the captured snapshot, or nothing for a
    /// non-interactive session. A pure function of the snapshot, so
    /// restoring twice applies the same attributes — restore is idempotent.
    pub fn restore_attrs(&self) -> (r: Option<TermAttrs>)
        ensures
            match self.state {
                TerminalState::Interactive(a) => r == Some(a),
                TerminalState::NotInteractive => r is None,
            },
    {
        match self.state {
            TerminalState::Interactive(a) => Some(a),
            TerminalState::NotInteractive => None,
        }
    }
}

/// `s` with every trailing `'\n'` and `'\r'` removed.
pub open spec fn spec_trimmed(s: Seq<char>) -> Seq<char>
    decreases s.len(),
{
    if s.len() > 0 && (s.last() == '\n' || s.last() == '\r') {
        spec_trimmed(s.drop_last())
    } else {
        s
    }
}

/// Strips trailing line terminators from a read line or stream.
pub fn trim_newlines(s: &str) -> (r: String)
    ensures
        r@ == spec_trimmed(s@),
{
    let n = s.unicode_len();
    proof {
        assert(s@.take(n as int) =~= s@);
    }
    let mut cut = n;
    while cut > 0
        invariant
            cut <= n,
            n == s@.len(),
            spec_trimmed(s@) == spec_trimmed(s@.take(cut as int)),
        ensures
            cut <= n,
            n == s@.len(),
            spec_trimmed(s@) == spec_trimmed(s@.take(cut as int)),
            cut > 0 ==> !(s@[cut - 1] == '\n' || s@[cut - 1] == '\r'),
        decreases cut,
    {
        let c = s.get_char(cut - 1);
        if c == '\n' || c == '\r' {
            proof {
                assert(s@.take(cut as int).last() == s@[cut - 1]);
                assert(s@.take(cut as int).drop_last() =~= s@.take(cut - 1));
            }
            cut = cut - 1;
        } else {
            break ;
        }
    }
    proof {
        if cut > 0 {
            assert(s@.take(cut as int).last() == s@[cut - 1]);
        }
        assert(spec_trimmed(s@.take(cut as int)) == s@.take(cut as int));
    }
    s.substring_char(0, cut).to_owned()
}

} // verus!
