//! The credential resolver: the protocol by which the vault's unlocking
//! secret is obtained. The resolver itself performs no I/O; it is a state
//! machine that tells the front end what to do next — consult or update the
//! keyring cache, attempt a vault open, read a piped secret, or prompt —
//! and consumes the outcome of each action as an event. The order is fixed:
//! a cached keyring credential is always tried before any piped or
//! interactive path, a piped credential is attempted exactly once with no
//! retry, and the interactive prompt is bounded at three attempts.

use vstd::prelude::*;

use crate::errors::ErrorKind;
use crate::pwd::Pwd;

verus! {

/// The bound on interactive password attempts.
pub const MAX_ATTEMPTS: u8 = 3;

#[derive(Clone, Copy, Debug, PartialEq, Eq, Structural)]
pub struct ResolverConfig {
    /// Cache the credential in (and fetch it from) the OS keyring.
    pub use_keyring: bool,
    /// Delete any cached credential first (best effort, never fatal).
    pub remove_key: bool,
    /// Never prompt; fail instead when prompting would be needed.
    pub no_interaction: bool,
    /// Whether standard input is an interactive terminal.
    pub stdin_is_tty: bool,
}

/// What the front end must do next. Each action is answered by the event
/// named in its comment.
pub enum ResolverAction {
    /// Best-effort delete of the cached credential; answer `Ack` whatever
    /// the outcome (failure is logged, never fatal).
    RemoveCachedKey,
    /// Fetch the cached credential; answer `CachedKey`.
    FetchCachedKey,
    /// Attempt to open the vault with this credential; answer `OpenResult`.
    TryOpen(Pwd),
    /// Delete the known-bad cached credential; answer `Ack`.
    DropCachedKey,
    /// Read the entire remaining input stream as the secret; answer
    /// `SecretRead`.
    ReadPipedSecret,
    /// Print the password prompt, read a line with echo disabled; answer
    /// `SecretRead`.
    PromptSecret,
    /// Best-effort write of the credential to the keyring; answer `Ack`.
    StoreCachedKey(Pwd),
    /// Print the remaining attempt count; answer `Ack`.
    AnnounceAttempts(u8),
    /// Terminal: the vault opened with this credential.
    Succeed(Pwd),
    /// Terminal: resolution failed with this error.
    Fail(ErrorKind),
}

/// The outcome of the previous action, handed back to the resolver.
pub enum ResolverEvent {
    /// Starts the protocol.
    Begin,
    /// The previous effect completed (its outcome does not matter).
    Ack,
    /// What the keyring held for this vault, if anything.
    CachedKey(Option<Pwd>),
    /// Whether the vault-open attempt succeeded.
    OpenResult(bool),
    /// The secret that was read.
    SecretRead(Pwd),
}

/// Where the protocol stands; the payloads hold the credential in flight
/// and the remaining interactive attempts.
pub enum Phase {
    Start,
    Removing,
    Fetching,
    CacheOpening(Pwd),
    CacheDropping,
    PipeReading,
    PipeOpening(Pwd),
    PromptReading(u8),
    PromptOpening(u8, Pwd),
    Storing(Pwd),
    Announcing(u8),
    Finished,
}

/// `Phase` with every secret abstracted to its character sequence.
pub enum PhaseModel {
    Start,
    Removing,
    Fetching,
    CacheOpening(Seq<char>),
    CacheDropping,
    PipeReading,
    PipeOpening(Seq<char>),
    PromptReading(u8),
    PromptOpening(u8, Seq<char>),
    Storing(Seq<char>),
    Announcing(u8),
    Finished,
}

/// `ResolverAction` with every secret abstracted to its character sequence.
pub enum ActionModel {
    RemoveCachedKey,
    FetchCachedKey,
    TryOpen(Seq<char>),
    DropCachedKey,
    ReadPipedSecret,
    PromptSecret,
    StoreCachedKey(Seq<char>),
    AnnounceAttempts(u8),
    Succeed(Seq<char>),
    Fail(ErrorKind),
}

/// `ResolverEvent` with every secret abstracted to its character sequence.
pub enum EventModel {
    Begin,
    Ack,
    CachedKey(Option<Seq<char>>),
    OpenResult(bool),
    SecretRead(Seq<char>),
}

pub open spec fn phase_model(p: Phase) -> PhaseModel {
    match p {
        Phase::Start => PhaseModel::Start,
        Phase::Removing => PhaseModel::Removing,
        Phase::Fetching => PhaseModel::Fetching,
        Phase::CacheOpening(p) => PhaseModel::CacheOpening(p@),
        Phase::CacheDropping => PhaseModel::CacheDropping,
        Phase::PipeReading => PhaseModel::PipeReading,
        Phase::PipeOpening(p) => PhaseModel::PipeOpening(p@),
        Phase::PromptReading(left) => PhaseModel::PromptReading(left),
        Phase::PromptOpening(left, p) => PhaseModel::PromptOpening(left, p@),
        Phase::Storing(p) => PhaseModel::Storing(p@),
        Phase::Announcing(left) => PhaseModel::Announcing(left),
        Phase::Finished => PhaseModel::Finished,
    }
}

pub open spec fn action_model(a: ResolverAction) -> ActionModel {
    match a {
        ResolverAction::RemoveCachedKey => ActionModel::RemoveCachedKey,
        ResolverAction::FetchCachedKey => ActionModel::FetchCachedKey,
        ResolverAction::TryOpen(p) => ActionModel::TryOpen(p@),
        ResolverAction::DropCachedKey => ActionModel::DropCachedKey,
        ResolverAction::ReadPipedSecret => ActionModel::ReadPipedSecret,
        ResolverAction::PromptSecret => ActionModel::PromptSecret,
        ResolverAction::StoreCachedKey(p) => ActionModel::StoreCachedKey(p@),
        ResolverAction::AnnounceAttempts(left) => ActionModel::AnnounceAttempts(left),
        ResolverAction::Succeed(p) => ActionModel::Succeed(p@),
        ResolverAction::Fail(e) => ActionModel::Fail(e),
    }
}

pub open spec fn event_model(ev: ResolverEvent) -> EventModel {
    match ev {
        ResolverEvent::Begin => EventModel::Begin,
        ResolverEvent::Ack => EventModel::Ack,
        ResolverEvent::CachedKey(p) => EventModel::CachedKey(
            match p {
                Some(p) => Some(p@),
                None => None,
            },
        ),
        ResolverEvent::OpenResult(ok) => EventModel::OpenResult(ok),
        ResolverEvent::SecretRead(p) => EventModel::SecretRead(p@),
    }
}

/// Which event answers which phase.
pub open spec fn event_matches(ph: PhaseModel, ev: EventModel) -> bool {
    match (ph, ev) {
        (PhaseModel::Start, EventModel::Begin) => true,
        (PhaseModel::Removing, EventModel::Ack) => true,
        (PhaseModel::Fetching, EventModel::CachedKey(_)) => true,
        (PhaseModel::CacheOpening(_), EventModel::OpenResult(_)) => true,
        (PhaseModel::CacheDropping, EventModel::Ack) => true,
        (PhaseModel::PipeReading, EventModel::SecretRead(_)) => true,
        (PhaseModel::PipeOpening(_), EventModel::OpenResult(_)) => true,
        (PhaseModel::PromptReading(_), EventModel::SecretRead(_)) => true,
        (PhaseModel::PromptOpening(_, _), EventModel::OpenResult(_)) => true,
        (PhaseModel::Storing(_), EventModel::Ack) => true,
        (PhaseModel::Announcing(_), EventModel::Ack) => true,
        _ => false,
    }
}

/// Where resolution continues when no cached credential applies: piped
/// input is read (and later tried exactly once); on a terminal with
/// prompting suppressed it fails at once; otherwise the bounded prompt
/// loop starts.
pub open spec fn no_cache_step(cfg: ResolverConfig) -> (PhaseModel, ActionModel) {
    if !cfg.stdin_is_tty {
        (PhaseModel::PipeReading, ActionModel::ReadPipedSecret)
    } else if cfg.no_interaction {
        (PhaseModel::Finished, ActionModel::Fail(ErrorKind::NoInteraction))
    } else {
        (PhaseModel::PromptReading(MAX_ATTEMPTS), ActionModel::PromptSecret)
    }
}

/// After the optional cache removal: consult the cache if asked, else go
/// straight on.
pub open spec fn after_remove_step(cfg: ResolverConfig) -> (PhaseModel, ActionModel) {
    if cfg.use_keyring {
        (PhaseModel::Fetching, ActionModel::FetchCachedKey)
    } else {
        no_cache_step(cfg)
    }
}

/// The transition relation of the resolver protocol.
pub open spec fn next(cfg: ResolverConfig, ph: PhaseModel, ev: EventModel) -> (
    PhaseModel,
    ActionModel,
) {
    match (ph, ev) {
        (PhaseModel::Start, EventModel::Begin) => if cfg.remove_key {
            (PhaseModel::Removing, ActionModel::RemoveCachedKey)
        } else {
            after_remove_step(cfg)
        },
        (PhaseModel::Removing, EventModel::Ack) => after_remove_step(cfg),
        (PhaseModel::Fetching, EventModel::CachedKey(Some(p))) => (
            PhaseModel::CacheOpening(p),
            ActionModel::TryOpen(p),
        ),
        (PhaseModel::Fetching, EventModel::CachedKey(None)) => no_cache_step(cfg),
        (PhaseModel::CacheOpening(p), EventModel::OpenResult(true)) => (
            PhaseModel::Finished,
            ActionModel::Succeed(p),
        ),
        (PhaseModel::CacheOpening(_), EventModel::OpenResult(false)) => (
            PhaseModel::CacheDropping,
            ActionModel::DropCachedKey,
        ),
        (PhaseModel::CacheDropping, EventModel::Ack) => no_cache_step(cfg),
        (PhaseModel::PipeReading, EventModel::SecretRead(s)) => (
            PhaseModel::PipeOpening(s),
            ActionModel::TryOpen(s),
        ),
        (PhaseModel::PipeOpening(s), EventModel::OpenResult(ok)) => (
            PhaseModel::Finished,
            if ok {
                ActionModel::Succeed(s)
            } else {
                ActionModel::Fail(ErrorKind::InvalidCredential)
            },
        ),
        (PhaseModel::PromptReading(left), EventModel::SecretRead(s)) => (
            PhaseModel::PromptOpening(left, s),
            ActionModel::TryOpen(s),
        ),
        (PhaseModel::PromptOpening(left, s), EventModel::OpenResult(true)) => if cfg.use_keyring {
            (PhaseModel::Storing(s), ActionModel::StoreCachedKey(s))
        } else {
            (PhaseModel::Finished, ActionModel::Succeed(s))
        },
        (PhaseModel::PromptOpening(left, _), EventModel::OpenResult(false)) => if left <= 1 {
            (PhaseModel::Finished, ActionModel::Fail(ErrorKind::InvalidCredential))
        } else {
            (PhaseModel::Announcing((left - 1) as u8), ActionModel::AnnounceAttempts(
                (left - 1) as u8,
            ))
        },
        (PhaseModel::Storing(s), EventModel::Ack) => (
            PhaseModel::Finished,
            ActionModel::Succeed(s),
        ),
        (PhaseModel::Announcing(left), EventModel::Ack) => (
            PhaseModel::PromptReading(left),
            ActionModel::PromptSecret,
        ),
        _ => (PhaseModel::Finished, ActionModel::Fail(ErrorKind::InvalidCredential)),
    }
}

/// The remaining interactive attempts a phase still allows.
pub open spec fn budget(ph: PhaseModel) -> nat {
    match ph {
        PhaseModel::PromptReading(left) => left as nat,
        PhaseModel::PromptOpening(left, _) => left as nat,
        PhaseModel::Announcing(left) => left as nat,
        PhaseModel::Finished => 0,
        PhaseModel::PipeReading => 0,
        PhaseModel::PipeOpening(_) => 0,
        _ => MAX_ATTEMPTS as nat,
    }
}

pub struct CredentialResolver {
    pub cfg: ResolverConfig,
    pub phase: Phase,
}

impl CredentialResolver {
    pub open spec fn wf(self) -> bool {
        match phase_model(self.phase) {
            PhaseModel::PromptReading(left) => 1 <= left <= MAX_ATTEMPTS,
            PhaseModel::PromptOpening(left, _) => 1 <= left <= MAX_ATTEMPTS,
            PhaseModel::Announcing(left) => 1 <= left <= MAX_ATTEMPTS,
            _ => true,
        }
    }

    pub fn new(cfg: ResolverConfig) -> (r: CredentialResolver)
        ensures
            r.cfg == cfg,
            phase_model(r.phase) == PhaseModel::Start,
            r.wf(),
    {
        CredentialResolver { cfg, phase: Phase::Start }
    }

    /// One protocol step: consumes the event answering the previous action
    /// and says what to do next, exactly as the transition relation `next`
    /// prescribes.
    pub fn step(&mut self, ev: ResolverEvent) -> (r: ResolverAction)
        requires
            old(self).wf(),
            phase_model(old(self).phase) != PhaseModel::Finished,
            event_matches(phase_model(old(self).phase), event_model(ev)),
        ensures
            final(self).wf(),
            final(self).cfg == old(self).cfg,
            (phase_model(final(self).phase), action_model(r)) == next(
                old(self).cfg,
                phase_model(old(self).phase),
                event_model(ev),
            ),
    {
        let cfg = self.cfg;
        let (phase2, action) = match (&self.phase, ev) {
            (Phase::Start, ResolverEvent::Begin) => {
                if cfg.remove_key {
                    (Phase::Removing, ResolverAction::RemoveCachedKey)
                } else {
                    Self::after_remove(cfg)
                }
            },
            (Phase::Removing, ResolverEvent::Ack) => Self::after_remove(cfg),
            (Phase::Fetching, ResolverEvent::CachedKey(Some(p))) => {
                let attempt = p.clone();
                (Phase::CacheOpening(p), ResolverAction::TryOpen(attempt))
            },
            (Phase::Fetching, ResolverEvent::CachedKey(None)) => Self::no_cache(cfg),
            (Phase::CacheOpening(p), ResolverEvent::OpenResult(true)) => {
                let won = p.clone();
                (Phase::Finished, ResolverAction::Succeed(won))
            },
            (Phase::CacheOpening(_), ResolverEvent::OpenResult(false)) => (
                Phase::CacheDropping,
                ResolverAction::DropCachedKey,
            ),
            (Phase::CacheDropping, ResolverEvent::Ack) => Self::no_cache(cfg),
            (Phase::PipeReading, ResolverEvent::SecretRead(s)) => {
                let attempt = s.clone();
                (Phase::PipeOpening(s), ResolverAction::TryOpen(attempt))
            },
            (Phase::PipeOpening(s), ResolverEvent::OpenResult(ok)) => {
                let r = if ok {
                    ResolverAction::Succeed(s.clone())
                } else {
                    ResolverAction::Fail(ErrorKind::InvalidCredential)
                };
                (Phase::Finished, r)
            },
            (Phase::PromptReading(left), ResolverEvent::SecretRead(s)) => {
                let left = *left;
                let attempt = s.clone();
                (Phase::PromptOpening(left, s), ResolverAction::TryOpen(attempt))
            },
            (Phase::PromptOpening(left, s), ResolverEvent::OpenResult(true)) => {
                if cfg.use_keyring {
                    (Phase::Storing(s.clone()), ResolverAction::StoreCachedKey(s.clone()))
                } else {
                    (Phase::Finished, ResolverAction::Succeed(s.clone()))
                }
            },
            (Phase::PromptOpening(left, _), ResolverEvent::OpenResult(false)) => {
                let left = *left;
                if left <= 1 {
                    (Phase::Finished, ResolverAction::Fail(ErrorKind::InvalidCredential))
                } else {
                    (Phase::Announcing(left - 1), ResolverAction::AnnounceAttempts(left - 1))
                }
            },
            (Phase::Storing(s), ResolverEvent::Ack) => {
                let won = s.clone();
                (Phase::Finished, ResolverAction::Succeed(won))
            },
            (Phase::Announcing(left), ResolverEvent::Ack) => (
                Phase::PromptReading(*left),
                ResolverAction::PromptSecret,
            ),
            _ => {
                proof {
                    assert(false);
                }
                (Phase::Finished, ResolverAction::Fail(ErrorKind::InvalidCredential))
            },
        };
        self.phase = phase2;
        action
    }

    fn no_cache(cfg: ResolverConfig) -> (r: (Phase, ResolverAction))
        ensures
            (phase_model(r.0), action_model(r.1)) == no_cache_step(cfg),
    {
        if !cfg.stdin_is_tty {
            (Phase::PipeReading, ResolverAction::ReadPipedSecret)
        } else if cfg.no_interaction {
            (Phase::Finished, ResolverAction::Fail(ErrorKind::NoInteraction))
        } else {
            (Phase::PromptReading(MAX_ATTEMPTS), ResolverAction::PromptSecret)
        }
    }

    fn after_remove(cfg: ResolverConfig) -> (r: (Phase, ResolverAction))
        ensures
            (phase_model(r.0), action_model(r.1)) == after_remove_step(cfg),
    {
        if cfg.use_keyring {
            (Phase::Fetching, ResolverAction::FetchCachedKey)
        } else {
            Self::no_cache(cfg)
        }
    }
}

/// Law: with the keyring in use and a cached credential that opens the
/// vault, resolution succeeds in three steps — fetch, one open attempt,
/// success — without ever prompting or reading input.
pub proof fn lemma_cached_credential_no_prompt(cfg: ResolverConfig, p: Seq<char>)
    requires
        cfg.use_keyring,
        !cfg.remove_key,
    ensures
        ({
            let (ph1, a1) = next(cfg, PhaseModel::Start, EventModel::Begin);
            let (ph2, a2) = next(cfg, ph1, EventModel::CachedKey(Some(p)));
            let (ph3, a3) = next(cfg, ph2, EventModel::OpenResult(true));
            &&& a1 == ActionModel::FetchCachedKey
            &&& a2 == ActionModel::TryOpen(p)
            &&& a3 == ActionModel::Succeed(p)
            &&& ph3 == PhaseModel::Finished
        }),
{
}

/// Law: with the keyring in use and a cached credential that fails to open
/// the vault, the known-bad cache record is deleted and resolution falls
/// through to the next source (pipe, no-interaction failure, or prompt).
pub proof fn lemma_bad_cached_credential_dropped(cfg: ResolverConfig, p: Seq<char>)
    requires
        cfg.use_keyring,
        !cfg.remove_key,
    ensures
        ({
            let (ph1, a1) = next(cfg, PhaseModel::Start, EventModel::Begin);
            let (ph2, a2) = next(cfg, ph1, EventModel::CachedKey(Some(p)));
            let (ph3, a3) = next(cfg, ph2, EventModel::OpenResult(false));
            let (ph4, a4) = next(cfg, ph3, EventModel::Ack);
            &&& a3 == ActionModel::DropCachedKey
            &&& (ph4, a4) == no_cache_step(cfg)
        }),
{
}

/// Law: a piped credential is attempted exactly once — whatever the open
/// attempt returned, the very next step is terminal, with no retry.
pub proof fn lemma_piped_credential_never_retried(cfg: ResolverConfig, s: Seq<char>, ok: bool)
    ensures
        next(cfg, PhaseModel::PipeOpening(s), EventModel::OpenResult(ok)) == (
            PhaseModel::Finished,
            if ok {
                ActionModel::Succeed(s)
            } else {
                ActionModel::Fail(ErrorKind::InvalidCredential)
            },
        ),
{
}

/// The phases from which no prompt and no piped read can follow without
/// first passing a cache answer or an open failure.
pub open spec fn prompt_free(ph: PhaseModel) -> bool {
    match ph {
        PhaseModel::PromptReading(_) => false,
        PhaseModel::PromptOpening(_, _) => false,
        PhaseModel::Announcing(_) => false,
        PhaseModel::PipeReading => false,
        PhaseModel::PipeOpening(_) => false,
        _ => true,
    }
}

/// Law: with prompting suppressed on a terminal, the protocol never prompts
/// and never reads input — starting prompt-free (as `Start` is), every
/// reachable step stays prompt-free, and no step asks for a secret.
pub proof fn lemma_no_interaction_never_prompts(
    cfg: ResolverConfig,
    ph: PhaseModel,
    ev: EventModel,
)
    requires
        cfg.no_interaction,
        cfg.stdin_is_tty,
        prompt_free(ph),
        event_matches(ph, ev),
    ensures
        prompt_free(next(cfg, ph, ev).0),
        next(cfg, ph, ev).1 != ActionModel::PromptSecret,
        next(cfg, ph, ev).1 != ActionModel::ReadPipedSecret,
{
}

/// Law (the tie-break rule): with the keyring in use, the cached credential
/// is consulted before anything else — from the opening phases the only
/// actions are the cache removal and the cache fetch; no open attempt,
/// prompt, or piped read can come first.
pub proof fn lemma_cache_consulted_first(cfg: ResolverConfig, ph: PhaseModel, ev: EventModel)
    requires
        cfg.use_keyring,
        ph is Start || ph is Removing,
        event_matches(ph, ev),
    ensures
        next(cfg, ph, ev).1 == ActionModel::RemoveCachedKey || next(cfg, ph, ev).1
            == ActionModel::FetchCachedKey,
        next(cfg, ph, ev).0 is Removing || next(cfg, ph, ev).0 is Fetching,
{
}

/// Law: the interactive retry is bounded — no transition raises the
/// remaining-attempt budget above `MAX_ATTEMPTS`, a failed prompted open
/// strictly lowers it, and once it reaches zero the protocol is finished.
pub proof fn lemma_attempts_bounded(cfg: ResolverConfig, ph: PhaseModel, ev: EventModel)
    requires
        event_matches(ph, ev),
        budget(ph) <= MAX_ATTEMPTS as nat,
    ensures
        budget(next(cfg, ph, ev).0) <= MAX_ATTEMPTS as nat,
        ph matches PhaseModel::PromptOpening(_, _) ==> budget(next(cfg, ph, ev).0) < budget(ph)
            || next(cfg, ph, ev).0 is Finished || next(cfg, ph, ev).0 is Storing,
{
}

} // verus!
