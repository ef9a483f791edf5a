use kdbx::errors::{clipboard_unavailable_message, no_single_match_message, ErrorKind};
use kdbx::pwd::Pwd;
use kdbx::resolver::{CredentialResolver, ResolverAction, ResolverConfig, ResolverEvent};
use kdbx::terminal::{secret_attrs, trim_newlines, ReadMode, TermAttrs, TerminalSession,
    TerminalState, ECHONL_FLAG, ECHO_FLAG};
use kdbx::timer::{ExposureTimer, TimerTick};

fn config(use_keyring: bool, no_interaction: bool, stdin_is_tty: bool) -> ResolverConfig {
    ResolverConfig { use_keyring, remove_key: false, no_interaction, stdin_is_tty }
}

fn expect_try_open(action: ResolverAction, secret: &str) {
    match action {
        ResolverAction::TryOpen(p) => assert_eq!(p.as_str(), secret),
        _ => panic!("expected a vault-open attempt"),
    }
}

#[test]
fn test_resolver_cached_credential_no_prompt() {
    let mut r = CredentialResolver::new(config(true, false, true));
    assert!(matches!(r.step(ResolverEvent::Begin), ResolverAction::FetchCachedKey));
    let action = r.step(ResolverEvent::CachedKey(Some(Pwd::from_str("cached"))));
    expect_try_open(action, "cached");
    match r.step(ResolverEvent::OpenResult(true)) {
        ResolverAction::Succeed(p) => assert_eq!(p.as_str(), "cached"),
        _ => panic!("expected success without any prompt"),
    }
}

#[test]
fn test_resolver_bad_cached_credential_dropped() {
    let mut r = CredentialResolver::new(config(true, false, true));
    assert!(matches!(r.step(ResolverEvent::Begin), ResolverAction::FetchCachedKey));
    let action = r.step(ResolverEvent::CachedKey(Some(Pwd::from_str("stale"))));
    expect_try_open(action, "stale");
    assert!(matches!(
        r.step(ResolverEvent::OpenResult(false)),
        ResolverAction::DropCachedKey
    ));
    // Resolution falls through to the interactive prompt.
    assert!(matches!(r.step(ResolverEvent::Ack), ResolverAction::PromptSecret));
}

#[test]
fn test_resolver_piped_secret_never_retried() {
    let mut r = CredentialResolver::new(config(false, false, false));
    assert!(matches!(r.step(ResolverEvent::Begin), ResolverAction::ReadPipedSecret));
    let action = r.step(ResolverEvent::SecretRead(Pwd::from_str("piped")));
    expect_try_open(action, "piped");
    match r.step(ResolverEvent::OpenResult(false)) {
        ResolverAction::Fail(e) => assert_eq!(e, ErrorKind::InvalidCredential),
        _ => panic!("a failed piped attempt is terminal"),
    }
}

#[test]
fn test_resolver_no_interaction_fails_fast() {
    let mut r = CredentialResolver::new(config(false, true, true));
    match r.step(ResolverEvent::Begin) {
        ResolverAction::Fail(e) => assert_eq!(e, ErrorKind::NoInteraction),
        _ => panic!("prompting is suppressed"),
    }
}

#[test]
fn test_resolver_three_prompt_attempts() {
    let mut r = CredentialResolver::new(config(false, false, true));
    assert!(matches!(r.step(ResolverEvent::Begin), ResolverAction::PromptSecret));
    expect_try_open(r.step(ResolverEvent::SecretRead(Pwd::from_str("a"))), "a");
    match r.step(ResolverEvent::OpenResult(false)) {
        ResolverAction::AnnounceAttempts(left) => assert_eq!(left, 2),
        _ => panic!("expected the remaining attempt count"),
    }
    assert!(matches!(r.step(ResolverEvent::Ack), ResolverAction::PromptSecret));
    expect_try_open(r.step(ResolverEvent::SecretRead(Pwd::from_str("b"))), "b");
    match r.step(ResolverEvent::OpenResult(false)) {
        ResolverAction::AnnounceAttempts(left) => assert_eq!(left, 1),
        _ => panic!("expected the remaining attempt count"),
    }
    assert!(matches!(r.step(ResolverEvent::Ack), ResolverAction::PromptSecret));
    expect_try_open(r.step(ResolverEvent::SecretRead(Pwd::from_str("c"))), "c");
    match r.step(ResolverEvent::OpenResult(false)) {
        ResolverAction::Fail(e) => assert_eq!(e, ErrorKind::InvalidCredential),
        _ => panic!("the third failure is terminal"),
    }
}

#[test]
fn test_resolver_prompt_success_stores_key() {
    let mut r = CredentialResolver::new(config(true, false, true));
    assert!(matches!(r.step(ResolverEvent::Begin), ResolverAction::FetchCachedKey));
    assert!(matches!(r.step(ResolverEvent::CachedKey(None)), ResolverAction::PromptSecret));
    expect_try_open(r.step(ResolverEvent::SecretRead(Pwd::from_str("pw"))), "pw");
    match r.step(ResolverEvent::OpenResult(true)) {
        ResolverAction::StoreCachedKey(p) => assert_eq!(p.as_str(), "pw"),
        _ => panic!("a prompted success is written back to the keyring"),
    }
    match r.step(ResolverEvent::Ack) {
        ResolverAction::Succeed(p) => assert_eq!(p.as_str(), "pw"),
        _ => panic!("expected success"),
    }
}

#[test]
fn test_resolver_remove_key_first() {
    let cfg = ResolverConfig {
        use_keyring: false,
        remove_key: true,
        no_interaction: false,
        stdin_is_tty: true,
    };
    let mut r = CredentialResolver::new(cfg);
    assert!(matches!(r.step(ResolverEvent::Begin), ResolverAction::RemoveCachedKey));
    // Removal is never fatal: resolution continues.
    assert!(matches!(r.step(ResolverEvent::Ack), ResolverAction::PromptSecret));
}

#[test]
fn test_timer_zero_timeout_never_wipes() {
    let t = ExposureTimer::new(0);
    assert!(t.finished);
    assert!(!t.wiped);
}

#[test]
fn test_timer_counts_down_and_wipes_once() {
    let mut t = ExposureTimer::new(2);
    let mut wipes = 0;
    let mut announced = Vec::new();
    while !t.finished {
        match t.step(false) {
            TimerTick::Announce(secs) => announced.push(secs),
            TimerTick::Quiet => {}
            TimerTick::Wipe => wipes += 1,
        }
    }
    assert_eq!(wipes, 1);
    assert_eq!(announced, vec![2, 1]);
    assert!(t.wiped);
}

#[test]
fn test_timer_cancellation_wipes_within_one_tick() {
    let mut t = ExposureTimer::new(15);
    assert!(matches!(t.step(false), TimerTick::Announce(15)));
    assert!(matches!(t.step(true), TimerTick::Wipe));
    assert!(t.finished);
    assert!(t.wiped);
}

#[test]
fn test_secret_attrs_toggle_echo() {
    let a = TermAttrs { lflag: ECHO_FLAG | 0x100 };
    let r = secret_attrs(a);
    assert_eq!(r.lflag & ECHO_FLAG, 0);
    assert_ne!(r.lflag & ECHONL_FLAG, 0);
    assert_ne!(r.lflag & 0x100, 0);
}

#[test]
fn test_terminal_session_modes() {
    let attrs = TermAttrs { lflag: ECHO_FLAG };
    let tty = TerminalSession::capture(Some(attrs));
    assert!(tty.is_interactive());
    match tty.secret_read_mode() {
        ReadMode::PromptedLine { raw, restore } => {
            assert_eq!(raw.lflag & ECHO_FLAG, 0);
            assert_eq!(restore, attrs);
        }
        ReadMode::WholeStream => panic!("a terminal reads one line"),
    }
    assert_eq!(tty.restore_attrs(), Some(attrs));
    assert_eq!(tty.restore_attrs(), Some(attrs));

    let piped = TerminalSession::capture(None);
    assert!(!piped.is_interactive());
    assert_eq!(piped.state, TerminalState::NotInteractive);
    assert!(matches!(piped.secret_read_mode(), ReadMode::WholeStream));
    assert!(matches!(piped.line_read_mode(), ReadMode::WholeStream));
    assert_eq!(piped.restore_attrs(), None);
}

#[test]
fn test_trim_newlines_strips_terminators() {
    assert_eq!(trim_newlines("secret\n"), "secret");
    assert_eq!(trim_newlines("secret\r\n"), "secret");
    assert_eq!(trim_newlines("secret\n\r\n"), "secret");
    assert_eq!(trim_newlines("secret"), "secret");
    assert_eq!(trim_newlines(""), "");
    assert_eq!(trim_newlines("a\nb\n"), "a\nb");
}

#[test]
fn test_pwd_basics() {
    let p = Pwd::from_str("");
    assert!(p.is_empty());
    let p = Pwd::new("s3cret".to_string());
    assert!(!p.is_empty());
    assert_eq!(p.as_str(), "s3cret");
    assert_eq!(p.clone().into_text(), "s3cret");
}

#[test]
fn test_error_messages() {
    assert_eq!(ErrorKind::InvalidCredential.message(), "Invalid password or key");
    assert_eq!(ErrorKind::EntryNotFound.message(), "Not found");
    assert_eq!(ErrorKind::FileNotFound.message(), "File does not exist");
    assert_eq!(ErrorKind::FileExists.message(), "File exists");
    assert_eq!(
        clipboard_unavailable_message("pwd", "web"),
        "Clipboard unavailable. Try use STDOUT, i.e. `kdbx pwd 'web' | cat`."
    );
    assert_eq!(no_single_match_message("[empty]"), "No single match for [empty].");
}
