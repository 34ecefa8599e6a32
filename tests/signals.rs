use procscan::cli::{FaulxArgs, RequestError, MAX_NAMES};
use procscan::signals::{list_signals, lookup_signal, parse_signal, Signal};

#[test]
fn signal_kill_in_any_case() {
    assert_eq!(parse_signal("kill"), Some(Signal::SIGKILL));
    assert_eq!(parse_signal("KILL"), Some(Signal::SIGKILL));
    assert_eq!(parse_signal("KiLl"), Some(Signal::SIGKILL));
    assert_eq!(parse_signal("notasignal"), None);
}

#[test]
fn signal_lookup_is_exact() {
    assert_eq!(lookup_signal("TERM"), Some(Signal::SIGTERM));
    assert_eq!(lookup_signal("term"), None);
    assert_eq!(lookup_signal("SIGTERM"), None);
    assert_eq!(lookup_signal(""), None);
    assert_eq!(lookup_signal("VTALRM"), Some(Signal::SIGVTALRM));
}

#[test]
fn signal_names_listed_in_order() {
    assert_eq!(
        list_signals(),
        "INT TERM KILL HUP QUIT USR1 USR2 ALRM CONT STOP TSTP CHLD PIPE SEGV ABRT ILL TRAP BUS FPE TTIN TTOU URG XCPU XFSZ VTALRM PROF WINCH IO PWR SYS"
    );
}

fn request(n: usize, signal: Option<&str>) -> FaulxArgs {
    FaulxArgs {
        process_names: (0..n).map(|i| format!("p{i}")).collect(),
        list: false,
        signal: signal.map(|s| s.to_string()),
        quiet: false,
        process_group: false,
        verbose: false,
    }
}

#[test]
fn request_with_too_many_names_refused() {
    assert_eq!(MAX_NAMES, usize::BITS as usize);
    let r = request(MAX_NAMES + 1, None).checked_signal();
    assert_eq!(r, Err(RequestError::TooManyNames { given: MAX_NAMES + 1 }));
    let r = request(MAX_NAMES + 1, Some("notasignal")).checked_signal();
    assert_eq!(r, Err(RequestError::TooManyNames { given: MAX_NAMES + 1 }));
}

#[test]
fn request_with_sixty_five_names_refused() {
    let r = request(65, Some("kill")).checked_signal();
    if MAX_NAMES == 64 {
        assert_eq!(r, Err(RequestError::TooManyNames { given: 65 }));
    }
}

#[test]
fn request_defaults_to_term() {
    assert_eq!(request(MAX_NAMES, None).checked_signal(), Ok(Signal::SIGTERM));
    assert_eq!(request(1, Some("hup")).checked_signal(), Ok(Signal::SIGHUP));
    assert_eq!(request(1, Some("bogus")).checked_signal(), Err(RequestError::UnknownSignal));
}
