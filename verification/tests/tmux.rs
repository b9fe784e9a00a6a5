use tuimux::tmux::{probe_from_output, probe_start_failure, TmuxVersion};

#[test]
fn parses_plain_version() {
    let v = TmuxVersion::parse("tmux 3.4").unwrap();
    assert_eq!(v.major, 3);
    assert_eq!(v.minor, 4);
    assert_eq!(v.suffix_ascii, 0);
    assert_eq!(v.to_string(), "3.4");
}

#[test]
fn parses_patch_letter_suffix() {
    let v = TmuxVersion::parse("tmux 3.0a").unwrap();
    assert_eq!(v.major, 3);
    assert_eq!(v.minor, 0);
    assert_eq!(v.suffix_ascii, b'a');
    assert_eq!(v.to_string(), "3.0a");
}

#[test]
fn parses_bare_string_without_program_name() {
    assert_eq!(
        TmuxVersion::parse("2.9"),
        Some(TmuxVersion {
            major: 2,
            minor: 9,
            suffix_ascii: 0
        })
    );
}

#[test]
fn parses_development_prefix() {
    let v = TmuxVersion::parse("tmux next-3.4").unwrap();
    assert_eq!((v.major, v.minor), (3, 4));
}

#[test]
fn parses_major_only_as_dot_zero() {
    let v = TmuxVersion::parse("tmux 3").unwrap();
    assert_eq!((v.major, v.minor, v.suffix_ascii), (3, 0, 0));
}

#[test]
fn ignores_trailing_noise() {
    let v = TmuxVersion::parse("tmux 3.2a (some-distro-build)").unwrap();
    assert_eq!(v.to_string(), "3.2a");
}

#[test]
fn rejects_garbage() {
    assert_eq!(TmuxVersion::parse(""), None);
    assert_eq!(TmuxVersion::parse("tmux"), None);
    assert_eq!(TmuxVersion::parse("not a version"), None);
}

#[test]
fn ordering_is_sensible() {
    let v30 = TmuxVersion::parse("3.0").unwrap();
    let v30a = TmuxVersion::parse("3.0a").unwrap();
    let v31 = TmuxVersion::parse("3.1").unwrap();
    let v210 = TmuxVersion::parse("2.10").unwrap();
    let v29 = TmuxVersion::parse("2.9").unwrap();

    assert!(v30a > v30);
    assert!(v31 > v30a);
    assert!(v210 > v29, "2.10 should sort after 2.9 numerically");
    assert!(v30 > v210);
}

#[test]
fn support_floor_is_three_zero() {
    assert!(!TmuxVersion::parse("2.9").unwrap().is_supported());
    assert!(TmuxVersion::parse("3.0").unwrap().is_supported());
    assert!(TmuxVersion::parse("3.0a").unwrap().is_supported());
    assert!(TmuxVersion::parse("3.4").unwrap().is_supported());
}

#[test]
fn probe_keeps_trimmed_output_and_parses_it() {
    let probe = probe_from_output("tmux", true, "exit status: 0", b"  tmux 3.3a\n", b"").unwrap();
    assert_eq!(probe.binary, "tmux");
    assert_eq!(probe.raw_version, "tmux 3.3a");
    assert_eq!(probe.version, TmuxVersion::parse("3.3a"));
    assert!(probe.is_usable());
}

#[test]
fn probe_reports_failed_run_with_status_and_stderr() {
    let err = probe_from_output("tmux", false, "exit status: 1", b"", b" no server \n").unwrap_err();
    assert_eq!(err, "`tmux -V` exited with exit status: 1: no server");
}

#[test]
fn probe_of_unreadable_version_is_not_usable() {
    let probe = probe_from_output("tmux", true, "exit status: 0", b"tmux master\xff", b"").unwrap();
    assert_eq!(probe.raw_version, "tmux master\u{fffd}");
    assert_eq!(probe.version, None);
    assert!(!probe.is_usable());
}

#[test]
fn text_before_the_first_digit_is_ignored() {
    for prefix in ["", "tmux ", "next-", "tmux next-", "openbsd-", "  version: "] {
        let raw = format!("{prefix}3.4");
        assert_eq!(TmuxVersion::parse(&raw), TmuxVersion::parse("3.4"), "{raw}");
    }
    assert_eq!(TmuxVersion::parse("tmux next"), None);
    assert_eq!(TmuxVersion::parse(""), None);
}

#[test]
fn version_text_reads_back() {
    for v in [
        TmuxVersion { major: 3, minor: 0, suffix_ascii: 0 },
        TmuxVersion { major: 3, minor: 0, suffix_ascii: b'a' },
        TmuxVersion { major: 12, minor: 345, suffix_ascii: b'Z' },
        TmuxVersion { major: u32::MAX, minor: u32::MAX, suffix_ascii: 0 },
    ] {
        assert_eq!(TmuxVersion::parse(&v.to_string()), Some(v));
    }
}

#[test]
fn a_probe_that_cannot_start_says_so() {
    assert_eq!(
        probe_start_failure("tmux", "No such file or directory (os error 2)"),
        "could not run `tmux -V`: No such file or directory (os error 2) (is tmux installed and on PATH?)"
    );
}
