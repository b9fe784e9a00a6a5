use tuimux::doctor::{doctor_verdict, term_detail};
use tuimux::doctor::{check_line, colorterm_truecolor, doctor_exit_code, missing_tmux_detail, term_supported, version_detail};
use tuimux::tmux::TmuxVersion;

#[test]
fn terminal_types_must_be_set_and_capable() {
    assert!(term_supported("xterm-256color"));
    assert!(!term_supported(""));
    assert!(!term_supported("dumb"));
    assert!(term_supported("dumber"));
}

#[test]
fn truecolor_is_read_from_colorterm() {
    assert!(colorterm_truecolor("truecolor"));
    assert!(colorterm_truecolor("24bit"));
    assert!(colorterm_truecolor("x-truecolor-y"));
    assert!(!colorterm_truecolor(""));
    assert!(!colorterm_truecolor("256"));
}

#[test]
fn checklist_lines_pad_their_labels() {
    assert_eq!(check_line("TERM", true, "xterm"), "✓ TERM            : xterm");
    assert_eq!(check_line("running inside tmux", false, "no"), "✗ running inside tmux: no");
}

#[test]
fn version_details_explain_the_fallback() {
    assert_eq!(
        version_detail(TmuxVersion::parse("3.4"), "tmux 3.4"),
        "3.4 (>= 3.0 for --native-client)"
    );
    assert_eq!(
        version_detail(TmuxVersion::parse("2.9"), "tmux 2.9"),
        "2.9 is too old for --native-client; native tuimux is unaffected; recommended >= 3.0"
    );
    assert_eq!(version_detail(None, "tmux ?"), "could not parse `tmux ?`; native tuimux is unaffected");
    assert_eq!(
        missing_tmux_detail("not found"),
        "not available (not found); native tuimux does not require tmux"
    );
    assert_eq!(doctor_exit_code(true), 0);
    assert_eq!(doctor_exit_code(false), 1);
}

#[test]
fn verdict_rests_on_term_alone() {
    assert_eq!(doctor_verdict(true), (true, "Result: OK — environment looks ready for tuimux.".to_string()));
    assert_eq!(doctor_verdict(false), (false, "Result: PROBLEMS FOUND — see the ✗ lines above.".to_string()));
    assert_eq!(term_detail(""), "(unset)");
    assert_eq!(term_detail("xterm-256color"), "xterm-256color");
}
