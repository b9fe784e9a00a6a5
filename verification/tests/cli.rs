use tuimux::cli::{choose_run_mode, exit_code, version_warning, Cli, RunMode};
use tuimux::tmux::{TmuxProbe, TmuxVersion};

fn cli_without_flags() -> Cli {
    Cli {
        doctor: false,
        layout_preview: false,
        dashboard: false,
        native_client: false,
        session: "tuimux".to_string(),
        cwd: None,
    }
}

#[test]
fn default_run_mode_is_ratatui_dashboard_not_plain_tmux_client() {
    let cli = cli_without_flags();

    assert_eq!(RunMode::Dashboard, choose_run_mode(&cli));
}

#[test]
fn explicit_native_client_mode_is_opt_in_only() {
    let mut cli = cli_without_flags();
    cli.native_client = true;

    assert_eq!(RunMode::NativeClient, choose_run_mode(&cli));
}

#[test]
fn exit_codes_are_clamped_to_a_byte() {
    assert_eq!(exit_code(-3), 0);
    assert_eq!(exit_code(0), 0);
    assert_eq!(exit_code(2), 2);
    assert_eq!(exit_code(255), 255);
    assert_eq!(exit_code(4096), 255);
}

#[test]
fn old_or_unreadable_tmux_gets_a_warning() {
    let old = TmuxProbe {
        binary: "tmux".to_string(),
        raw_version: "tmux 2.9".to_string(),
        version: TmuxVersion::parse("tmux 2.9"),
    };
    assert_eq!(
        version_warning(&old).unwrap(),
        "tuimux: warning — tmux 2.9 is older than the supported 3.0. Some features may not work."
    );
    let odd = TmuxProbe {
        binary: "tmux".to_string(),
        raw_version: "weird".to_string(),
        version: None,
    };
    assert_eq!(
        version_warning(&odd).unwrap(),
        "tuimux: warning — could not parse tmux version from `weird`."
    );
    let good = TmuxProbe {
        binary: "tmux".to_string(),
        raw_version: "tmux 3.4".to_string(),
        version: TmuxVersion::parse("tmux 3.4"),
    };
    assert_eq!(version_warning(&good), None);
}
