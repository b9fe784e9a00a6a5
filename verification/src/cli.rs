//! The command line's decisions: which front end runs, the exit code, and
//! the warning about the tmux that was found.

use vstd::prelude::*;

use std::path::PathBuf;

use crate::text::push_str;
use crate::tmux::{TmuxProbe, TmuxVersion, min_supported_version, spec_version_text, version_le};

verus! {

/// The options of the command line.
#[derive(Debug)]
pub struct Cli {
    /// Run environment diagnostics and exit.
    pub doctor: bool,
    /// Render the layout as text and exit.
    pub layout_preview: bool,
    /// Run the ratatui dashboard (the default; kept for compatibility).
    pub dashboard: bool,
    /// Open a plain native tmux client instead of the tuimux interface.
    pub native_client: bool,
    /// The session to create or attach.
    pub session: String,
    /// The working directory for new shells.
    pub cwd: Option<PathBuf>,
}

/// Which front end runs.
#[derive(Debug, Clone, Copy, PartialEq, Eq, Structural)]
pub enum RunMode {
    Dashboard,
    NativeClient,
}

/// The tuimux interface runs unless the native tmux client is asked for.
pub fn choose_run_mode(cli: &Cli) -> (m: RunMode)
    ensures
        m == if cli.native_client {
            RunMode::NativeClient
        } else {
            RunMode::Dashboard
        },
{
    if cli.native_client {
        RunMode::NativeClient
    } else {
        RunMode::Dashboard
    }
}

/// A process exit code: the result clamped to `0..=255`.
pub fn exit_code(rc: i32) -> (c: u8)
    ensures
        c == if rc < 0 {
            0
        } else if rc > 255 {
            255
        } else {
            rc
        },
{
    if rc < 0 {
        0
    } else if rc > 255 {
        255
    } else {
        rc as u8
    }
}

/// The warning printed before starting, about a tmux that is too old or
/// whose version could not be read.
pub open spec fn spec_version_warning(binary: Seq<char>, raw: Seq<char>, version: Option<TmuxVersion>) -> Option<Seq<char>> {
    match version {
        Some(v) => if version_le(min_supported_version(), v) {
            None
        } else {
            Some(
                "tuimux: warning — "@ + binary + " "@ + spec_version_text(v) + " is older than the supported "@
                    + spec_version_text(min_supported_version()) + ". Some features may not work."@,
            )
        },
        None => Some("tuimux: warning — could not parse tmux version from `"@ + raw + "`."@),
    }
}

/// The warning about the probed tmux, if any.
pub fn version_warning(probe: &TmuxProbe) -> (r: Option<String>)
    ensures
        match spec_version_warning(probe.binary@, probe.raw_version@, probe.version) {
            Some(w) => r matches Some(s) && s@ == w,
            None => r is None,
        },
{
    match probe.version {
        Some(v) => if v.is_supported() {
            None
        } else {
            let mut s = String::new();
            push_str(&mut s, "tuimux: warning — ");
            push_str(&mut s, probe.binary.as_str());
            push_str(&mut s, " ");
            push_str(&mut s, v.to_string().as_str());
            push_str(&mut s, " is older than the supported ");
            push_str(&mut s, crate::tmux::min_supported().to_string().as_str());
            push_str(&mut s, ". Some features may not work.");
            Some(s)
        },
        None => {
            let mut s = String::new();
            push_str(&mut s, "tuimux: warning — could not parse tmux version from `");
            push_str(&mut s, probe.raw_version.as_str());
            push_str(&mut s, "`.");
            Some(s)
        },
    }
}

} // verus!
