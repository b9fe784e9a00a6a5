//! Which system command takes text for the clipboard. The binary runs the
//! command; this module decides which one.

use vstd::prelude::*;

verus! {

/// The platform the binary was built for.
#[derive(Debug, Clone, Copy, PartialEq, Eq, Structural)]
pub enum Platform {
    MacOs,
    Windows,
    /// Linux and the BSDs.
    OtherUnix,
    Unsupported,
}

/// A clipboard command.
#[derive(Debug, Clone, Copy, PartialEq, Eq, Structural)]
pub enum ClipboardTool {
    Pbcopy,
    Clip,
    WlCopy,
    Xclip,
    Xsel,
}

impl ClipboardTool {
    /// The program to run.
    pub fn program(&self) -> (r: &'static str)
        ensures
            r@ == match *self {
                ClipboardTool::Pbcopy => "pbcopy"@,
                ClipboardTool::Clip => "clip"@,
                ClipboardTool::WlCopy => "wl-copy"@,
                ClipboardTool::Xclip => "xclip"@,
                ClipboardTool::Xsel => "xsel"@,
            },
    {
        match self {
            ClipboardTool::Pbcopy => "pbcopy",
            ClipboardTool::Clip => "clip",
            ClipboardTool::WlCopy => "wl-copy",
            ClipboardTool::Xclip => "xclip",
            ClipboardTool::Xsel => "xsel",
        }
    }

    /// Its arguments: xclip and xsel must be told to use the clipboard
    /// selection and to read their input.
    pub fn args(&self) -> (r: Vec<&'static str>)
        ensures
            r@.len() == match *self {
                ClipboardTool::Xclip => 2nat,
                ClipboardTool::Xsel => 2nat,
                _ => 0nat,
            },
            *self == ClipboardTool::Xclip ==> r@[0]@ == "-selection"@ && r@[1]@ == "clipboard"@,
            *self == ClipboardTool::Xsel ==> r@[0]@ == "--clipboard"@ && r@[1]@ == "--input"@,
    {
        match self {
            ClipboardTool::Xclip => vec!["-selection", "clipboard"],
            ClipboardTool::Xsel => vec!["--clipboard", "--input"],
            _ => Vec::new(),
        }
    }
}

/// How a copy goes.
#[derive(Debug, Clone, PartialEq, Eq)]
pub enum CopyRoute {
    /// Nothing to copy.
    Nothing,
    /// Run this command.
    Run(ClipboardTool),
    /// Run the first of these commands that is installed; fail when none is.
    FirstInstalled(Vec<ClipboardTool>),
    /// No clipboard on this platform.
    Unsupported,
}

/// Empty text needs no clipboard; macOS and Windows have one command each;
/// other Unix systems use whichever of wl-copy, xclip and xsel is installed,
/// in that order.
pub fn copy_route(text: &str, platform: Platform) -> (r: CopyRoute)
    ensures
        text@.len() == 0 ==> r == CopyRoute::Nothing,
        text@.len() > 0 ==> match platform {
            Platform::MacOs => r == CopyRoute::Run(ClipboardTool::Pbcopy),
            Platform::Windows => r == CopyRoute::Run(ClipboardTool::Clip),
            Platform::OtherUnix => r matches CopyRoute::FirstInstalled(tools) && tools@ == seq![
                ClipboardTool::WlCopy,
                ClipboardTool::Xclip,
                ClipboardTool::Xsel,
            ],
            Platform::Unsupported => r == CopyRoute::Unsupported,
        },
{
    if text.is_empty() {
        return CopyRoute::Nothing;
    }
    match platform {
        Platform::MacOs => CopyRoute::Run(ClipboardTool::Pbcopy),
        Platform::Windows => CopyRoute::Run(ClipboardTool::Clip),
        Platform::OtherUnix => CopyRoute::FirstInstalled(
            vec![ClipboardTool::WlCopy, ClipboardTool::Xclip, ClipboardTool::Xsel],
        ),
        Platform::Unsupported => CopyRoute::Unsupported,
    }
}

} // verus!
