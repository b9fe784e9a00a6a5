use tuimux::clipboard::{copy_route, ClipboardTool, CopyRoute, Platform};

#[test]
fn empty_text_needs_no_clipboard() {
    assert_eq!(copy_route("", Platform::OtherUnix), CopyRoute::Nothing);
    assert_eq!(copy_route("", Platform::Unsupported), CopyRoute::Nothing);
}

#[test]
fn each_platform_has_its_commands() {
    assert_eq!(copy_route("x", Platform::MacOs), CopyRoute::Run(ClipboardTool::Pbcopy));
    assert_eq!(copy_route("x", Platform::Windows), CopyRoute::Run(ClipboardTool::Clip));
    assert_eq!(
        copy_route("x", Platform::OtherUnix),
        CopyRoute::FirstInstalled(vec![ClipboardTool::WlCopy, ClipboardTool::Xclip, ClipboardTool::Xsel])
    );
    assert_eq!(copy_route("x", Platform::Unsupported), CopyRoute::Unsupported);
    assert_eq!(ClipboardTool::Xclip.program(), "xclip");
    assert_eq!(ClipboardTool::Xclip.args(), vec!["-selection", "clipboard"]);
    assert_eq!(ClipboardTool::Xsel.args(), vec!["--clipboard", "--input"]);
    assert!(ClipboardTool::WlCopy.args().is_empty());
}
