use velo_de::hypr_compat::format_event;
use velo_de::protocol::{Event, WindowInfo};

#[test]
fn formats_workspace_event() {
    assert_eq!(format_event(&Event::Workspace(3)).unwrap(), "workspace>>3\n");
}

#[test]
fn formats_active_window_event() {
    let win = WindowInfo { class: "velo-browser".into(), title: "New Tab".into() };
    assert_eq!(format_event(&Event::ActiveWindow(win)).unwrap(), "activewindow>>velo-browser,New Tab\n");
}

#[test]
fn spaces_changed_has_no_hyprland_equivalent() {
    assert_eq!(format_event(&Event::SpacesChanged), None);
}
