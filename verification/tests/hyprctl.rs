use velo_de::hyprctl::{active_window_json, active_workspace_json, fallback, parse_query, workspaces_json, HyprQuery};
use velo_de::protocol::{SpaceInfo, WindowInfo};

fn args(a: &[&str]) -> Vec<String> {
    a.iter().map(|s| s.to_string()).collect()
}

#[test]
fn recognizes_the_queries_velo_shell_makes() {
    assert_eq!(parse_query(&args(&["-j", "workspaces"])), Some(HyprQuery::Workspaces));
    assert_eq!(parse_query(&args(&["-j", "activeworkspace"])), Some(HyprQuery::ActiveWorkspace));
    assert_eq!(parse_query(&args(&["-j", "activewindow"])), Some(HyprQuery::ActiveWindow));
    assert_eq!(parse_query(&args(&["dispatch", "workspace", "4"])), Some(HyprQuery::DispatchWorkspace(4)));
    assert_eq!(parse_query(&args(&["dispatch", "workspace", "-2"])), Some(HyprQuery::DispatchWorkspace(-2)));
}

#[test]
fn other_invocations_are_not_answered() {
    assert_eq!(parse_query(&args(&[])), None);
    assert_eq!(parse_query(&args(&["-j", "clients"])), None);
    assert_eq!(parse_query(&args(&["-j", "workspaces", "extra"])), None);
    assert_eq!(parse_query(&args(&["dispatch", "workspace", "next"])), None);
    assert_eq!(parse_query(&args(&["dispatch", "workspace", "99999999999"])), None);
    assert_eq!(parse_query(&args(&["dispatch", "exec", "kitty"])), None);
}

#[test]
fn fallback_gives_empty_json_for_queries() {
    assert_eq!(fallback(&args(&["-j", "workspaces"])), "[]");
    assert_eq!(fallback(&args(&["-j", "clients"])), "[]");
    assert_eq!(fallback(&args(&["-j", "monitors"])), "[]");
    assert_eq!(fallback(&args(&["-j", "layers"])), "[]");
    assert_eq!(fallback(&args(&["-j", "activewindow"])), "{}");
    assert_eq!(fallback(&args(&["-j"])), "{}");
    assert_eq!(fallback(&args(&["dispatch", "workspace", "1"])), "");
    assert_eq!(fallback(&args(&[])), "");
}

#[test]
fn workspaces_are_a_json_array_of_id_and_window_count() {
    let spaces = vec![
        SpaceInfo { id: 1, coord: (0, 0), windows: 2, focused: true },
        SpaceInfo { id: 2, coord: (1, 0), windows: 0, focused: false },
    ];
    assert_eq!(workspaces_json(&spaces), "[{\"id\":1,\"windows\":2},{\"id\":2,\"windows\":0}]");
    assert_eq!(workspaces_json(&[]), "[]");
}

#[test]
fn active_workspace_is_its_id() {
    let sp = SpaceInfo { id: -3, coord: (0, 0), windows: 12, focused: true };
    assert_eq!(active_workspace_json(&sp), "{\"id\":-3}");
}

#[test]
fn active_window_is_class_then_title_escaped() {
    let w = WindowInfo { title: "New \"Tab\"\n".to_string(), class: "velo-browser".to_string() };
    assert_eq!(active_window_json(&Some(w)), "{\"class\":\"velo-browser\",\"title\":\"New \\\"Tab\\\"\\n\"}");
    assert_eq!(active_window_json(&None), "{}");
    let c = WindowInfo { title: "a\u{1}b\\".to_string(), class: String::new() };
    assert_eq!(active_window_json(&Some(c)), "{\"class\":\"\",\"title\":\"a\\u0001b\\\\\"}");
}
