use velo_de::paths::{hypr_event_socket_path, runtime_dir, socket_path, HYPRLAND_INSTANCE_SIGNATURE};

#[test]
fn native_socket_lives_under_the_runtime_dir() {
    assert_eq!(socket_path(Some("/run/user/1000")), "/run/user/1000/velo-de/velo-de.sock");
    assert_eq!(socket_path(Some("/tmp/")), "/tmp/velo-de/velo-de.sock");
}

#[test]
fn hypr_event_socket_uses_the_instance_signature() {
    assert_eq!(HYPRLAND_INSTANCE_SIGNATURE, "velo-de");
    assert_eq!(hypr_event_socket_path(Some("/run/user/1000")), "/run/user/1000/hypr/velo-de/.socket2.sock");
}

#[test]
fn unset_runtime_dir_falls_back_to_tmp() {
    assert_eq!(runtime_dir(None), "/tmp");
    assert_eq!(socket_path(None), "/tmp/velo-de/velo-de.sock");
    assert_eq!(hypr_event_socket_path(None), "/tmp/hypr/velo-de/.socket2.sock");
}

#[test]
fn empty_runtime_dir_gives_a_relative_path() {
    assert_eq!(socket_path(Some("")), "velo-de/velo-de.sock");
}
