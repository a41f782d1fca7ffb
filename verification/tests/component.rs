use cosmic_session::component::{
    exit_message, renew_sockets, sockets_to_renew, start_component, PrivilegedSocket,
};

fn pair(key: &str, value: &str) -> (String, String) {
    (key.to_string(), value.to_string())
}

fn socket(n: i32) -> PrivilegedSocket<String, String> {
    PrivilegedSocket { fd: format!("fd{}", n), raw_fd: n, stream: format!("stream{}", n) }
}

#[test]
fn component_without_further_sockets() {
    let launch = start_component("cosmic-bg".to_string(), &[pair("A", "b")], socket(5), Vec::new());
    assert_eq!(launch.executable, "cosmic-bg");
    assert_eq!(launch.env_vars, vec![pair("A", "b"), pair("WAYLAND_SOCKET", "5")]);
    assert_eq!(launch.fds, vec!["fd5".to_string()]);
    assert_eq!(launch.sockets, vec!["stream5".to_string()]);
    assert!(launch.extra_keys.is_empty());
}

#[test]
fn further_sockets_come_behind_in_the_environment_and_before_in_the_descriptors() {
    let extra = vec![
        ("x".to_string(), pair("X_SOCKET", "7"), "sx".to_string()),
        ("y".to_string(), pair("Y_SOCKET", "8"), "sy".to_string()),
    ];
    let launch = start_component("portal".to_string(), &[], socket(6), extra);
    assert_eq!(
        launch.env_vars,
        vec![pair("WAYLAND_SOCKET", "6"), pair("X_SOCKET", "7"), pair("Y_SOCKET", "8")]
    );
    assert_eq!(launch.fds, vec!["x".to_string(), "y".to_string(), "fd6".to_string()]);
    assert_eq!(
        launch.sockets,
        vec!["stream6".to_string(), "sx".to_string(), "sy".to_string()]
    );
    assert_eq!(launch.extra_keys, vec!["X_SOCKET".to_string(), "Y_SOCKET".to_string()]);
}

#[test]
fn restart_renews_every_socket() {
    let keys = vec!["X_SOCKET".to_string(), "Y_SOCKET".to_string()];
    assert_eq!(sockets_to_renew(true, &keys), 3);
    assert_eq!(sockets_to_renew(true, &[]), 1);
    assert_eq!(sockets_to_renew(false, &keys), 0);
    let renewal = renew_sockets(keys, socket(20), vec![socket(21), socket(22)]);
    assert_eq!(
        renewal.env_vars,
        vec![pair("WAYLAND_SOCKET", "20"), pair("X_SOCKET", "21"), pair("Y_SOCKET", "22")]
    );
    assert_eq!(
        renewal.fds,
        vec!["fd20".to_string(), "fd21".to_string(), "fd22".to_string()]
    );
    assert_eq!(
        renewal.sockets,
        vec!["stream20".to_string(), "stream21".to_string(), "stream22".to_string()]
    );
}

#[test]
fn exit_code_is_logged() {
    assert_eq!(
        exit_message("cosmic-osd", Some(3)),
        Some("cosmic-osd exited with error 3".to_string())
    );
    assert_eq!(exit_message("cosmic-osd", None), None);
}
