use cosmic_session::notifications::{
    first_act, next_act, notifications_process, on_exit, partner_started, FdKeys, RestartAct,
    SocketEnd,
};

fn pair(key: &str, value: &str) -> (String, String) {
    (key.to_string(), value.to_string())
}

fn end(raw_fd: i32) -> SocketEnd<String> {
    SocketEnd { fd: format!("fd{}", raw_fd), raw_fd }
}

fn keys() -> FdKeys {
    FdKeys { panel: "PANEL_FD".to_string(), daemon: "DAEMON_FD".to_string() }
}

#[test]
fn process_loses_the_wayland_socket() {
    let p = notifications_process(
        "daemon".to_string(),
        vec![
            pair("WAYLAND_SOCKET", "1"),
            pair("A", "b"),
            pair("WAYLAND_SOCKET", "2"),
            pair("DAEMON_FD", "3"),
        ],
        "end",
        "panel".to_string(),
        vec![pair("WAYLAND_SOCKET", "4"), pair("PANEL_FD", "5")],
    );
    assert_eq!(p.fds, vec!["end"]);
    let p = p.process;
    assert_eq!(p.cmd, "daemon");
    assert_eq!(p.env_vars, vec![pair("A", "b"), pair("DAEMON_FD", "3")]);
    assert_eq!(p.restart_cmd, "panel");
    assert_eq!(p.restart_env_vars, vec![pair("WAYLAND_SOCKET", "4"), pair("PANEL_FD", "5")]);
}

#[test]
fn exit_renews_both_ends_and_swaps_the_roles() {
    let p = notifications_process(
        "daemon".to_string(),
        vec![pair("A", "b"), pair("DAEMON_FD", "3")],
        (),
        "panel".to_string(),
        vec![pair("WAYLAND_SOCKET", "4"), pair("PANEL_FD", "5")],
    );
    let restart = on_exit(&p.process, &keys(), end(30), end(31));
    assert_eq!(restart.fds, vec!["fd30".to_string()]);
    assert_eq!(restart.partner.fds, vec!["fd31".to_string()]);
    let (mine, partner) = (restart.env_vars, restart.partner.process);
    assert_eq!(mine, vec![pair("A", "b"), pair("DAEMON_FD", "30")]);
    assert_eq!(partner.cmd, "panel");
    assert_eq!(partner.env_vars, vec![pair("PANEL_FD", "31")]);
    assert_eq!(partner.restart_cmd, "daemon");
    assert_eq!(partner.restart_env_vars, mine);
    let restart = on_exit(&partner, &keys(), end(40), end(41));
    let (theirs, again) = (restart.env_vars, restart.partner.process);
    assert_eq!(theirs, vec![pair("PANEL_FD", "40")]);
    assert_eq!(again.cmd, "daemon");
    assert_eq!(again.env_vars, vec![pair("A", "b"), pair("DAEMON_FD", "41")]);
}

#[test]
fn only_the_first_end_is_renewed() {
    let p = notifications_process(
        "d".to_string(),
        vec![pair("PANEL_FD", "1"), pair("DAEMON_FD", "2"), pair("PANEL_FD", "3")],
        (),
        "p".to_string(),
        vec![pair("A", "b")],
    );
    let restart = on_exit(&p.process, &keys(), end(8), end(9));
    let (mine, partner) = (restart.env_vars, restart.partner.process);
    assert_eq!(mine, vec![pair("PANEL_FD", "8"), pair("DAEMON_FD", "2"), pair("PANEL_FD", "3")]);
    assert_eq!(partner.env_vars, vec![pair("A", "b")]);
}

fn acts(will_restart: bool, partner: Option<i32>) -> Vec<RestartAct<i32>> {
    let mut list = Vec::new();
    let mut act = first_act(will_restart);
    while act != RestartAct::Rest {
        let next = match &act {
            RestartAct::Stop(k) => next_act(RestartAct::Stop(*k), partner),
            RestartAct::UpdateEnv => next_act(RestartAct::UpdateEnv, None),
            RestartAct::UpdateFds => next_act(RestartAct::UpdateFds, None),
            RestartAct::FindPartner => next_act(RestartAct::FindPartner, partner),
            RestartAct::StartPartner => next_act(RestartAct::StartPartner, partner),
            RestartAct::LogNoPartner => next_act(RestartAct::LogNoPartner, partner),
            RestartAct::Rest => next_act(RestartAct::Rest, partner),
        };
        list.push(act);
        act = next;
    }
    list
}

#[test]
fn acts_depend_on_restart_and_partner() {
    assert_eq!(acts(false, Some(1)), Vec::new());
    assert_eq!(
        acts(true, Some(1)),
        vec![
            RestartAct::UpdateEnv,
            RestartAct::UpdateFds,
            RestartAct::FindPartner,
            RestartAct::Stop(1),
            RestartAct::StartPartner
        ]
    );
    assert_eq!(
        acts(true, None),
        vec![
            RestartAct::UpdateEnv,
            RestartAct::UpdateFds,
            RestartAct::FindPartner,
            RestartAct::LogNoPartner
        ]
    );
    assert_eq!(next_act(RestartAct::Rest, Some(1)), RestartAct::Rest);
}

#[test]
fn failed_start_keeps_the_key() {
    let mut key = Some(1);
    partner_started(&mut key, None);
    assert_eq!(key, Some(1));
    partner_started(&mut key, Some(2));
    assert_eq!(key, Some(2));
}
