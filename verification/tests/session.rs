use cosmic_session::component::PrivilegedSocket;
use cosmic_session::notifications::{FdKeys, SocketEnd};
use cosmic_session::service::SessionRequest;
use cosmic_session::session::{
    after_session, component_name, compositor_command, export_session_type, next_step,
    notifications_pair, on_wait, portal_component, portal_extras, portal_path, restart_policy,
    seconds_of, session_component, session_env, settings_daemon, settings_daemon_exited, signals_to_watch, start, wants_portal, AfterSession,
    Outcome, RestartPolicy, Status, Step, WaitEvent, COMPONENTS,
};

fn pair(key: &str, value: &str) -> (String, String) {
    (key.to_string(), value.to_string())
}

/// Runs a session whose step `trouble` has the outcome `instead`.
fn course(
    systemd_used: bool,
    portal: bool,
    status: Status,
    trouble: Option<(Step, Outcome)>,
) -> Vec<Step> {
    let mut steps = vec![start()];
    loop {
        let step = *steps.last().unwrap();
        let usual = match step {
            Step::CheckDesktop => Outcome::Desktop(portal),
            Step::Wait => Outcome::Ended(status),
            _ => Outcome::Done,
        };
        let outcome = match trouble {
            Some((place, instead)) if place == step => instead,
            _ => usual,
        };
        match next_step(systemd_used, step, outcome) {
            Some(next) => steps.push(next),
            None => return steps,
        }
    }
}

fn end(raw_fd: i32) -> SocketEnd<String> {
    SocketEnd { fd: format!("fd{}", raw_fd), raw_fd }
}

fn place(steps: &[Step], step: Step) -> usize {
    steps.iter().position(|s| *s == step).unwrap()
}

#[test]
fn session_under_systemd() {
    let steps = course(true, true, Status::Exited, None);
    let mut expected = vec![
        Step::RunCompositor,
        Step::AwaitEnvironment,
        Step::ExportSessionType,
        Step::SyncEnvironment,
        Step::StartSettingsDaemon,
        Step::StartTarget,
        Step::StartAccessibility,
        Step::CreateNotificationSocket,
        Step::StartNotifications,
        Step::StartPanel,
    ];
    for i in 0..COMPONENTS {
        expected.push(Step::StartComponent(i));
    }
    expected.extend([
        Step::CheckDesktop,
        Step::StartPortal,
        Step::Wait,
        Step::StopCompositor(Status::Exited),
        Step::StopSettingsDaemon(Status::Exited),
        Step::AwaitSettingsExit(Status::Exited),
        Step::Linger(Status::Exited),
        Step::StopTarget(Status::Exited),
        Step::Finish(Status::Exited),
    ]);
    assert_eq!(steps, expected);
}

#[test]
fn session_without_systemd_runs_autostart() {
    let steps = course(false, false, Status::Restarted, None);
    assert!(!steps.contains(&Step::SyncEnvironment));
    assert!(!steps.contains(&Step::StartPortal));
    assert_eq!(place(&steps, Step::RunAutostart) + 1, place(&steps, Step::Wait));
    assert_eq!(steps.last(), Some(&Step::Finish(Status::Restarted)));
}

#[test]
fn target_starts_when_all_is_ready() {
    for systemd_used in [false, true] {
        let steps = course(systemd_used, false, Status::Exited, None);
        let target = place(&steps, Step::StartTarget);
        assert!(place(&steps, Step::AwaitEnvironment) < target);
        assert!(place(&steps, Step::ExportSessionType) < target);
        assert!(place(&steps, Step::StartSettingsDaemon) < target);
    }
}

#[test]
fn failed_compositor_ends_the_session() {
    let trouble = Some((Step::RunCompositor, Outcome::Failed));
    assert_eq!(
        course(true, true, Status::Exited, trouble),
        vec![Step::RunCompositor, Step::Fail]
    );
}

#[test]
fn failed_environment_sync_is_no_obstacle() {
    let usual = course(true, true, Status::Exited, None);
    let trouble = Some((Step::SyncEnvironment, Outcome::Failed));
    assert_eq!(course(true, true, Status::Exited, trouble), usual);
}

#[test]
fn settings_daemon_that_does_not_stop_is_not_awaited() {
    let s = Status::Exited;
    let steps = course(true, true, s, Some((Step::StopSettingsDaemon(s), Outcome::Failed)));
    assert!(!steps.contains(&Step::AwaitSettingsExit(s)));
    assert_eq!(steps.last(), Some(&Step::Finish(s)));
    let steps = course(true, true, s, Some((Step::AwaitSettingsExit(s), Outcome::Failed)));
    assert_eq!(place(&steps, Step::AwaitSettingsExit(s)) + 1, place(&steps, Step::Linger(s)));
}

#[test]
fn steps_without_such_an_outcome_lead_nowhere() {
    assert_eq!(next_step(true, Step::AwaitEnvironment, Outcome::Failed), None);
    assert_eq!(next_step(true, Step::StartPanel, Outcome::Desktop(true)), None);
    assert_eq!(next_step(true, Step::CheckDesktop, Outcome::Done), None);
    assert_eq!(next_step(true, Step::Wait, Outcome::Done), None);
    for step in [Step::Fail, Step::Panic, Step::Finish(Status::Exited)] {
        for outcome in [Outcome::Done, Outcome::Failed, Outcome::Panicked] {
            assert_eq!(next_step(false, step, outcome), None);
        }
    }
}

#[test]
fn panic_stops_a_running_target() {
    let s = Status::Exited;
    let all = course(false, true, s, None);
    let target = place(&all, Step::StartTarget);
    let stop = place(&all, Step::StopTarget(s));
    for (i, step) in all.iter().enumerate() {
        if step == &Step::Finish(s) {
            continue;
        }
        let steps = course(false, true, s, Some((*step, Outcome::Panicked)));
        let mut expected = all[..=i].to_vec();
        if target < i && i < stop {
            expected.push(Step::StopTargetInPanic);
        }
        expected.push(Step::Panic);
        assert_eq!(steps, expected);
    }
}

#[test]
fn target_is_stopped_once() {
    let s = Status::Exited;
    for trouble in [
        None,
        Some((Step::StartPanel, Outcome::Panicked)),
        Some((Step::StopTarget(s), Outcome::Panicked)),
    ] {
        let steps = course(true, true, s, trouble);
        let stops: Vec<usize> = (0..steps.len())
            .filter(|i| matches!(steps[*i], Step::StopTarget(_) | Step::StopTargetInPanic))
            .collect();
        assert_eq!(stops, vec![steps.len() - 2]);
    }
}

#[test]
fn session_is_bounded_and_repeats_nothing() {
    for systemd_used in [false, true] {
        let steps = course(systemd_used, true, Status::Restarted, None);
        assert!(steps.len() <= 22 + COMPONENTS);
        for (i, a) in steps.iter().enumerate() {
            for b in &steps[i + 1..] {
                assert_ne!(a, b);
            }
        }
    }
}

#[test]
fn only_a_restart_request_restarts() {
    assert_eq!(on_wait(WaitEvent::Request(Some(SessionRequest::Exit))), Status::Exited);
    assert_eq!(on_wait(WaitEvent::Request(Some(SessionRequest::Restart))), Status::Restarted);
    assert_eq!(on_wait(WaitEvent::Request(None)), Status::Exited);
    assert_eq!(on_wait(WaitEvent::Signal(Some(15))), Status::Exited);
    assert_eq!(on_wait(WaitEvent::Signal(Some(2))), Status::Exited);
    assert_eq!(on_wait(WaitEvent::Signal(None)), Status::Exited);
}

#[test]
fn watched_signals_are_those_of_the_system() {
    assert_eq!(signals_to_watch(), vec![15, 2]);
}

#[test]
fn exited_session_is_the_last() {
    assert_eq!(after_session(Some(Status::Exited)), AfterSession::Leave);
    assert_eq!(after_session(Some(Status::Restarted)), AfterSession::StartAgain);
    assert_eq!(after_session(None), AfterSession::StartAgain);
}

#[test]
fn compositor_exit_decides_about_the_next_session() {
    for (code, after) in [
        (Some(0), AfterSession::Leave),
        (Some(1), AfterSession::StartAgain),
        (None, AfterSession::StartAgain),
    ] {
        let request = cosmic_session::comp::on_compositor_exit(code);
        assert_eq!(after_session(Some(on_wait(WaitEvent::Request(Some(request))))), after);
    }
}

#[test]
fn shutdown_takes_seconds() {
    assert_eq!(seconds_of(Step::AwaitSettingsExit(Status::Exited)), 1);
    assert_eq!(seconds_of(Step::Linger(Status::Restarted)), 2);
    assert_eq!(seconds_of(Step::Wait), 0);
}

#[test]
fn settings_daemon_exit_is_told_once() {
    let mut tx = Some("tx");
    assert_eq!(settings_daemon_exited(&mut tx, true), None);
    assert_eq!(tx, Some("tx"));
    assert_eq!(settings_daemon_exited(&mut tx, false), Some("tx"));
    assert_eq!(tx, None);
    assert_eq!(settings_daemon_exited(&mut tx, false), None);
}

#[test]
fn processes_restart_without_limit() {
    assert_eq!(
        restart_policy(),
        RestartPolicy { max_restarts: usize::MAX, backoff_millis: 10 }
    );
}

#[test]
fn compositor_comes_from_the_arguments() {
    assert_eq!(
        compositor_command(vec!["comp".to_string(), "-a".to_string(), "b".to_string()]),
        ("comp".to_string(), vec!["-a".to_string(), "b".to_string()])
    );
    assert_eq!(compositor_command(vec![]), ("cosmic-comp".to_string(), vec![]));
}

#[test]
fn session_type_is_exported() {
    let (var, command) = export_session_type();
    assert_eq!((var.key.as_str(), var.value.as_str()), ("XDG_SESSION_TYPE", "wayland"));
    assert_eq!(command.program, "systemctl");
    assert_eq!(command.args, vec!["--user", "set-environment", "XDG_SESSION_TYPE=wayland"]);
}

#[test]
fn processes_know_the_session_type() {
    let env = session_env(&[pair("A", "b")]);
    assert_eq!(env, vec![pair("A", "b"), pair("XDG_SESSION_TYPE", "wayland")]);
    let keys = FdKeys { panel: "P".to_string(), daemon: "D".to_string() };
    let (daemon, panel) = notifications_pair(&env, &keys, end(3), end(4));
    let (daemon, panel) = (daemon.process, panel.process);
    assert!(daemon.env_vars.contains(&pair("XDG_SESSION_TYPE", "wayland")));
    assert!(panel.env_vars.contains(&pair("XDG_SESSION_TYPE", "wayland")));
}

#[test]
fn notification_daemon_and_panel_know_each_other() {
    let keys = FdKeys { panel: "P".to_string(), daemon: "D".to_string() };
    let (daemon, panel) = notifications_pair(&[pair("A", "b")], &keys, end(3), end(4));
    assert_eq!(daemon.fds, vec!["fd4".to_string()]);
    assert_eq!(panel.fds, vec!["fd3".to_string()]);
    let (daemon, panel) = (daemon.process, panel.process);
    assert_eq!(daemon.cmd, "cosmic-notifications");
    assert_eq!(daemon.env_vars, vec![pair("A", "b"), pair("D", "4")]);
    assert_eq!(daemon.restart_cmd, "cosmic-panel");
    assert_eq!(daemon.restart_env_vars, vec![pair("A", "b"), pair("P", "3")]);
    assert_eq!(panel.cmd, "cosmic-panel");
    assert_eq!(panel.env_vars, vec![pair("A", "b"), pair("P", "3")]);
    assert_eq!(panel.restart_cmd, "cosmic-notifications");
    assert_eq!(panel.restart_env_vars, vec![pair("A", "b"), pair("D", "4")]);
}

#[test]
fn components_have_names() {
    let names: Vec<&str> = (0..COMPONENTS).map(component_name).collect();
    assert_eq!(
        names,
        vec![
            "cosmic-app-library",
            "cosmic-launcher",
            "cosmic-workspaces",
            "cosmic-osd",
            "cosmic-bg",
            "cosmic-greeter",
            "cosmic-files-applet",
            "cosmic-idle"
        ]
    );
}

#[test]
fn portal_belongs_to_this_desktop() {
    assert!(wants_portal(Some("COSMIC")));
    assert!(!wants_portal(Some("COSMIC:GNOME")));
    assert!(!wants_portal(Some("cosmic")));
    assert!(!wants_portal(None));
    assert_eq!(portal_path(None), "/usr/libexec/xdg-desktop-portal-cosmic");
    assert_eq!(portal_path(Some("/x".to_string())), "/x");
}

#[test]
fn portal_has_a_further_socket() {
    let extras = portal_extras(Some(PrivilegedSocket { fd: "fd", raw_fd: 12, stream: 'c' }));
    assert_eq!(extras, vec![("fd", pair("PORTAL_WAYLAND_SOCKET", "12"), 'c')]);
    assert_eq!(portal_extras::<u8, u8>(None), vec![]);
}

#[test]
fn settings_daemon_runs_plainly() {
    let launch = settings_daemon();
    assert_eq!(launch.executable, "cosmic-settings-daemon");
    assert!(launch.args.is_empty());
    assert!(launch.env_vars.is_empty());
}

#[test]
fn components_get_one_socket_each() {
    for i in 0..COMPONENTS {
        let own = PrivilegedSocket { fd: "fd", raw_fd: 5, stream: "stream" };
        let launch = session_component(i, &[pair("A", "b")], own);
        assert_eq!(launch.executable, component_name(i));
        assert_eq!(launch.env_vars, vec![pair("A", "b"), pair("WAYLAND_SOCKET", "5")]);
        assert_eq!(launch.fds, vec!["fd"]);
        assert_eq!(launch.sockets, vec!["stream"]);
        assert!(launch.extra_keys.is_empty());
    }
}

#[test]
fn portal_gets_two_sockets() {
    let own = || PrivilegedSocket { fd: "own", raw_fd: 5, stream: 'o' };
    let further = PrivilegedSocket { fd: "further", raw_fd: 6, stream: 'f' };
    let launch = portal_component(None, &[pair("A", "b")], own(), Some(further));
    assert_eq!(launch.executable, "/usr/libexec/xdg-desktop-portal-cosmic");
    assert_eq!(
        launch.env_vars,
        vec![pair("A", "b"), pair("WAYLAND_SOCKET", "5"), pair("PORTAL_WAYLAND_SOCKET", "6")]
    );
    assert_eq!(launch.fds, vec!["further", "own"]);
    assert_eq!(launch.sockets, vec!['o', 'f']);
    assert_eq!(launch.extra_keys, vec!["PORTAL_WAYLAND_SOCKET".to_string()]);
    let launch = portal_component(Some("/x".to_string()), &[], own(), None);
    assert_eq!(launch.executable, "/x");
    assert_eq!(launch.env_vars, vec![pair("WAYLAND_SOCKET", "5")]);
    assert_eq!(launch.fds, vec!["own"]);
    assert_eq!(launch.sockets, vec!['o']);
    assert!(launch.extra_keys.is_empty());
}
