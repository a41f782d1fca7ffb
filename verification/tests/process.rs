use cosmic_session::generic::run_executable;
use cosmic_session::panel::run_panel;
use cosmic_session::process::{mark_as_not_cloexec, on_process_event, Level, ProcessEvent};
use cosmic_session::service::{SessionRequest, SessionService};

#[test]
fn marking_clears_one_flag() {
    assert_eq!(mark_as_not_cloexec(0b11), 0b10);
    assert_eq!(mark_as_not_cloexec(1), 0);
    assert_eq!(mark_as_not_cloexec(0), 0);
    assert_eq!(mark_as_not_cloexec(u32::MAX), u32::MAX - 1);
    assert_eq!(mark_as_not_cloexec(mark_as_not_cloexec(0b101)), 0b100);
}

#[test]
fn events_are_logged() {
    for (event, level, text, listening) in [
        (ProcessEvent::Started, Level::Info, "started", true),
        (ProcessEvent::Stdout("out".to_string()), Level::Info, "out", true),
        (ProcessEvent::Stderr("err".to_string()), Level::Error, "err", true),
        (ProcessEvent::Ended(Some(3)), Level::Error, "exited with status 3", false),
        (ProcessEvent::Ended(None), Level::Error, "exited", false),
    ] {
        let (line, more) = on_process_event(event);
        assert_eq!(line.level, level);
        assert_eq!(line.text, text);
        assert_eq!(more, listening);
    }
}

#[test]
fn executable_runs_as_given() {
    let args = vec!["-a".to_string()];
    let env = vec![("K".to_string(), "v".to_string())];
    let (launch, fds) = run_executable("prog", args.clone(), env.clone(), vec![4, 5]);
    assert_eq!(launch.executable, "prog");
    assert_eq!(launch.args, args);
    assert_eq!(launch.env_vars, env);
    assert_eq!(fds, vec![4, 5]);
}

#[test]
fn panel_runs_on_its_socket() {
    let launch = run_panel("33".to_string());
    assert_eq!(launch.executable, "cosmic-panel");
    assert!(launch.args.is_empty());
    assert_eq!(launch.env_vars, vec![("WAYLAND_SOCKET".to_string(), "33".to_string())]);
}

#[test]
fn service_makes_requests() {
    let mut service = SessionService { session_tx: "tx" };
    assert_eq!(service.exit(), SessionRequest::Exit);
    assert_eq!(service.restart(), SessionRequest::Restart);
    assert_eq!(service.session_tx, "tx");
}

#[test]
fn log_ends_with_the_process() {
    let mut log = Vec::new();
    for event in [
        ProcessEvent::Started,
        ProcessEvent::Stderr("e".to_string()),
        ProcessEvent::Ended(Some(1)),
        ProcessEvent::Stdout("late".to_string()),
    ] {
        let (line, more) = on_process_event(event);
        log.push(line.text);
        if !more {
            break;
        }
    }
    assert_eq!(log, vec!["started", "e", "exited with status 1"]);
}
