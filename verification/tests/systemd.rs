use cosmic_session::systemd::{
    get_systemd_env, import_systemd_env, is_systemd_used, may_import, run_optional_command,
    scope_of_started, set_systemd_environment, spawn_scope, start_systemd_target,
    stop_systemd_target, systemd_directory, CommandOutcome, EnvVar,
};

fn pairs(env: &[EnvVar]) -> Vec<(&str, &str)> {
    env.iter().map(|v| (v.key.as_str(), v.value.as_str())).collect()
}

fn entries(list: &[&str]) -> Vec<String> {
    list.iter().map(|s| s.to_string()).collect()
}

#[test]
fn commands_of_the_service_manager() {
    let command = set_systemd_environment("A", "b=c");
    assert_eq!(command.program, "systemctl");
    assert_eq!(command.args, vec!["--user", "set-environment", "A=b=c"]);
    let command = start_systemd_target();
    assert_eq!(command.program, "systemctl");
    assert_eq!(command.args, vec!["--user", "start", "--no-block", "cosmic-session.target"]);
    let command = stop_systemd_target();
    assert_eq!(command.program, "systemctl");
    assert_eq!(command.args, vec!["--user", "stop", "--no-block", "cosmic-session.target"]);
}

#[test]
fn answer_about_systemd_is_kept() {
    assert_eq!(systemd_directory(), "/run/systemd/system");
    let mut known = None;
    assert!(is_systemd_used(&mut known, true));
    assert!(is_systemd_used(&mut known, false));
    let mut known = None;
    assert!(!is_systemd_used(&mut known, false));
    assert!(!is_systemd_used(&mut known, true));
}

#[test]
fn pair_becomes_a_variable() {
    let var: EnvVar = ("k", "v").into();
    assert_eq!((var.key.as_str(), var.value.as_str()), ("k", "v"));
}

#[test]
fn entries_are_read_at_the_first_equals_sign() {
    let env = get_systemd_env(&entries(&["A=b", "none", "C=d=e", "F=", "=g", ""]));
    assert_eq!(pairs(&env), vec![("A", "b"), ("C", "d=e"), ("F", ""), ("", "g")]);
}

#[test]
fn assignment_is_read_back() {
    let command = set_systemd_environment("KEY", "a=b");
    let env = get_systemd_env(&command.args[2..]);
    assert_eq!(pairs(&env), vec![("KEY", "a=b")]);
}

#[test]
fn session_variables_are_not_taken_over() {
    for key in [
        "XDG_SESSION_TYPE",
        "XDG_",
        "XDG_DATA_DIRS2",
        "DISPLAY",
        "XAUTHORITY",
        "WAYLAND_DISPLAY",
        "WAYLAND_SOCKET",
        "_",
        "SHELL",
        "SHLVL",
    ] {
        assert!(!may_import(key), "{}", key);
    }
    for key in ["XDG_DATA_DIRS", "XDG_CONFIG_DIRS", "PATH", "XDG", "DISPLAY2", "__", "shell", ""] {
        assert!(may_import(key), "{}", key);
    }
}

#[test]
fn import_takes_what_is_unset_once() {
    let env = get_systemd_env(&entries(&[
        "A=1", "B=2", "SHELL=sh", "A=3", "XDG_DATA_DIRS=d", "XDG_SEAT=s",
    ]));
    let taken = import_systemd_env(&env, &[false, true, false, false, false, false]);
    assert_eq!(pairs(&taken), vec![("A", "1"), ("XDG_DATA_DIRS", "d")]);
    let taken = import_systemd_env(&env, &[true; 6]);
    assert!(taken.is_empty());
}

#[test]
fn scope_has_the_name_of_the_command() {
    let scope = spawn_scope("/usr/bin/cosmic-osd".to_string(), vec![7, 8]);
    assert_eq!(scope.name, "cosmic-osd.scope");
    assert_eq!(scope.mode, "replace");
    assert_eq!(scope.properties, vec![("PIDs".to_string(), vec![7, 8])]);
    assert!(scope.aux.is_empty());
    assert_eq!(spawn_scope("cosmic-bg".to_string(), vec![]).name, "cosmic-bg.scope");
    assert_eq!(spawn_scope("a/b".to_string(), vec![]).name, "a/b.scope");
    assert_eq!(spawn_scope("/".to_string(), vec![]).name, ".scope");
}

#[test]
fn scope_needs_systemd_and_a_process_id() {
    let scope = scope_of_started(true, Some(("/usr/x".to_string(), Some(9)))).unwrap();
    assert_eq!(scope.name, "x.scope");
    assert_eq!(scope.mode, "replace");
    assert_eq!(scope.properties, vec![("PIDs".to_string(), vec![9])]);
    assert!(scope.aux.is_empty());
    assert!(scope_of_started(false, Some(("/usr/x".to_string(), Some(9)))).is_none());
    assert!(scope_of_started(true, Some(("/usr/x".to_string(), None))).is_none());
    assert!(scope_of_started(true, None).is_none());
}

#[test]
fn failed_commands_are_warned_of() {
    let command = start_systemd_target();
    let line = "systemctl --user start --no-block cosmic-session.target";
    assert_eq!(run_optional_command(&command, CommandOutcome::Ended(Some(0))), None);
    assert_eq!(
        run_optional_command(&command, CommandOutcome::Ended(Some(-3))),
        Some(format!("{}: exit code -3", line))
    );
    assert_eq!(
        run_optional_command(&command, CommandOutcome::Ended(None)),
        Some(format!("{}: terminated by signal", line))
    );
    assert_eq!(
        run_optional_command(&command, CommandOutcome::NotStarted("no such file".to_string())),
        Some(format!("unable to start {}: no such file", line))
    );
}
