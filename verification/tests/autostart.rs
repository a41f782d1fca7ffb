use cosmic_session::autostart::{
    command_parts, decide, directories_to_scan, program_launch, Autostart, AutostartEntry, Decision,
};

fn strings(list: &[&str]) -> Vec<String> {
    list.iter().map(|s| s.to_string()).collect()
}

fn bytes(list: &[&str]) -> Vec<Vec<u8>> {
    list.iter().map(|s| s.as_bytes().to_vec()).collect()
}

fn entry(appid: &str, command: &str) -> AutostartEntry {
    AutostartEntry {
        appid: appid.to_string(),
        only_show_in: None,
        not_show_in: None,
        command: Some(command.to_string()),
    }
}

fn launched(decision: Decision) -> (String, Vec<String>) {
    match decision {
        Decision::Launch { program, args } => (program, args),
        other => panic!("not launched: {:?}", other),
    }
}

#[test]
fn user_directory_is_scanned_first() {
    assert_eq!(
        directories_to_scan(
            Some(b"/home/u/.config".to_vec()),
            Some(b"/etc/xdg:/opt/xdg/::x".to_vec())
        ),
        bytes(&[
            "/home/u/.config/autostart",
            "/etc/xdg/autostart",
            "/opt/xdg/autostart",
            "autostart",
            "x/autostart"
        ])
    );
}

#[test]
fn system_directory_has_a_default() {
    assert_eq!(directories_to_scan(None, None), bytes(&["/etc/xdg/autostart"]));
    assert_eq!(
        directories_to_scan(Some(vec![255]), None),
        vec![
            [&[255u8][..], b"/autostart"].concat(),
            b"/etc/xdg/autostart".to_vec()
        ]
    );
}

#[test]
fn placeholders_are_left_out() {
    assert_eq!(
        command_parts("prog %U --flag %f x%y"),
        ("prog".to_string(), "--flag x%y".to_string())
    );
    assert_eq!(command_parts("prog"), ("prog".to_string(), String::new()));
    assert_eq!(command_parts(" prog"), (String::new(), "prog".to_string()));
    assert_eq!(command_parts(""), (String::new(), String::new()));
}

#[test]
fn ordinary_command_line_is_launched() {
    let autostart = Autostart::new();
    assert_eq!(
        launched(autostart.consider(&entry("a", "prog --x  y %F"))),
        ("prog".to_string(), strings(&["--x", "y"]))
    );
    assert_eq!(
        launched(autostart.consider(&entry("a", "prog"))),
        ("prog".to_string(), Vec::new())
    );
}

#[test]
fn quoted_arguments_are_one_word() {
    let autostart = Autostart::new();
    assert_eq!(
        launched(autostart.consider(&entry("a", "sh -c \"echo a b\" c\\ d"))),
        ("sh".to_string(), strings(&["-c", "echo a b", "c d"]))
    );
}

#[test]
fn open_quote_is_an_error() {
    let autostart = Autostart::new();
    assert!(matches!(
        autostart.consider(&entry("a", "prog 'open")),
        Decision::BadArguments
    ));
}

#[test]
fn decision_follows_the_split() {
    assert!(matches!(decide("p".to_string(), None), Decision::BadArguments));
    assert_eq!(
        launched(decide("p".to_string(), Some(strings(&["q"])))),
        ("p".to_string(), strings(&["q"]))
    );
}

#[test]
fn entries_of_other_desktops_are_skipped() {
    let autostart = Autostart::new();
    let mut e = entry("a", "prog");
    e.only_show_in = Some(strings(&["GNOME", "KDE"]));
    assert!(matches!(autostart.consider(&e), Decision::Skip));
    e.only_show_in = Some(strings(&["GNOME", "COSMIC"]));
    assert!(matches!(autostart.consider(&e), Decision::Launch { .. }));
    e.not_show_in = Some(strings(&["COSMIC"]));
    assert!(matches!(autostart.consider(&e), Decision::Skip));
    e.not_show_in = Some(strings(&["GNOME"]));
    assert!(matches!(autostart.consider(&e), Decision::Launch { .. }));
    e.only_show_in = Some(Vec::new());
    assert!(matches!(autostart.consider(&e), Decision::Skip));
    e.only_show_in = None;
    e.command = None;
    assert!(matches!(autostart.consider(&e), Decision::Skip));
}

#[test]
fn program_starts_once() {
    let mut autostart = Autostart::new();
    autostart.attempted("a".to_string(), false);
    assert_eq!(autostart.count(), 0);
    assert!(matches!(autostart.consider(&entry("a", "prog")), Decision::Launch { .. }));
    autostart.attempted("a".to_string(), true);
    autostart.attempted("a".to_string(), true);
    assert_eq!(autostart.count(), 1);
    assert!(matches!(autostart.consider(&entry("a", "other")), Decision::Skip));
    assert!(matches!(autostart.consider(&entry("b", "prog")), Decision::Launch { .. }));
}

#[test]
fn later_entries_of_a_started_program_are_not_tried() {
    let mut autostart = Autostart::new();
    let mut tried = Vec::new();
    for (id, command, success) in [
        ("a", "one", false),
        ("a", "two", true),
        ("b", "three", true),
        ("a", "four", true),
        ("b", "five", false),
        ("c", "six 'open", true),
    ] {
        if let Decision::Launch { program, .. } = autostart.consider(&entry(id, command)) {
            tried.push(program);
            autostart.attempted(id.to_string(), success);
        }
    }
    assert_eq!(tried, strings(&["one", "two", "three"]));
    assert_eq!(autostart.count(), 2);
}

#[test]
fn programs_get_the_session_environment() {
    let env = [("A".to_string(), "b".to_string())];
    let launch = program_launch("prog".to_string(), strings(&["-x"]), &env);
    assert_eq!(launch.executable, "prog");
    assert_eq!(launch.args, strings(&["-x"]));
    assert_eq!(launch.env_vars, env.to_vec());
}
