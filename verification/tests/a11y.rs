use cosmic_session::a11y::{screen_reader, ReaderStep, ScreenReader, Watch, WatchStep};

#[test]
fn watch_reports_only_changes() {
    let (mut watch, first) = Watch::start(Some(true));
    assert_eq!(first, Some(true));
    assert_eq!(watch.changed(Some(true)), WatchStep::Ignore);
    assert_eq!(watch.changed(Some(false)), WatchStep::Report(false));
    assert_eq!(watch.changed(None), WatchStep::Pause { seconds: 10 });
    assert_eq!(watch.changed(Some(false)), WatchStep::Ignore);
    assert_eq!(watch.changed(Some(true)), WatchStep::Report(true));
}

#[test]
fn unknown_setting_counts_as_off() {
    let (mut watch, first) = Watch::start(None);
    assert_eq!(first, None);
    assert_eq!(watch.changed(Some(false)), WatchStep::Ignore);
    assert_eq!(watch.changed(Some(true)), WatchStep::Report(true));
}

#[test]
fn screen_reader_runs_while_the_setting_is_on() {
    let mut reader = ScreenReader::new();
    assert_eq!(reader.start_a11y(false), ReaderStep::Nothing);
    assert_eq!(reader.start_a11y(true), ReaderStep::Start);
    reader.started(None);
    assert_eq!(reader.start_a11y(true), ReaderStep::Start);
    reader.started(Some(5));
    assert_eq!(reader.start_a11y(true), ReaderStep::Nothing);
    assert_eq!(reader.start_a11y(false), ReaderStep::Stop(5));
    assert_eq!(reader.start_a11y(false), ReaderStep::Nothing);
}

#[test]
fn screen_reader_is_orca_unless_configured() {
    let env = [("A".to_string(), "b".to_string())];
    let launch = screen_reader(None, &env);
    assert_eq!(launch.executable, "/usr/bin/orca");
    assert!(launch.args.is_empty());
    assert_eq!(launch.env_vars, env.to_vec());
    assert_eq!(screen_reader(Some("/opt/orca".to_string()), &[]).executable, "/opt/orca");
}

#[test]
fn starts_and_stops_alternate() {
    let mut reader = ScreenReader::new();
    let mut acts = Vec::new();
    let reports = [
        (false, None),
        (true, Some(1)),
        (true, Some(2)),
        (false, None),
        (true, None),
        (false, None),
        (true, Some(3)),
        (false, None),
    ];
    for (enabled, key) in reports {
        match reader.start_a11y(enabled) {
            ReaderStep::Start => {
                reader.started(key);
                acts.extend(key.map(|k| ("started", k)));
            }
            ReaderStep::Stop(k) => acts.push(("stopped", k)),
            ReaderStep::Nothing => {}
        }
    }
    assert_eq!(acts, vec![("started", 1), ("stopped", 1), ("started", 3), ("stopped", 3)]);
}
