//! The screen reader: when it is started and stopped.

use vstd::prelude::*;

use crate::env::copy_env;
use crate::process::Launch;

verus! {

/// What has been reported of the setting that turns the screen reader on.
#[derive(Debug)]
pub struct Watch {
    enabled: bool,
}

/// What to do after a change of the setting was announced.
#[derive(Debug, Clone, Copy, PartialEq, Eq, Structural)]
pub enum WatchStep {
    /// Report the new value.
    Report(bool),
    /// Nothing is new.
    Ignore,
    /// The value could not be read: wait this long before the next change is looked at.
    Pause { seconds: u64 },
}

/// What an announced change asks for, where `enabled` was reported last, and the value that then
/// counts as reported.
pub open spec fn watch_step(enabled: bool, value: Option<bool>) -> (WatchStep, bool) {
    match value {
        Some(new) => (
            if new != enabled {
                WatchStep::Report(new)
            } else {
                WatchStep::Ignore
            },
            new,
        ),
        None => (WatchStep::Pause { seconds: 10 }, enabled),
    }
}

impl Watch {
    /// The value that was reported last, or that the setting is taken to have.
    pub closed spec fn enabled(self) -> bool {
        self.enabled
    }

    /// The start of the watch, with the setting's value where it could be read. The second part is
    /// the value to report.
    pub fn start(status: Option<bool>) -> (r: (Watch, Option<bool>))
        ensures
            r.0.enabled() == (status == Some(true)),
            r.1 == status,
    {
        match status {
            Some(enabled) => (Watch { enabled }, Some(enabled)),
            None => (Watch { enabled: false }, None),
        }
    }

    /// A change was announced; `value` is the setting's value where it could be read.
    pub fn changed(&mut self, value: Option<bool>) -> (r: WatchStep)
        ensures
            (r, final(self).enabled()) == watch_step(old(self).enabled(), value),
    {
        match value {
            Some(new) => {
                if self.enabled != new {
                    self.enabled = new;
                    WatchStep::Report(new)
                } else {
                    WatchStep::Ignore
                }
            },
            None => WatchStep::Pause { seconds: 10 },
        }
    }
}

/// The values that a watch reports for a list of announced changes, from `enabled` on.
pub open spec fn reports(enabled: bool, values: Seq<Option<bool>>) -> Seq<bool>
    decreases values.len(),
{
    if values.len() == 0 {
        Seq::empty()
    } else {
        let (step, now) = watch_step(enabled, values.first());
        let later = reports(now, values.drop_first());
        match step {
            WatchStep::Report(new) => seq![new] + later,
            _ => later,
        }
    }
}

/// Whatever changes are announced, each report differs from the one before it.
pub proof fn law_reports_alternate(enabled: bool, values: Seq<Option<bool>>, i: int)
    requires
        0 <= i < reports(enabled, values).len(),
    ensures
        reports(enabled, values)[i] != if i == 0 {
            enabled
        } else {
            reports(enabled, values)[i - 1]
        },
    decreases values.len(),
{
    if values.len() > 0 {
        let rest = values.drop_first();
        match values.first() {
            Some(new) => {
                if new != enabled {
                    if i > 0 {
                        law_reports_alternate(new, rest, i - 1);
                        assert(reports(enabled, values)[i] == reports(new, rest)[i - 1]);
                        if i > 1 {
                            assert(reports(enabled, values)[i - 1] == reports(new, rest)[i - 2]);
                        }
                    }
                } else {
                    law_reports_alternate(enabled, rest, i);
                }
            },
            None => {
                law_reports_alternate(enabled, rest, i);
            },
        }
    }
}

/// The screen reader's process, where `K` identifies a running process.
pub struct ScreenReader<K> {
    process_key: Option<K>,
}

/// What to do with the screen reader's process.
#[derive(Debug, PartialEq, Eq, Structural)]
pub enum ReaderStep<K> {
    Start,
    Stop(K),
    Nothing,
}

/// What a report of the setting asks for, where `process` runs, and the process that is then
/// remembered.
pub open spec fn reader_step<K>(process: Option<K>, enabled: bool) -> (ReaderStep<K>, Option<K>) {
    match (enabled, process) {
        (true, None) => (ReaderStep::Start, None),
        (true, Some(k)) => (ReaderStep::Nothing, Some(k)),
        (false, Some(k)) => (ReaderStep::Stop(k), None),
        (false, None) => (ReaderStep::Nothing, None),
    }
}

/// The process that is remembered after an attempt to start one.
pub open spec fn reader_after_start<K>(process: Option<K>, key: Option<K>) -> Option<K> {
    if key is Some {
        key
    } else {
        process
    }
}

/// A second screen reader is never started while one is remembered, only the remembered one is
/// stopped, and, where every start succeeds, one is remembered exactly while the setting is on.
pub proof fn law_screen_reader_follows_setting<K>(process: Option<K>, enabled: bool, key: K)
    ensures
        ({
            let (step, kept) = reader_step(process, enabled);
            let now = if step == ReaderStep::<K>::Start {
                reader_after_start(kept, Some(key))
            } else {
                kept
            };
            &&& step == ReaderStep::<K>::Start ==> process is None
            &&& step matches ReaderStep::Stop(k) ==> process == Some(k)
            &&& now is Some <==> enabled
        }),
{
}

/// A report of the setting, with what came of the attempt to start the screen reader where the
/// report asks for one.
pub type Report<K> = (bool, Option<K>);

/// A screen reader that was started, or that was told to stop.
pub enum ReaderAct<K> {
    Started(K),
    Stopped(K),
}

/// What a list of reports makes of the screen reader, where `process` runs before them: the acts,
/// in order, and the process that is then remembered.
pub open spec fn reader_course<K>(process: Option<K>, reports: Seq<Report<K>>) -> (
    Seq<ReaderAct<K>>,
    Option<K>,
)
    decreases reports.len(),
{
    if reports.len() == 0 {
        (Seq::empty(), process)
    } else {
        let (enabled, key) = reports.first();
        let (step, kept) = reader_step(process, enabled);
        let (acts, now) = match step {
            ReaderStep::Start => (
                match key {
                    Some(k) => seq![ReaderAct::Started(k)],
                    None => Seq::empty(),
                },
                reader_after_start(kept, key),
            ),
            ReaderStep::Stop(k) => (seq![ReaderAct::Stopped(k)], kept),
            ReaderStep::Nothing => (Seq::empty(), kept),
        };
        let (later, end) = reader_course(now, reports.drop_first());
        (acts + later, end)
    }
}

/// The process that is remembered after acts.
pub open spec fn remembered<K>(process: Option<K>, acts: Seq<ReaderAct<K>>) -> Option<K> {
    if acts.len() == 0 {
        process
    } else {
        match acts.last() {
            ReaderAct::Started(k) => Some(k),
            ReaderAct::Stopped(_) => None,
        }
    }
}

/// Whatever is reported, starts and stops alternate: a screen reader is started only where none is
/// remembered from the acts before, each stop is of the one that was started last, and the one that
/// was started last is remembered until it is stopped.
pub proof fn law_starts_and_stops_alternate<K>(
    process: Option<K>,
    reports: Seq<Report<K>>,
    i: int,
)
    ensures
        ({
            let (acts, end) = reader_course(process, reports);
            &&& end == remembered(process, acts)
            &&& 0 <= i < acts.len() ==> match acts[i] {
                ReaderAct::Started(_) => remembered(process, acts.take(i)) is None,
                ReaderAct::Stopped(k) => remembered(process, acts.take(i)) == Some(k),
            }
        }),
    decreases reports.len(),
{
    if reports.len() > 0 {
        let (enabled, key) = reports.first();
        let (step, kept) = reader_step(process, enabled);
        let rest = reports.drop_first();
        let acts = reader_course(process, reports).0;
        if step == ReaderStep::<K>::Nothing || (step == ReaderStep::<K>::Start && key is None) {
            law_starts_and_stops_alternate(process, rest, i);
            assert(acts =~= reader_course(process, rest).0);
        } else {
            let now = if step == ReaderStep::<K>::Start {
                key
            } else {
                None
            };
            law_starts_and_stops_alternate(now, rest, i - 1);
            let later = reader_course(now, rest).0;
            assert(acts.drop_first() =~= later);
            if 1 <= i < acts.len() {
                assert(acts[i] == later[i - 1]);
                assert(acts.take(i).drop_first() =~= later.take(i - 1));
                if i > 1 {
                    assert(acts.take(i).last() == later.take(i - 1).last());
                }
            }
            if later.len() > 0 {
                assert(acts.last() == later.last());
            }
        }
    }
}

impl<K> ScreenReader<K> {
    /// The running process.
    pub closed spec fn process(self) -> Option<K> {
        self.process_key
    }

    /// No process runs at first.
    pub fn new() -> (r: Self)
        ensures
            r.process() is None,
    {
        ScreenReader { process_key: None }
    }

    /// The setting was reported: starts the screen reader where it is on and none runs, and stops
    /// the one that runs where it is off. A process that is to be stopped is forgotten.
    pub fn start_a11y(&mut self, enabled: bool) -> (r: ReaderStep<K>)
        ensures
            (r, final(self).process()) == reader_step(old(self).process(), enabled),
    {
        if enabled && self.process_key.is_none() {
            ReaderStep::Start
        } else if !enabled && self.process_key.is_some() {
            match self.process_key.take() {
                Some(k) => ReaderStep::Stop(k),
                None => ReaderStep::Nothing,
            }
        } else {
            ReaderStep::Nothing
        }
    }

    /// The screen reader was started, or failed to start.
    pub fn started(&mut self, key: Option<K>)
        ensures
            final(self).process() == reader_after_start(old(self).process(), key),
    {
        if let Some(k) = key {
            self.process_key = Some(k);
        }
    }
}

/// How the screen reader is launched; `orca` is its path where one was configured.
pub fn screen_reader(orca: Option<String>, env_vars: &[(String, String)]) -> (r: Launch)
    ensures
        r.executable@ == match orca {
            Some(path) => path@,
            None => "/usr/bin/orca"@,
        },
        r.args@.len() == 0,
        r.env_vars.deep_view() == env_vars.deep_view(),
{
    let executable: String = match orca {
        Some(path) => path,
        None => "/usr/bin/orca".to_owned(),
    };
    Launch { executable, args: Vec::new(), env_vars: copy_env(env_vars) }
}

/// A value is reported where it is new; one that cannot be read is not taken for a change, and the
/// watch then rests.
pub proof fn law_new_values_are_reported(enabled: bool, new: bool)
    ensures
        watch_step(enabled, Some(new)).1 == new,
        watch_step(enabled, Some(new)).0 == WatchStep::Report(new) <==> new != enabled,
        watch_step(enabled, Some(new)).0 == WatchStep::Ignore <==> new == enabled,
        watch_step(enabled, None) == (WatchStep::Pause { seconds: 10 }, enabled),
{
}

/// Whatever changes are announced, what was reported last is the value that was read last: no
/// change is lost. `k` is the last change whose value could be read.
pub proof fn law_last_report_is_the_setting(enabled: bool, values: Seq<Option<bool>>, k: int)
    requires
        0 <= k < values.len(),
        values[k] is Some,
        forall|i: int| k < i < values.len() ==> (#[trigger] values[i]) is None,
    ensures
        (seq![enabled] + reports(enabled, values)).last() == values[k]->0,
    decreases values.len(),
{
    let rest = values.drop_first();
    let now = watch_step(enabled, values.first()).1;
    let all = seq![enabled] + reports(enabled, values);
    if k == 0 {
        assert forall|i: int| 0 <= i < rest.len() implies (#[trigger] rest[i]) is None by {
            assert(rest[i] == values[i + 1]);
        }
        lemma_nothing_read(now, rest);
        assert(seq![enabled].last() == enabled);
    } else {
        assert forall|i: int| k - 1 < i < rest.len() implies (#[trigger] rest[i]) is None by {
            assert(rest[i] == values[i + 1]);
        }
        assert(rest[k - 1] == values[k]);
        law_last_report_is_the_setting(now, rest, k - 1);
        let later = seq![now] + reports(now, rest);
        if reports(now, rest).len() > 0 {
            assert(later.last() == reports(now, rest).last());
            assert(all.last() == reports(now, rest).last());
        } else {
            assert(later.last() == now);
            assert(all.last() == now);
        }
    }
}

proof fn lemma_nothing_read(enabled: bool, values: Seq<Option<bool>>)
    requires
        forall|i: int| 0 <= i < values.len() ==> (#[trigger] values[i]) is None,
    ensures
        reports(enabled, values).len() == 0,
    decreases values.len(),
{
    if values.len() > 0 {
        let rest = values.drop_first();
        assert forall|i: int| 0 <= i < rest.len() implies (#[trigger] rest[i]) is None by {
            assert(rest[i] == values[i + 1]);
        }
        assert(values[0] is None);
        lemma_nothing_read(enabled, rest);
    }
}

/// The screen reader runs without arguments in the session's environment, from the configured path
/// where there is one.
pub proof fn law_screen_reader_has_the_session_environment(
    path: String,
    env_vars: &[(String, String)],
    configured: Launch,
    usual: Launch,
)
    requires
        call_ensures(screen_reader, (Some(path), env_vars), configured),
        call_ensures(screen_reader, (None::<String>, env_vars), usual),
    ensures
        configured.executable@ == path@,
        usual.executable@ == "/usr/bin/orca"@,
        configured.args@.len() == 0,
        usual.args@.len() == 0,
        configured.env_vars.deep_view() == env_vars.deep_view(),
        usual.env_vars.deep_view() == env_vars.deep_view(),
{
}

/// The watch begins with what could be read of the setting, and reports it.
pub proof fn law_watch_begins_with_the_setting(status: bool, known: (Watch, Option<bool>), unknown: (
    Watch,
    Option<bool>,
))
    requires
        call_ensures(Watch::start, (Some(status),), known),
        call_ensures(Watch::start, (None::<bool>,), unknown),
    ensures
        known.0.enabled() == status,
        known.1 == Some(status),
        !unknown.0.enabled(),
        unknown.1 is None,
{
}

} // verus!
