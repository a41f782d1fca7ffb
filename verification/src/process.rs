//! Child processes: how one is launched, what it inherits and what it reports.

use vstd::prelude::*;

use crate::text::{decimal, decimal_string};

verus! {

/// A program to launch, with its arguments and the variables added to its environment.
#[derive(Debug)]
pub struct Launch {
    pub executable: String,
    pub args: Vec<String>,
    pub env_vars: Vec<(String, String)>,
}

/// `rustix::io::FdFlags::difference` with `FdFlags::CLOEXEC`: the flags of a file descriptor, given
/// and returned as bits, without the one that closes it on `exec`, which is the lowest bit.
#[verifier::external_body]
fn without_cloexec(flags: u32) -> (r: u32)
    ensures
        r == flags & !1u32,
{
    rustix::io::FdFlags::from_bits_retain(flags).difference(rustix::io::FdFlags::CLOEXEC).bits()
}

/// The flags, as bits, that leave a file descriptor open in a child process.
pub fn mark_as_not_cloexec(flags: u32) -> (r: u32)
    ensures
        r == flags & !1u32,
{
    without_cloexec(flags)
}

/// A marked descriptor stays open in a child process, no other flag changes, and to mark it again
/// changes nothing.
pub proof fn law_marking_clears_one_flag(flags: u32)
    ensures
        (flags & !1u32) & 1u32 == 0,
        (flags & !1u32) | (flags & 1u32) == flags,
        (flags & !1u32) & !1u32 == flags & !1u32,
{
    assert((flags & !1u32) & 1u32 == 0) by (bit_vector);
    assert((flags & !1u32) | (flags & 1u32) == flags) by (bit_vector);
    assert((flags & !1u32) & !1u32 == flags & !1u32) by (bit_vector);
}

/// What a child process reports.
#[derive(Debug)]
pub enum ProcessEvent {
    Started,
    Stdout(String),
    Stderr(String),
    /// It ended, with an exit status where there is one.
    Ended(Option<i32>),
}

/// How grave a log line is.
#[derive(Debug, Clone, Copy, PartialEq, Eq, Structural)]
pub enum Level {
    Info,
    Error,
}

/// A line for the log.
#[derive(Debug)]
pub struct LogLine {
    pub level: Level,
    pub text: String,
}

impl View for LogLine {
    type V = (Level, Seq<char>);

    open spec fn view(&self) -> (Level, Seq<char>) {
        (self.level, self.text@)
    }
}

/// The log line of an event.
pub open spec fn log_line(event: ProcessEvent) -> (Level, Seq<char>) {
    match event {
        ProcessEvent::Started => (Level::Info, "started"@),
        ProcessEvent::Stdout(line) => (Level::Info, line@),
        ProcessEvent::Stderr(line) => (Level::Error, line@),
        ProcessEvent::Ended(Some(status)) => (
            Level::Error,
            "exited with status "@ + decimal(status as int),
        ),
        ProcessEvent::Ended(None) => (Level::Error, "exited"@),
    }
}

/// The log line of an event, and whether the process is still to be listened to.
pub fn on_process_event(event: ProcessEvent) -> (r: (LogLine, bool))
    ensures
        r.0@ == log_line(event),
        r.1 == !(event is Ended),
{
    match event {
        ProcessEvent::Started => (LogLine { level: Level::Info, text: "started".to_owned() }, true),
        ProcessEvent::Stdout(line) => (LogLine { level: Level::Info, text: line }, true),
        ProcessEvent::Stderr(line) => (LogLine { level: Level::Error, text: line }, true),
        ProcessEvent::Ended(Some(status)) => {
            let mut text: String = "exited with status ".to_owned();
            text.append(decimal_string(status).as_str());
            (LogLine { level: Level::Error, text }, false)
        },
        ProcessEvent::Ended(None) => {
            (LogLine { level: Level::Error, text: "exited".to_owned() }, false)
        },
    }
}

/// The log lines of a process that reports `events`, where it is listened to as long as
/// `on_process_event` says.
pub open spec fn logged(events: Seq<ProcessEvent>) -> Seq<(Level, Seq<char>)>
    decreases events.len(),
{
    if events.len() == 0 {
        Seq::empty()
    } else {
        seq![log_line(events.first())] + if events.first() is Ended {
            Seq::empty()
        } else {
            logged(events.drop_first())
        }
    }
}

/// Every event is logged, in order, up to and including the first end of the process, and none
/// behind it. `end` is the index of the first end, or the number of events where there is none.
pub proof fn law_log_ends_with_the_process(events: Seq<ProcessEvent>, end: int)
    requires
        0 <= end <= events.len(),
        forall|i: int| 0 <= i < end ==> !(#[trigger] events[i] is Ended),
        end < events.len() ==> events[end] is Ended,
    ensures
        logged(events) == events.take(
            if end < events.len() {
                end + 1
            } else {
                end
            },
        ).map_values(|event: ProcessEvent| log_line(event)),
    decreases events.len(),
{
    let line = |event: ProcessEvent| log_line(event);
    if events.len() == 0 {
        assert(logged(events) =~= events.take(end).map_values(line));
    } else if end == 0 {
        assert(logged(events) =~= events.take(1).map_values(line));
    } else {
        let rest = events.drop_first();
        assert forall|i: int| 0 <= i < end - 1 implies !(#[trigger] rest[i] is Ended) by {
            assert(rest[i] == events[i + 1]);
        }
        law_log_ends_with_the_process(rest, end - 1);
        let n = if end < events.len() {
            end + 1
        } else {
            end
        };
        assert(events.take(n).map_values(line) =~= seq![line(events[0])] + rest.take(
            n - 1,
        ).map_values(line));
    }
}

/// What a process writes is logged as it was written, its output as information and its errors as
/// errors; its end is logged as an error, with the exit status where there is one.
pub proof fn law_output_is_logged_as_written(line: String, status: i32)
    ensures
        log_line(ProcessEvent::Started) == (Level::Info, "started"@),
        log_line(ProcessEvent::Stdout(line)) == (Level::Info, line@),
        log_line(ProcessEvent::Stderr(line)) == (Level::Error, line@),
        log_line(ProcessEvent::Ended(None)) == (Level::Error, "exited"@),
        log_line(ProcessEvent::Ended(Some(status))).0 == Level::Error,
        log_line(ProcessEvent::Ended(Some(status))).1 == "exited with status "@ + decimal(
            status as int,
        ),
{
}

/// An event is logged as it was written, and a process is listened to until it ends.
pub proof fn law_event_is_logged_and_listened_to(
    line: String,
    status: i32,
    out: (LogLine, bool),
    err: (LogLine, bool),
    ended: (LogLine, bool),
    killed: (LogLine, bool),
)
    requires
        call_ensures(on_process_event, (ProcessEvent::Stdout(line),), out),
        call_ensures(on_process_event, (ProcessEvent::Stderr(line),), err),
        call_ensures(on_process_event, (ProcessEvent::Ended(Some(status)),), ended),
        call_ensures(on_process_event, (ProcessEvent::Ended(None),), killed),
    ensures
        out.0.level == Level::Info && out.0.text@ == line@ && out.1,
        err.0.level == Level::Error && err.0.text@ == line@ && err.1,
        ended.0.level == Level::Error && ended.0.text@ == "exited with status "@ + decimal(
            status as int,
        ) && !ended.1,
        killed.0.level == Level::Error && killed.0.text@ == "exited"@ && !killed.1,
{
    law_output_is_logged_as_written(line, status);
}

/// The flags of a marked descriptor lack the lowest bit and keep every other.
pub proof fn law_marked_descriptor_stays_open(flags: u32, r: u32)
    requires
        call_ensures(mark_as_not_cloexec, (flags,), r),
    ensures
        r & 1u32 == 0,
        r | (flags & 1u32) == flags,
{
    law_marking_clears_one_flag(flags);
}

} // verus!
