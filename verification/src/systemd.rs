//! The user's service manager: its environment, its target for the session and its scopes.

use vstd::prelude::*;

use crate::env::{has_key, Pair};
use crate::text::{
    after_last, cut_first, decimal, decimal_string, join, joined,
    law_tail_is_behind_the_last_separator, lemma_after_last_lacks, lemma_position,
    lemma_position_is, same, split_first, starts_with, tail_after_last,
};

verus! {

/// An environment variable.
#[derive(Debug)]
pub struct EnvVar {
    pub key: String,
    pub value: String,
}

impl View for EnvVar {
    type V = Pair;

    open spec fn view(&self) -> Pair {
        (self.key@, self.value@)
    }
}

impl DeepView for EnvVar {
    type V = Pair;

    open spec fn deep_view(&self) -> Pair {
        self@
    }
}

impl<'a> From<(&'a str, &'a str)> for EnvVar {
    fn from(pair: (&'a str, &'a str)) -> (r: EnvVar)
        ensures
            r@ == (pair.0@, pair.1@),
    {
        EnvVar { key: pair.0.to_owned(), value: pair.1.to_owned() }
    }
}

impl<'a> vstd::std_specs::convert::FromSpecImpl<(&'a str, &'a str)> for EnvVar {
    open spec fn obeys_from_spec() -> bool {
        false
    }

    open spec fn from_spec(pair: (&'a str, &'a str)) -> EnvVar {
        arbitrary()
    }
}

/// A command with its arguments.
#[derive(Debug)]
pub struct CommandLine {
    pub program: String,
    pub args: Vec<String>,
}

impl View for CommandLine {
    type V = (Seq<char>, Seq<Seq<char>>);

    open spec fn view(&self) -> (Seq<char>, Seq<Seq<char>>) {
        (self.program@, self.args.deep_view())
    }
}

fn systemctl_user(verb: &str, first: &str) -> (r: CommandLine)
    ensures
        r@ == ("systemctl"@, seq!["--user"@, verb@, first@]),
{
    let mut args: Vec<String> = Vec::new();
    args.push("--user".to_owned());
    args.push(verb.to_owned());
    args.push(first.to_owned());
    assert(args.deep_view() =~= seq!["--user"@, verb@, first@]);
    CommandLine { program: "systemctl".to_owned(), args }
}

fn session_target(verb: &str) -> (r: CommandLine)
    ensures
        r@ == ("systemctl"@, seq!["--user"@, verb@, "--no-block"@, "cosmic-session.target"@]),
{
    let mut command = systemctl_user(verb, "--no-block");
    let ghost before = command.args.deep_view();
    command.args.push("cosmic-session.target".to_owned());
    assert(command.args.deep_view() =~= before.push("cosmic-session.target"@));
    assert(before.push("cosmic-session.target"@) =~= seq![
        "--user"@,
        verb@,
        "--no-block"@,
        "cosmic-session.target"@,
    ]);
    command
}

/// The command that gives a variable to the services of the user.
pub fn set_systemd_environment(key: &str, value: &str) -> (r: CommandLine)
    ensures
        r@ == ("systemctl"@, seq!["--user"@, "set-environment"@, key@ + "="@ + value@]),
{
    let mut assignment: String = key.to_owned();
    assignment.append("=");
    assignment.append(value);
    systemctl_user("set-environment", assignment.as_str())
}

/// The command that starts the target of the session.
pub fn start_systemd_target() -> (r: CommandLine)
    ensures
        r@ == ("systemctl"@, seq!["--user"@, "start"@, "--no-block"@, "cosmic-session.target"@]),
{
    session_target("start")
}

/// The command that stops the target of the session.
pub fn stop_systemd_target() -> (r: CommandLine)
    ensures
        r@ == ("systemctl"@, seq!["--user"@, "stop"@, "--no-block"@, "cosmic-session.target"@]),
{
    session_target("stop")
}

/// The directory that exists where systemd is the init system.
pub fn systemd_directory() -> (r: &'static str)
    ensures
        r@ == "/run/systemd/system"@,
{
    "/run/systemd/system"
}

/// The answer where `known` is what was answered before and `exists` what a look at the directory
/// of systemd gives.
pub open spec fn systemd_answer(known: Option<bool>, exists: bool) -> bool {
    match known {
        Some(answer) => answer,
        None => exists,
    }
}

/// The answer does not change, whatever later becomes of the directory.
pub proof fn law_systemd_answer_is_kept(known: Option<bool>, first: bool, later: bool)
    ensures
        systemd_answer(Some(systemd_answer(known, first)), later) == systemd_answer(known, first),
{
}

/// Whether systemd is the init system. `known` holds the answer once there is one; the first call
/// takes it from `exists`, which says whether the directory of systemd exists.
pub fn is_systemd_used(known: &mut Option<bool>, exists: bool) -> (r: bool)
    ensures
        r == systemd_answer(*old(known), exists),
        *final(known) == Some(r),
{
    match *known {
        Some(answer) => answer,
        None => {
            *known = Some(exists);
            exists
        },
    }
}

/// The variables that the service manager's `KEY=value` entries give; an entry without `=` gives
/// none.
pub open spec fn parsed_env(entries: Seq<Seq<char>>) -> Seq<Pair>
    decreases entries.len(),
{
    if entries.len() == 0 {
        Seq::empty()
    } else {
        let before = parsed_env(entries.drop_last());
        match split_first(entries.last(), '=') {
            Some(pair) => before.push(pair),
            None => before,
        }
    }
}

/// The assignment that gives a variable to the service manager is an entry that gives this
/// variable back, where the key holds no `=`.
pub proof fn law_assignment_is_read_back(key: Seq<char>, value: Seq<char>)
    requires
        !key.contains('='),
    ensures
        parsed_env(seq![key + "="@ + value]) == seq![(key, value)],
{
    reveal_strlit("=");
    reveal_with_fuel(parsed_env, 2);
    let entry = key + "="@ + value;
    lemma_position_is(entry, '=', key.len() as int);
    assert(entry.take(key.len() as int) =~= key);
    assert(entry.skip(key.len() as int + 1) =~= value);
    assert(seq![entry].drop_last() =~= Seq::<Seq<char>>::empty());
    assert(parsed_env(seq![entry]) =~= seq![(key, value)]);
}

/// No key that is read holds an `=`.
pub proof fn law_keys_hold_no_equals_sign(entries: Seq<Seq<char>>, i: int)
    requires
        0 <= i < parsed_env(entries).len(),
    ensures
        !parsed_env(entries)[i].0.contains('='),
    decreases entries.len(),
{
    if entries.len() > 0 {
        let before = parsed_env(entries.drop_last());
        if i < before.len() {
            law_keys_hold_no_equals_sign(entries.drop_last(), i);
        } else {
            lemma_position(entries.last(), '=');
        }
    }
}

/// Reads the service manager's `KEY=value` entries.
pub fn get_systemd_env(entries: &[String]) -> (r: Vec<EnvVar>)
    ensures
        r.deep_view() == parsed_env(entries.deep_view()),
{
    let mut out: Vec<EnvVar> = Vec::new();
    let ghost all = entries.deep_view();
    let mut i: usize = 0;
    while i < entries.len()
        invariant
            i <= entries.len(),
            all == entries.deep_view(),
            out.deep_view() =~= parsed_env(all.take(i as int)),
        decreases entries.len() - i,
    {
        assert(all.take(i + 1).drop_last() =~= all.take(i as int));
        let ghost before = out.deep_view();
        if let Some(pair) = cut_first(entries[i].as_str(), '=') {
            out.push(EnvVar::from(pair));
            assert(out.deep_view() =~= before.push((pair.0@, pair.1@)));
        }
        i = i + 1;
    }
    assert(all.take(entries.len() as int) =~= all);
    out
}

/// Whether a variable of the service manager may be taken over: those that describe the seat and
/// the login are the session's own, apart from the two search paths.
pub open spec fn importable(key: Seq<char>) -> bool {
    &&& "XDG_"@.is_prefix_of(key) ==> key == "XDG_DATA_DIRS"@ || key == "XDG_CONFIG_DIRS"@
    &&& key != "DISPLAY"@
    &&& key != "XAUTHORITY"@
    &&& key != "WAYLAND_DISPLAY"@
    &&& key != "WAYLAND_SOCKET"@
    &&& key != "_"@
    &&& key != "SHELL"@
    &&& key != "SHLVL"@
}

/// The variables of `env` that are taken over, in order: those that may be, that were not set
/// before (`set` says so of each variable of `env`) and that no earlier variable has set.
pub open spec fn imported(env: Seq<Pair>, set: Seq<bool>) -> Seq<Pair>
    decreases env.len(),
{
    if env.len() == 0 {
        Seq::empty()
    } else {
        let before = imported(env.drop_last(), set.drop_last());
        if !set.last() && importable(env.last().0) && !has_key(before, env.last().0) {
            before.push(env.last())
        } else {
            before
        }
    }
}

/// Whether a variable with this key may be taken over from the service manager.
pub fn may_import(key: &str) -> (r: bool)
    ensures
        r == importable(key@),
{
    (!starts_with(key, "XDG_") || same(key, "XDG_DATA_DIRS") || same(key, "XDG_CONFIG_DIRS"))
        && !same(key, "DISPLAY") && !same(key, "XAUTHORITY") && !same(key, "WAYLAND_DISPLAY")
        && !same(key, "WAYLAND_SOCKET") && !same(key, "_") && !same(key, "SHELL") && !same(
        key,
        "SHLVL",
    )
}

fn has_env_var(env: &[EnvVar], key: &str) -> (r: bool)
    ensures
        r == has_key(env.deep_view(), key@),
{
    let ghost all = env.deep_view();
    let mut i: usize = 0;
    while i < env.len()
        invariant
            i <= env.len(),
            all == env.deep_view(),
            forall|j: int| 0 <= j < i ==> all[j].0 != key@,
        decreases env.len() - i,
    {
        assert(all[i as int].0 == env@[i as int].key@);
        if same(env[i].key.as_str(), key) {
            return true;
        }
        i = i + 1;
    }
    false
}

/// The variables to set in the session's own environment, given those of the service manager and,
/// for each of them, whether the session's environment had its key set beforehand.
pub fn import_systemd_env(env: &[EnvVar], set: &[bool]) -> (r: Vec<EnvVar>)
    requires
        env@.len() == set@.len(),
    ensures
        r.deep_view() == imported(env.deep_view(), set@),
{
    let ghost all = env.deep_view();
    let mut out: Vec<EnvVar> = Vec::new();
    let mut i: usize = 0;
    while i < env.len()
        invariant
            i <= env.len(),
            env@.len() == set@.len(),
            all == env.deep_view(),
            out.deep_view() =~= imported(all.take(i as int), set@.take(i as int)),
        decreases env.len() - i,
    {
        assert(all.take(i + 1).drop_last() =~= all.take(i as int));
        assert(set@.take(i + 1).drop_last() =~= set@.take(i as int));
        let ghost before = out.deep_view();
        if !set[i] && may_import(env[i].key.as_str()) && !has_env_var(
            out.as_slice(),
            env[i].key.as_str(),
        ) {
            out.push(EnvVar { key: env[i].key.clone(), value: env[i].value.clone() });
            assert(out.deep_view() =~= before.push(all[i as int]));
        }
        i = i + 1;
    }
    assert(all.take(env.len() as int) =~= all);
    assert(set@.take(env.len() as int) =~= set@);
    out
}

/// Every variable that is taken over is one of the service manager's, may be taken over, and was
/// not set before.
pub proof fn law_import_keeps_what_was_set(env: Seq<Pair>, set: Seq<bool>, k: int)
    requires
        env.len() == set.len(),
        0 <= k < imported(env, set).len(),
    ensures
        exists|i: int|
            0 <= i < env.len() && #[trigger] env[i] == imported(env, set)[k] && !set[i]
                && importable(env[i].0),
    decreases env.len(),
{
    if env.len() > 0 {
        let before = imported(env.drop_last(), set.drop_last());
        if k < before.len() {
            law_import_keeps_what_was_set(env.drop_last(), set.drop_last(), k);
            let i = choose|i: int|
                0 <= i < env.len() - 1 && #[trigger] env.drop_last()[i] == before[k]
                    && !set.drop_last()[i] && importable(env.drop_last()[i].0);
            assert(env[i] == imported(env, set)[k]);
        } else {
            assert(env[env.len() - 1] == imported(env, set)[k]);
        }
    }
}

/// No key is taken over twice.
pub proof fn law_import_sets_each_key_once(env: Seq<Pair>, set: Seq<bool>, j: int, k: int)
    requires
        env.len() == set.len(),
        0 <= j < k < imported(env, set).len(),
    ensures
        imported(env, set)[j].0 != imported(env, set)[k].0,
    decreases env.len(),
{
    if env.len() > 0 {
        let before = imported(env.drop_last(), set.drop_last());
        if k < before.len() {
            law_import_sets_each_key_once(env.drop_last(), set.drop_last(), j, k);
        } else {
            assert(before[j].0 == imported(env, set)[j].0);
        }
    }
}

/// Every key of the service manager that may be taken over and was not set before is taken over,
/// with the value of its first variable that was not set.
pub proof fn law_import_is_complete(env: Seq<Pair>, set: Seq<bool>, i: int)
    requires
        env.len() == set.len(),
        0 <= i < env.len(),
        !set[i],
        importable(env[i].0),
        forall|j: int| 0 <= j < i && !set[j] ==> (#[trigger] env[j]).0 != env[i].0,
    ensures
        imported(env, set).contains(env[i]),
    decreases env.len(),
{
    let before = imported(env.drop_last(), set.drop_last());
    let now = imported(env, set);
    if i < env.len() - 1 {
        assert forall|j: int| 0 <= j < i && !set.drop_last()[j] implies (
        #[trigger] env.drop_last()[j]).0 != env.drop_last()[i].0 by {
            assert(env.drop_last()[j] == env[j]);
        }
        law_import_is_complete(env.drop_last(), set.drop_last(), i);
        let k = before.index_of(env[i]);
        assert(now[k] == env[i]);
    } else {
        if has_key(before, env[i].0) {
            let k = choose|k: int| 0 <= k < before.len() && #[trigger] before[k].0 == env[i].0;
            law_import_keeps_what_was_set(env.drop_last(), set.drop_last(), k);
            let j = choose|j: int|
                0 <= j < env.len() - 1 && #[trigger] env.drop_last()[j] == before[k]
                    && !set.drop_last()[j] && importable(env.drop_last()[j].0);
            assert(env[j] == env.drop_last()[j]);
            assert(false);
        }
        assert(now[now.len() - 1] == env[i]);
    }
}

/// A property of a unit whose value is a list of numbers.
pub type Property = (String, Vec<u32>);

/// A request for a scope that holds running processes: the name of the unit, what to do about
/// another one of this name, the properties of the unit, and further units to start with it.
#[derive(Debug)]
pub struct ScopeRequest {
    pub name: String,
    pub mode: String,
    pub properties: Vec<Property>,
    pub aux: Vec<(String, Vec<Property>)>,
}

impl ScopeRequest {
    /// Whether this asks for a scope of `command` that holds the processes `pids` and nothing else.
    pub open spec fn is_scope_of(self, command: Seq<char>, pids: Seq<u32>) -> bool {
        &&& self.name@ == scope_name(command)
        &&& self.mode@ == "replace"@
        &&& self.properties.deep_view() == seq![("PIDs"@, pids)]
        &&& self.aux@.len() == 0
    }
}

/// The name of a command's scope: that of the command, or of the last component of its path where
/// it is absolute.
pub open spec fn scope_name(command: Seq<char>) -> Seq<char> {
    (if "/"@.is_prefix_of(command) {
        after_last(command, '/')
    } else {
        command
    }) + ".scope"@
}

/// The request that puts running processes into a scope of their own, in place of any other of
/// the same name.
pub fn spawn_scope(command: String, pids: Vec<u32>) -> (r: ScopeRequest)
    ensures
        r.is_scope_of(command@, pids@),
{
    let mut name: String = if starts_with(command.as_str(), "/") {
        tail_after_last(command.as_str(), '/').to_owned()
    } else {
        command
    };
    name.append(".scope");
    let mut properties: Vec<Property> = Vec::new();
    assert(pids.deep_view() =~= pids@);
    properties.push(("PIDs".to_owned(), pids));
    assert(properties.deep_view() =~= seq![("PIDs"@, pids@)]);
    ScopeRequest { name, mode: "replace".to_owned(), properties, aux: Vec::new() }
}

/// The scope for a process that has just started, where `exe_and_pid` is what is known of it: none
/// without systemd, nor without a process id.
pub fn scope_of_started(systemd_used: bool, exe_and_pid: Option<(String, Option<u32>)>) -> (r: Option<
    ScopeRequest,
>)
    ensures
        match (systemd_used, exe_and_pid) {
            (true, Some((exe, Some(pid)))) => {
                &&& r is Some
                &&& r->0.is_scope_of(exe@, seq![pid])
            },
            _ => r is None,
        },
{
    if systemd_used {
        if let Some((exe, Some(pid))) = exe_and_pid {
            let mut pids: Vec<u32> = Vec::new();
            pids.push(pid);
            assert(pids@ =~= seq![pid]);
            return Some(spawn_scope(exe, pids));
        }
    }
    None
}

/// The name of the scope of an absolute path holds no slash.
pub proof fn law_scope_of_absolute_path_has_no_slash(command: Seq<char>)
    requires
        "/"@.is_prefix_of(command),
    ensures
        !scope_name(command).contains('/'),
{
    reveal_strlit(".scope");
    lemma_after_last_lacks(command, '/');
    let tail = after_last(command, '/');
    assert forall|i: int| 0 <= i < scope_name(command).len() implies scope_name(command)[i]
        != '/' by {
        if i < tail.len() {
            assert(scope_name(command)[i] == tail[i]);
        } else {
            assert(scope_name(command)[i] == ".scope"@[i - tail.len()]);
        }
    }
}

/// How a command came out.
#[derive(Debug)]
pub enum CommandOutcome {
    /// It ran; `None` is an end by a signal.
    Ended(Option<i32>),
    /// It could not be started, for this reason.
    NotStarted(String),
}

/// A command as it stands in a warning: the program and its arguments with a space before each.
pub open spec fn shown(program: Seq<char>, args: Seq<Seq<char>>) -> Seq<char> {
    program + " "@ + joined(args, " "@)
}

/// What to warn of after a command whose failure is not fatal: nothing where it exited with zero.
pub fn run_optional_command(command: &CommandLine, outcome: CommandOutcome) -> (r: Option<String>)
    ensures
        match outcome {
            CommandOutcome::Ended(Some(code)) => if code == 0 {
                r is None
            } else {
                &&& r is Some
                &&& r->0@ == shown(command@.0, command@.1) + ": exit code "@ + decimal(code as int)
            },
            CommandOutcome::Ended(None) => {
                &&& r is Some
                &&& r->0@ == shown(command@.0, command@.1) + ": terminated by signal"@
            },
            CommandOutcome::NotStarted(error) => {
                &&& r is Some
                &&& r->0@ == "unable to start "@ + shown(command@.0, command@.1) + ": "@ + error@
            },
        },
{
    let mut line: String = command.program.clone();
    line.append(" ");
    line.append(join(command.args.as_slice(), " ").as_str());
    match outcome {
        CommandOutcome::Ended(Some(code)) => {
            if code == 0 {
                return None;
            }
            line.append(": exit code ");
            line.append(decimal_string(code).as_str());
            Some(line)
        },
        CommandOutcome::Ended(None) => {
            line.append(": terminated by signal");
            Some(line)
        },
        CommandOutcome::NotStarted(error) => {
            let mut warning: String = "unable to start ".to_owned();
            warning.append(line.as_str());
            warning.append(": ");
            warning.append(error.as_str());
            Some(warning)
        },
    }
}

/// The first answer about systemd is what the look at its directory gave.
pub proof fn law_first_answer_is_the_look(exists: bool)
    ensures
        systemd_answer(None, exists) == exists,
{
}

/// Entries are read one by one, in order, and one without an `=` gives nothing.
pub proof fn law_entries_are_read_one_by_one(
    a: Seq<Seq<char>>,
    b: Seq<Seq<char>>,
    entry: Seq<char>,
)
    ensures
        parsed_env(a + b) == parsed_env(a) + parsed_env(b),
        !entry.contains('=') ==> parsed_env(seq![entry]) == Seq::<Pair>::empty(),
    decreases b.len(),
{
    reveal_with_fuel(parsed_env, 2);
    lemma_position(entry, '=');
    assert(seq![entry].drop_last() =~= Seq::<Seq<char>>::empty());
    if b.len() == 0 {
        assert(a + b =~= a);
        assert(parsed_env(a) + parsed_env(b) =~= parsed_env(a));
    } else {
        law_entries_are_read_one_by_one(a, b.drop_last(), entry);
        assert((a + b).drop_last() =~= a + b.drop_last());
        assert(parsed_env(a + b) =~= parsed_env(a) + parsed_env(b));
    }
}

/// A variable may be taken over unless it describes the seat or the login: one whose key does not
/// begin with `XDG_` may be where it is none of seven, one whose key does may be where it is one of
/// the two search paths.
pub proof fn law_only_session_variables_are_refused(key: Seq<char>)
    ensures
        "XDG_"@.is_prefix_of(key) ==> (importable(key) <==> key == "XDG_DATA_DIRS"@ || key
            == "XDG_CONFIG_DIRS"@),
        !"XDG_"@.is_prefix_of(key) ==> (importable(key) <==> key != "DISPLAY"@ && key
            != "XAUTHORITY"@ && key != "WAYLAND_DISPLAY"@ && key != "WAYLAND_SOCKET"@ && key
            != "_"@ && key != "SHELL"@ && key != "SHLVL"@),
        importable("XDG_DATA_DIRS"@),
        importable("XDG_CONFIG_DIRS"@),
{
    reveal_strlit("XDG_");
    reveal_strlit("XDG_DATA_DIRS");
    reveal_strlit("XDG_CONFIG_DIRS");
    reveal_strlit("DISPLAY");
    reveal_strlit("XAUTHORITY");
    reveal_strlit("WAYLAND_DISPLAY");
    reveal_strlit("WAYLAND_SOCKET");
    reveal_strlit("_");
    reveal_strlit("SHELL");
    reveal_strlit("SHLVL");
    assert("XDG_DATA_DIRS"@.len() == 13);
    assert("XDG_CONFIG_DIRS"@.len() == 15);
    assert("XDG_CONFIG_DIRS"@[0] == 'X');
    assert("WAYLAND_DISPLAY"@[0] == 'W');
    if "XDG_"@.is_prefix_of(key) {
        assert(key[1] == "XDG_"@[1]);
        assert(key[0] == "XDG_"@[0]);
        assert("XAUTHORITY"@[1] == 'A');
        assert("DISPLAY"@[0] == 'D');
        assert("SHELL"@[0] == 'S');
        assert("SHLVL"@[0] == 'S');
        assert("WAYLAND_SOCKET"@[0] == 'W');
    }
}

/// Every variable that the service manager has, that is unset in the session, and that is none of
/// those that describe the seat or the login, is taken over with its value, where no earlier one has
/// its key.
pub proof fn law_unset_variables_are_taken_over(env: Seq<Pair>, set: Seq<bool>, i: int)
    requires
        env.len() == set.len(),
        0 <= i < env.len(),
        !set[i],
        !"XDG_"@.is_prefix_of(env[i].0) || env[i].0 == "XDG_DATA_DIRS"@ || env[i].0
            == "XDG_CONFIG_DIRS"@,
        env[i].0 != "DISPLAY"@,
        env[i].0 != "XAUTHORITY"@,
        env[i].0 != "WAYLAND_DISPLAY"@,
        env[i].0 != "WAYLAND_SOCKET"@,
        env[i].0 != "_"@,
        env[i].0 != "SHELL"@,
        env[i].0 != "SHLVL"@,
        forall|j: int| 0 <= j < i ==> (#[trigger] env[j]).0 != env[i].0,
    ensures
        imported(env, set).contains(env[i]),
{
    law_only_session_variables_are_refused(env[i].0);
    law_import_is_complete(env, set, i);
}

/// What is taken over stands in the order of the service manager: the variables at `places`, which
/// are those that may be taken over, were not set, and have no such variable with the same key
/// before them.
pub proof fn law_import_keeps_the_order(env: Seq<Pair>, set: Seq<bool>) -> (places: Seq<int>)
    requires
        env.len() == set.len(),
    ensures
        places.len() == imported(env, set).len(),
        forall|k: int|
            0 <= k < places.len() ==> 0 <= #[trigger] places[k] < env.len() && imported(env, set)[k]
                == env[places[k]],
        forall|j: int, k: int| 0 <= j < k < places.len() ==> places[j] < places[k],
        forall|i: int|
            0 <= i < env.len() ==> (places.contains(i) <==> !(#[trigger] set[i]) && importable(
                env[i].0,
            ) && forall|j: int| 0 <= j < i && !set[j] ==> (#[trigger] env[j]).0 != env[i].0),
    decreases env.len(),
{
    if env.len() == 0 {
        Seq::empty()
    } else {
        let n = env.len() - 1;
        let front = env.drop_last();
        let set_front = set.drop_last();
        let before = law_import_keeps_the_order(front, set_front);
        let old = imported(front, set_front);
        let taken = !set.last() && importable(env.last().0) && !has_key(old, env.last().0);
        let places = if taken {
            before.push(n)
        } else {
            before
        };
        assert forall|k: int| 0 <= k < places.len() implies 0 <= #[trigger] places[k] < env.len()
            && imported(env, set)[k] == env[places[k]] by {
            if k < before.len() {
                assert(places[k] == before[k]);
            }
        }
        assert forall|i: int| 0 <= i < env.len() implies (places.contains(i) <==> !(
        #[trigger] set[i]) && importable(env[i].0) && forall|j: int|
            0 <= j < i && !set[j] ==> (#[trigger] env[j]).0 != env[i].0) by {
            if i < n {
                assert(set_front[i] == set[i]);
                assert(front[i] == env[i]);
                if before.contains(i) {
                    assert(places[before.index_of(i)] == i);
                    assert forall|j: int| 0 <= j < i && !set[j] implies (#[trigger] env[j]).0
                        != env[i].0 by {
                        assert(front[j] == env[j]);
                    }
                }
                if places.contains(i) {
                    assert(before[places.index_of(i)] == i);
                }
                if forall|j: int| 0 <= j < i && !set[j] ==> (#[trigger] env[j]).0 != env[i].0 {
                    assert forall|j: int| 0 <= j < i && !set_front[j] implies (
                    #[trigger] front[j]).0 != front[i].0 by {
                        assert(front[j] == env[j]);
                    }
                }
            } else if !set[n] && importable(env[n].0) {
                if has_key(old, env[n].0) {
                    let k = choose|k: int| 0 <= k < old.len() && #[trigger] old[k].0 == env[n].0;
                    let j = before[k];
                    assert(before.contains(j));
                    assert(!set_front[j]);
                    assert(env[j] == front[j]);
                    assert(env[j].0 == env[n].0);
                } else {
                    assert(places[before.len() as int] == n);
                    assert forall|j: int| 0 <= j < n && !set[j] implies (#[trigger] env[j]).0
                        != env[n].0 by {
                        if env[j].0 == env[n].0 {
                            lemma_first_unset(front, set_front, j, env[n].0);
                        }
                    }
                }
                if places.contains(i) && !taken {
                    assert(before[places.index_of(i)] == i);
                }
            } else if places.contains(i) {
                assert(before[places.index_of(i)] == i);
            }
        }
        places
    }
}

proof fn lemma_first_unset(env: Seq<Pair>, set: Seq<bool>, i: int, key: Seq<char>)
    requires
        env.len() == set.len(),
        0 <= i < env.len(),
        !set[i],
        env[i].0 == key,
        importable(key),
    ensures
        has_key(imported(env, set), key),
    decreases i,
{
    if exists|j: int| 0 <= j < i && !set[j] && (#[trigger] env[j]).0 == key {
        let j = choose|j: int| 0 <= j < i && !set[j] && (#[trigger] env[j]).0 == key;
        lemma_first_unset(env, set, j, key);
    } else {
        law_import_is_complete(env, set, i);
        let k = imported(env, set).index_of(env[i]);
        assert(imported(env, set)[k].0 == key);
    }
}

/// A scope is named after its command: after the last component where the command is an absolute
/// path, else after the command as it is.
pub proof fn law_scope_is_named_after_its_command(
    dir: Seq<char>,
    name: Seq<char>,
    command: Seq<char>,
)
    requires
        dir.len() == 0 || dir[0] == '/',
        !name.contains('/'),
        command.len() == 0 || command[0] != '/',
    ensures
        scope_name(dir.push('/') + name) == name + ".scope"@,
        scope_name(command) == command + ".scope"@,
{
    reveal_strlit("/");
    let path = dir.push('/') + name;
    assert(path[0] == '/');
    assert("/"@.is_prefix_of(path));
    law_tail_is_behind_the_last_separator(dir, '/', name);
    if "/"@.is_prefix_of(command) {
        assert(command[0] == "/"@[0]);
    }
}

/// A request for a scope names it, replaces another of its name, hands over the processes, all of
/// them and in order, as its one property, and asks for no further unit.
pub proof fn law_scope_request_hands_over_the_processes(
    request: ScopeRequest,
    command: Seq<char>,
    pids: Seq<u32>,
)
    requires
        request.is_scope_of(command, pids),
    ensures
        request.name@ == scope_name(command),
        request.mode@ == "replace"@,
        request.properties@.len() == 1,
        request.properties@[0].0@ == "PIDs"@,
        request.properties@[0].1@ == pids,
        request.aux@.len() == 0,
{
    let all = request.properties.deep_view();
    assert(all.len() == request.properties@.len());
    assert(all[0] == (request.properties@[0].0@, request.properties@[0].1.deep_view()));
    assert(request.properties@[0].1.deep_view() =~= request.properties@[0].1@);
}

/// A command is shown as it would be typed: the program, and each argument behind a space.
pub proof fn law_command_is_shown_as_typed(
    program: Seq<char>,
    args: Seq<Seq<char>>,
    first: Seq<char>,
    last: Seq<char>,
)
    requires
        args.len() > 0,
    ensures
        shown(program, Seq::empty()) == program + " "@,
        shown(program, seq![first]) == program + " "@ + first,
        shown(program, args.push(last)) == shown(program, args) + " "@ + last,
{
    assert(args.push(last).drop_last() =~= args);
    assert(shown(program, Seq::empty()) =~= program + " "@);
    assert(shown(program, args.push(last)) =~= shown(program, args) + " "@ + last);
}

/// A variable is refused where it describes the seat or the login, and only there.
pub proof fn law_may_import_refuses_session_variables(key: &str, r: bool)
    requires
        call_ensures(may_import, (key,), r),
    ensures
        "XDG_"@.is_prefix_of(key@) ==> (r <==> key@ == "XDG_DATA_DIRS"@ || key@
            == "XDG_CONFIG_DIRS"@),
        !"XDG_"@.is_prefix_of(key@) ==> (r <==> key@ != "DISPLAY"@ && key@ != "XAUTHORITY"@ && key@
            != "WAYLAND_DISPLAY"@ && key@ != "WAYLAND_SOCKET"@ && key@ != "_"@ && key@ != "SHELL"@
            && key@ != "SHLVL"@),
{
    law_only_session_variables_are_refused(key@);
}

/// What the import sets: of each key that is unset and not refused, the first variable, with its
/// value, in the order of the service manager, and nothing else. It holds the variables at `places`.
pub proof fn law_import_sets_unset_variables(env: &[EnvVar], set: &[bool], r: Vec<EnvVar>) -> (places:
    Seq<int>)
    requires
        env@.len() == set@.len(),
        call_ensures(import_systemd_env, (env, set), r),
    ensures
        r@.len() == places.len(),
        forall|k: int|
            0 <= k < places.len() ==> 0 <= #[trigger] places[k] < env@.len() && r.deep_view()[k]
                == env.deep_view()[places[k]],
        forall|j: int, k: int| 0 <= j < k < places.len() ==> places[j] < places[k],
        forall|i: int|
            0 <= i < env@.len() ==> (places.contains(i) <==> {
                let key = env.deep_view()[i].0;
                &&& !(#[trigger] set@[i])
                &&& "XDG_"@.is_prefix_of(key) ==> key == "XDG_DATA_DIRS"@ || key
                    == "XDG_CONFIG_DIRS"@
                &&& key != "DISPLAY"@ && key != "XAUTHORITY"@ && key != "WAYLAND_DISPLAY"@
                &&& key != "WAYLAND_SOCKET"@ && key != "_"@ && key != "SHELL"@ && key != "SHLVL"@
                &&& forall|j: int|
                    0 <= j < i && !set@[j] ==> (#[trigger] env.deep_view()[j]).0 != key
            }),
{
    let all = env.deep_view();
    assert(all.len() == env@.len());
    assert(r.deep_view().len() == r@.len());
    let places = law_import_keeps_the_order(all, set@);
    assert forall|i: int| 0 <= i < env@.len() implies (places.contains(i) <==> {
        let key = env.deep_view()[i].0;
        &&& !(#[trigger] set@[i])
        &&& "XDG_"@.is_prefix_of(key) ==> key == "XDG_DATA_DIRS"@ || key == "XDG_CONFIG_DIRS"@
        &&& key != "DISPLAY"@ && key != "XAUTHORITY"@ && key != "WAYLAND_DISPLAY"@
        &&& key != "WAYLAND_SOCKET"@ && key != "_"@ && key != "SHELL"@ && key != "SHLVL"@
        &&& forall|j: int| 0 <= j < i && !set@[j] ==> (#[trigger] env.deep_view()[j]).0 != key
    }) by {
        law_only_session_variables_are_refused(all[i].0);
    }
    places
}

/// What is given to the service manager is read back from it: the last argument of the command that
/// sets a variable is an entry that gives this variable.
pub proof fn law_set_variable_is_read_back(
    key: &str,
    value: &str,
    command: CommandLine,
    entries: &[String],
    r: Vec<EnvVar>,
)
    requires
        !key@.contains('='),
        call_ensures(set_systemd_environment, (key, value), command),
        entries@ == seq![command.args@.last()],
        call_ensures(get_systemd_env, (entries,), r),
    ensures
        command.program@ == "systemctl"@,
        command.args.deep_view() == seq![
            "--user"@,
            "set-environment"@,
            key@ + "="@ + value@,
        ],
        r.deep_view() == seq![(key@, value@)],
{
    let args = command.args.deep_view();
    assert(args.len() == command.args@.len());
    assert(args[2] == command.args@[2]@);
    assert(entries.deep_view() =~= seq![args[2]]);
    law_assignment_is_read_back(key@, value@);
}

/// Entries are read one by one: those of two lists give what the one gives and then what the other
/// gives, an entry without `=` gives nothing, and another one gives what stands before and behind
/// its first `=`.
pub proof fn law_entries_give_their_variables(
    a: &[String],
    b: &[String],
    both: &[String],
    of_a: Vec<EnvVar>,
    of_b: Vec<EnvVar>,
    of_both: Vec<EnvVar>,
)
    requires
        both@ == a@ + b@,
        call_ensures(get_systemd_env, (a,), of_a),
        call_ensures(get_systemd_env, (b,), of_b),
        call_ensures(get_systemd_env, (both,), of_both),
    ensures
        of_both.deep_view() == of_a.deep_view() + of_b.deep_view(),
        a@.len() == 1 && !a@[0]@.contains('=') ==> of_a@.len() == 0,
        forall|key: Seq<char>, value: Seq<char>|
            a@.len() == 1 && !key.contains('=') && a@[0]@ == #[trigger] (key.push('=') + value)
                ==> of_a.deep_view() == seq![(key, value)],
{
    assert(both.deep_view() =~= a.deep_view() + b.deep_view());
    assert(of_a.deep_view().len() == of_a@.len());
    if a@.len() == 1 {
        assert(a.deep_view() =~= seq![a@[0]@]);
        law_entries_are_read_one_by_one(a.deep_view(), b.deep_view(), a@[0]@);
    } else {
        law_entries_are_read_one_by_one(a.deep_view(), b.deep_view(), Seq::empty());
    }
    reveal_strlit("=");
    assert forall|key: Seq<char>, value: Seq<char>|
        a@.len() == 1 && !key.contains('=') && a@[0]@ == #[trigger] (key.push('=')
            + value) implies of_a.deep_view() == seq![(key, value)] by {
        assert(key.push('=') + value =~= key + "="@ + value);
        law_assignment_is_read_back(key, value);
    }
}

/// A scope is asked for with the name of the command's last component where it is an absolute path,
/// and with all its processes; a process that has just started gets one under systemd where its id
/// is known, and only there.
pub proof fn law_started_process_gets_a_scope(
    dir: Seq<char>,
    name: Seq<char>,
    exe: String,
    pids: Vec<u32>,
    pid: Option<u32>,
    systemd_used: bool,
    scope: ScopeRequest,
    started: Option<ScopeRequest>,
)
    requires
        dir.len() == 0 || dir[0] == '/',
        !name.contains('/'),
        exe@ == dir.push('/') + name,
        call_ensures(spawn_scope, (exe, pids), scope),
        call_ensures(scope_of_started, (systemd_used, Some((exe, pid))), started),
    ensures
        scope.name@ == name + ".scope"@,
        scope.mode@ == "replace"@,
        scope.properties@.len() == 1,
        scope.properties@[0].0@ == "PIDs"@,
        scope.properties@[0].1@ == pids@,
        scope.aux@.len() == 0,
        started is Some <==> systemd_used && pid is Some,
        started is Some ==> {
            &&& started->0.name@ == name + ".scope"@
            &&& started->0.mode@ == "replace"@
            &&& started->0.properties@.len() == 1
            &&& started->0.properties@[0].0@ == "PIDs"@
            &&& started->0.properties@[0].1@ == seq![pid->0]
            &&& started->0.aux@.len() == 0
        },
{
    law_scope_is_named_after_its_command(dir, name, Seq::empty());
    law_scope_request_hands_over_the_processes(scope, exe@, pids@);
    if started is Some {
        law_scope_request_hands_over_the_processes(started->0, exe@, seq![pid->0]);
    }
}

/// A command whose name is no absolute path gives its whole name to its scope.
pub proof fn law_plain_command_names_its_scope(
    command: String,
    pids: Vec<u32>,
    scope: ScopeRequest,
)
    requires
        command@.len() == 0 || command@[0] != '/',
        call_ensures(spawn_scope, (command, pids), scope),
    ensures
        scope.name@ == command@ + ".scope"@,
{
    law_scope_is_named_after_its_command(Seq::empty(), Seq::empty(), command@);
}

/// The target is started and stopped by the same command but for its verb, and neither waits.
pub proof fn law_target_is_stopped_as_it_is_started(start: CommandLine, stop: CommandLine)
    requires
        call_ensures(start_systemd_target, (), start),
        call_ensures(stop_systemd_target, (), stop),
    ensures
        start.program@ == "systemctl"@,
        stop.program@ == start.program@,
        start.args.deep_view() == seq![
            "--user"@,
            "start"@,
            "--no-block"@,
            "cosmic-session.target"@,
        ],
        stop.args.deep_view() == start.args.deep_view().update(1, "stop"@),
{
    assert(stop.args.deep_view() =~= start.args.deep_view().update(1, "stop"@));
}

/// A command is warned of unless it ended with code zero, and the warning shows the command and what
/// came of it.
pub proof fn law_failed_command_is_warned_of(
    command: &CommandLine,
    code: i32,
    error: String,
    ended: Option<String>,
    killed: Option<String>,
    missing: Option<String>,
)
    requires
        call_ensures(run_optional_command, (command, CommandOutcome::Ended(Some(code))), ended),
        call_ensures(run_optional_command, (command, CommandOutcome::Ended(None)), killed),
        call_ensures(run_optional_command, (command, CommandOutcome::NotStarted(error)), missing),
    ensures
        ended is None <==> code == 0,
        killed is Some,
        missing is Some,
        ({
            let line = command.program@ + " "@ + joined(command.args.deep_view(), " "@);
            &&& code != 0 ==> ended->0@ == line + ": exit code "@ + decimal(code as int)
            &&& killed->0@ == line + ": terminated by signal"@
            &&& missing->0@ == "unable to start "@ + line + ": "@ + error@
        }),
{
}

} // verus!
