//! The notification daemon and the panel: two processes that share a socket pair and restart
//! together.

use vstd::prelude::*;

use crate::env::{
    copy_env, drop_key, first_of, has_key, law_dropping_a_key_keeps_the_rest,
    law_first_of_two_keys_is_set, lemma_first_of, set_first_fd, with_first_set, without_key, Pair,
};
use crate::text::decimal;

verus! {

/// The keys of the variables that name the two ends of the socket pair.
pub struct FdKeys {
    pub panel: String,
    pub daemon: String,
}

/// One of the two processes, with what it takes to start the other one again. `env_vars` is the
/// environment that it is launched with.
pub struct NotificationsProcess {
    pub cmd: String,
    pub env_vars: Vec<(String, String)>,
    pub restart_cmd: String,
    pub restart_env_vars: Vec<(String, String)>,
}

/// One end of a socket pair: a file descriptor with its number.
pub struct SocketEnd<F> {
    pub fd: F,
    pub raw_fd: i32,
}

/// A process of the pair that is to be launched, with the file descriptors that it inherits.
pub struct NotificationsLaunch<F> {
    pub process: NotificationsProcess,
    pub fds: Vec<F>,
}

/// What follows the exit of a process of the pair: the environment and the file descriptors that it
/// restarts with, and the other process to start anew.
pub struct PairRestart<F> {
    pub env_vars: Vec<(String, String)>,
    pub fds: Vec<F>,
    pub partner: NotificationsLaunch<F>,
}

/// A process of the pair, as values.
pub struct ProcessView {
    pub cmd: Seq<char>,
    pub env_vars: Seq<Pair>,
    pub restart_cmd: Seq<char>,
    pub restart_env_vars: Seq<Pair>,
}

impl View for NotificationsProcess {
    type V = ProcessView;

    open spec fn view(&self) -> ProcessView {
        ProcessView {
            cmd: self.cmd@,
            env_vars: self.env_vars.deep_view(),
            restart_cmd: self.restart_cmd@,
            restart_env_vars: self.restart_env_vars.deep_view(),
        }
    }
}

/// A process whose environment is `env_vars` without any socket to the compositor.
pub open spec fn process_of(
    cmd: Seq<char>,
    env_vars: Seq<Pair>,
    restart_cmd: Seq<char>,
    restart_env_vars: Seq<Pair>,
) -> ProcessView {
    ProcessView {
        cmd,
        env_vars: without_key(env_vars, "WAYLAND_SOCKET"@),
        restart_cmd,
        restart_env_vars,
    }
}

/// The environment with the number of a new end of the socket pair.
pub open spec fn with_new_fd(env: Seq<Pair>, keys: (Seq<char>, Seq<char>), fd: int) -> Seq<Pair> {
    with_first_set(env, keys.0, keys.1, decimal(fd))
}

/// The environment that `p` restarts with, given the number of its new end of the socket pair.
pub open spec fn restarted_env(p: ProcessView, keys: (Seq<char>, Seq<char>), my_fd: int) -> Seq<
    Pair,
> {
    with_new_fd(p.env_vars, keys, my_fd)
}

/// The process that takes the place of the other one when `p` has exited.
pub open spec fn partner_of(
    p: ProcessView,
    keys: (Seq<char>, Seq<char>),
    my_fd: int,
    their_fd: int,
) -> ProcessView {
    process_of(
        p.restart_cmd,
        with_new_fd(p.restart_env_vars, keys, their_fd),
        p.cmd,
        restarted_env(p, keys, my_fd),
    )
}

/// One of the two processes, with its end of the socket pair. Neither keeps a socket to the
/// compositor that its environment names.
pub fn notifications_process<F>(
    cmd: String,
    env_vars: Vec<(String, String)>,
    fd: F,
    restart_cmd: String,
    restart_env_vars: Vec<(String, String)>,
) -> (r: NotificationsLaunch<F>)
    ensures
        r.process@ == process_of(
            cmd@,
            env_vars.deep_view(),
            restart_cmd@,
            restart_env_vars.deep_view(),
        ),
        r.fds@ == seq![fd],
{
    let mut fds: Vec<F> = Vec::new();
    fds.push(fd);
    let process = NotificationsProcess {
        cmd,
        env_vars: drop_key(env_vars, "WAYLAND_SOCKET"),
        restart_cmd,
        restart_env_vars,
    };
    NotificationsLaunch { process, fds }
}

/// What follows the exit of one of the two processes, with the two ends of a new socket pair: it
/// restarts with one of them, and the other process is started anew with the other.
pub fn on_exit<F>(
    p: &NotificationsProcess,
    keys: &FdKeys,
    mine: SocketEnd<F>,
    theirs: SocketEnd<F>,
) -> (r: PairRestart<F>)
    ensures
        r.env_vars.deep_view() == restarted_env(
            p@,
            (keys.panel@, keys.daemon@),
            mine.raw_fd as int,
        ),
        r.fds@ == seq![mine.fd],
        r.partner.process@ == partner_of(
            p@,
            (keys.panel@, keys.daemon@),
            mine.raw_fd as int,
            theirs.raw_fd as int,
        ),
        r.partner.fds@ == seq![theirs.fd],
{
    let my_env = set_first_fd(
        copy_env(p.env_vars.as_slice()),
        keys.panel.as_str(),
        keys.daemon.as_str(),
        mine.raw_fd,
    );
    let their_env = set_first_fd(
        copy_env(p.restart_env_vars.as_slice()),
        keys.panel.as_str(),
        keys.daemon.as_str(),
        theirs.raw_fd,
    );
    let partner = notifications_process(
        p.restart_cmd.clone(),
        their_env,
        theirs.fd,
        p.cmd.clone(),
        copy_env(my_env.as_slice()),
    );
    let mut fds: Vec<F> = Vec::new();
    fds.push(mine.fd);
    PairRestart { env_vars: my_env, fds, partner }
}

/// One act of restarting the pair, where `K` identifies a running process. That an act fails is of
/// no consequence for the next one.
#[derive(Debug, PartialEq, Eq, Structural)]
pub enum RestartAct<K> {
    /// Give the process that exited its new environment.
    UpdateEnv,
    /// Give the process that exited its new file descriptor.
    UpdateFds,
    /// See which process the other one is.
    FindPartner,
    /// Stop the other process.
    Stop(K),
    /// Start the other process anew.
    StartPartner,
    /// Log that there is no other process to stop.
    LogNoPartner,
    /// Nothing is left to do.
    Rest,
}

/// The act that follows another one, where `partner` is the other process as far as it is known.
pub open spec fn following_act<K>(act: RestartAct<K>, partner: Option<K>) -> RestartAct<K> {
    match act {
        RestartAct::UpdateEnv => RestartAct::UpdateFds,
        RestartAct::UpdateFds => RestartAct::FindPartner,
        RestartAct::FindPartner => match partner {
            Some(k) => RestartAct::Stop(k),
            None => RestartAct::LogNoPartner,
        },
        RestartAct::Stop(_) => RestartAct::StartPartner,
        RestartAct::StartPartner => RestartAct::Rest,
        RestartAct::LogNoPartner => RestartAct::Rest,
        RestartAct::Rest => RestartAct::Rest,
    }
}

/// The first act after the exit of one of the two processes: none is due where the process does
/// not restart.
pub fn first_act<K>(will_restart: bool) -> (r: RestartAct<K>)
    ensures
        r == if will_restart {
            RestartAct::<K>::UpdateEnv
        } else {
            RestartAct::Rest
        },
{
    if will_restart {
        RestartAct::UpdateEnv
    } else {
        RestartAct::Rest
    }
}

/// The act that follows another one, where `partner` is the other process as far as it is known.
pub fn next_act<K>(act: RestartAct<K>, partner: Option<K>) -> (r: RestartAct<K>)
    ensures
        r == following_act(act, partner),
{
    match act {
        RestartAct::UpdateEnv => RestartAct::UpdateFds,
        RestartAct::UpdateFds => RestartAct::FindPartner,
        RestartAct::FindPartner => match partner {
            Some(k) => RestartAct::Stop(k),
            None => RestartAct::LogNoPartner,
        },
        RestartAct::Stop(_) => RestartAct::StartPartner,
        RestartAct::StartPartner => RestartAct::Rest,
        RestartAct::LogNoPartner => RestartAct::Rest,
        RestartAct::Rest => RestartAct::Rest,
    }
}

/// The acts from one on to the end, where `partner` is found to be the other process.
pub open spec fn acts_from<K>(act: RestartAct<K>, partner: Option<K>, limit: nat) -> Seq<
    RestartAct<K>,
>
    decreases limit,
{
    if act == RestartAct::<K>::Rest || limit == 0 {
        Seq::empty()
    } else {
        seq![act] + acts_from(following_act(act, partner), partner, (limit - 1) as nat)
    }
}

/// A process that restarts is given its new end of the socket pair before the other process is
/// stopped, and the other process is started anew only once it was stopped; where there is no
/// other process, none is started. No more than five acts are due.
pub proof fn law_partner_restarts_last<K>(partner: Option<K>, limit: nat)
    requires
        limit >= 5,
    ensures
        acts_from(RestartAct::UpdateEnv, partner, limit) == seq![
            RestartAct::UpdateEnv,
            RestartAct::UpdateFds,
            RestartAct::FindPartner,
        ] + match partner {
            Some(k) => seq![RestartAct::Stop(k), RestartAct::StartPartner],
            None => seq![RestartAct::LogNoPartner],
        },
{
    reveal_with_fuel(acts_from, 7);
}

/// Remembers the other process once it has started; a failed start leaves what was known.
pub fn partner_started<K>(key: &mut Option<K>, started: Option<K>)
    ensures
        *final(key) == if started is Some {
            started
        } else {
            *old(key)
        },
{
    if let Some(new) = started {
        *key = Some(new);
    }
}

/// No process of the pair, first or restarted, has a socket to the compositor in its environment.
pub proof fn law_no_wayland_socket(
    cmd: Seq<char>,
    env_vars: Seq<Pair>,
    restart_cmd: Seq<char>,
    restart_env_vars: Seq<Pair>,
    keys: (Seq<char>, Seq<char>),
    my_fd: int,
    their_fd: int,
)
    ensures
        ({
            let p = process_of(cmd, env_vars, restart_cmd, restart_env_vars);
            &&& !has_key(p.env_vars, "WAYLAND_SOCKET"@)
            &&& !has_key(restarted_env(p, keys, my_fd), "WAYLAND_SOCKET"@)
            &&& !has_key(partner_of(p, keys, my_fd, their_fd).env_vars, "WAYLAND_SOCKET"@)
        }),
{
    let p = process_of(cmd, env_vars, restart_cmd, restart_env_vars);
    broadcast use vstd::seq_lib::group_filter_ensures;

    lemma_first_of(p.env_vars, keys.0, keys.1);
    assert forall|i: int|
        0 <= i < restarted_env(p, keys, my_fd).len() implies #[trigger] restarted_env(
        p,
        keys,
        my_fd,
    )[i].0 != "WAYLAND_SOCKET"@ by {
        assert(restarted_env(p, keys, my_fd)[i].0 == p.env_vars[i].0);
    }
}

/// A restart changes one variable of an environment and nothing else: the first that names an end
/// of the socket pair gets the number of the new end.
pub proof fn law_restart_changes_one_variable(
    env: Seq<Pair>,
    keys: (Seq<char>, Seq<char>),
    fd: int,
    i: int,
)
    requires
        0 <= i < env.len(),
    ensures
        with_new_fd(env, keys, fd).len() == env.len(),
        with_new_fd(env, keys, fd)[i].0 == env[i].0,
        with_new_fd(env, keys, fd)[i].1 == if i == first_of(env, keys.0, keys.1) {
            decimal(fd)
        } else {
            env[i].1
        },
{
    lemma_first_of(env, keys.0, keys.1);
}

/// The process that is started anew restarts the one that exited: the two keep each other's
/// command, and the new process holds the environment that the other one restarts with.
pub proof fn law_pair_stays_a_pair(
    p: ProcessView,
    keys: (Seq<char>, Seq<char>),
    my_fd: int,
    their_fd: int,
)
    ensures
        partner_of(p, keys, my_fd, their_fd).cmd == p.restart_cmd,
        partner_of(p, keys, my_fd, their_fd).restart_cmd == p.cmd,
        partner_of(p, keys, my_fd, their_fd).restart_env_vars == restarted_env(p, keys, my_fd),
{
}

/// A process of the pair is launched with every variable that it is given but a socket to the
/// compositor: its environment holds the variables at `places`, in their order and with their
/// values, and these are all the variables whose key is another one. The other parts are as given.
pub proof fn law_process_keeps_its_environment(
    cmd: Seq<char>,
    env_vars: Seq<Pair>,
    restart_cmd: Seq<char>,
    restart_env_vars: Seq<Pair>,
) -> (places: Seq<int>)
    ensures
        ({
            let p = process_of(cmd, env_vars, restart_cmd, restart_env_vars);
            &&& p.cmd == cmd
            &&& p.restart_cmd == restart_cmd
            &&& p.restart_env_vars == restart_env_vars
            &&& p.env_vars.len() == places.len()
            &&& forall|k: int|
                0 <= k < places.len() ==> 0 <= #[trigger] places[k] < env_vars.len()
                    && p.env_vars[k] == env_vars[places[k]]
            &&& forall|j: int, k: int| 0 <= j < k < places.len() ==> places[j] < places[k]
            &&& forall|i: int|
                0 <= i < env_vars.len() ==> (places.contains(i) <==> (#[trigger] env_vars[i]).0
                    != "WAYLAND_SOCKET"@)
        }),
{
    law_dropping_a_key_keeps_the_rest(env_vars, "WAYLAND_SOCKET"@)
}

/// The process that exited restarts with the environment that it had, but for the number of its new
/// end of the socket pair in the variable at `first`, which is the first with one of the two keys;
/// there is none where `first` is the number of variables.
pub proof fn law_process_restarts_with_its_environment(
    p: ProcessView,
    keys: (Seq<char>, Seq<char>),
    my_fd: int,
    first: int,
)
    requires
        0 <= first <= p.env_vars.len(),
        forall|i: int|
            0 <= i < first ==> (#[trigger] p.env_vars[i]).0 != keys.0 && p.env_vars[i].0 != keys.1,
        first < p.env_vars.len() ==> p.env_vars[first].0 == keys.0 || p.env_vars[first].0 == keys.1,
    ensures
        restarted_env(p, keys, my_fd).len() == p.env_vars.len(),
        forall|i: int|
            0 <= i < p.env_vars.len() ==> #[trigger] restarted_env(p, keys, my_fd)[i] == (
                p.env_vars[i].0,
                if i == first {
                    decimal(my_fd)
                } else {
                    p.env_vars[i].1
                },
            ),
{
    law_first_of_two_keys_is_set(p.env_vars, keys.0, keys.1, decimal(my_fd), first);
}

/// The process that is started anew has the variables that are kept for it, in their order and with
/// their values, but for a socket to the compositor, and but for the number of its new end of the
/// socket pair in the variable at `first`, which is the first with one of the two keys; there is
/// none where `first` is the number of variables.
pub proof fn law_partner_keeps_its_environment(
    p: ProcessView,
    keys: (Seq<char>, Seq<char>),
    my_fd: int,
    their_fd: int,
    first: int,
) -> (places: Seq<int>)
    requires
        0 <= first <= p.restart_env_vars.len(),
        forall|i: int|
            0 <= i < first ==> (#[trigger] p.restart_env_vars[i]).0 != keys.0
                && p.restart_env_vars[i].0 != keys.1,
        first < p.restart_env_vars.len() ==> p.restart_env_vars[first].0 == keys.0
            || p.restart_env_vars[first].0 == keys.1,
    ensures
        ({
            let env = p.restart_env_vars;
            let partner = partner_of(p, keys, my_fd, their_fd);
            &&& partner.env_vars.len() == places.len()
            &&& forall|k: int|
                0 <= k < places.len() ==> 0 <= #[trigger] places[k] < env.len()
                    && partner.env_vars[k] == (
                    env[places[k]].0,
                    if places[k] == first {
                        decimal(their_fd)
                    } else {
                        env[places[k]].1
                    },
                )
            &&& forall|j: int, k: int| 0 <= j < k < places.len() ==> places[j] < places[k]
            &&& forall|i: int|
                0 <= i < env.len() ==> (places.contains(i) <==> (#[trigger] env[i]).0
                    != "WAYLAND_SOCKET"@)
        }),
{
    let env = p.restart_env_vars;
    let renewed = with_new_fd(env, keys, their_fd);
    law_first_of_two_keys_is_set(env, keys.0, keys.1, decimal(their_fd), first);
    let places = law_dropping_a_key_keeps_the_rest(renewed, "WAYLAND_SOCKET"@);
    assert forall|i: int| 0 <= i < env.len() implies (places.contains(i) <==> (
    #[trigger] env[i]).0 != "WAYLAND_SOCKET"@) by {
        assert(renewed[i].0 == env[i].0);
    }
    places
}

/// What is known of the other process counts only where it is looked for: whatever is known at the
/// other acts, they come in one order, and the process that is stopped is the one that was found.
pub proof fn law_found_partner_is_stopped<K>(
    found: Option<K>,
    a: Option<K>,
    b: Option<K>,
    c: Option<K>,
    d: Option<K>,
)
    ensures
        ({
            let second = following_act(RestartAct::UpdateEnv, a);
            let third = following_act(second, b);
            let fourth = following_act(third, found);
            let fifth = following_act(fourth, c);
            let sixth = following_act(fifth, d);
            &&& second == RestartAct::<K>::UpdateFds
            &&& third == RestartAct::<K>::FindPartner
            &&& found matches Some(k) ==> fourth == RestartAct::Stop(k) && fifth
                == RestartAct::<K>::StartPartner && sixth == RestartAct::<K>::Rest
            &&& found is None ==> fourth == RestartAct::<K>::LogNoPartner && fifth
                == RestartAct::<K>::Rest && sixth == RestartAct::<K>::Rest
        }),
{
}

/// A process of the pair is launched with its end of the socket pair and with every variable that it
/// is given but a socket to the compositor.
pub proof fn law_launched_process_has_its_end<F>(
    cmd: String,
    env_vars: Vec<(String, String)>,
    fd: F,
    restart_cmd: String,
    restart_env_vars: Vec<(String, String)>,
    r: NotificationsLaunch<F>,
) -> (places: Seq<int>)
    requires
        call_ensures(
            notifications_process::<F>,
            (cmd, env_vars, fd, restart_cmd, restart_env_vars),
            r,
        ),
    ensures
        r.fds@ == seq![fd],
        r.process.cmd@ == cmd@,
        r.process.restart_cmd@ == restart_cmd@,
        r.process.restart_env_vars.deep_view() == restart_env_vars.deep_view(),
        r.process.env_vars.deep_view().len() == places.len(),
        forall|k: int|
            0 <= k < places.len() ==> 0 <= #[trigger] places[k] < env_vars@.len()
                && r.process.env_vars.deep_view()[k] == env_vars.deep_view()[places[k]],
        forall|j: int, k: int| 0 <= j < k < places.len() ==> places[j] < places[k],
        forall|i: int|
            0 <= i < env_vars@.len() ==> (places.contains(i) <==> (
            #[trigger] env_vars.deep_view()[i]).0 != "WAYLAND_SOCKET"@),
{
    law_process_keeps_its_environment(
        cmd@,
        env_vars.deep_view(),
        restart_cmd@,
        restart_env_vars.deep_view(),
    )
}

/// When a process of the pair has exited, each of the two gets one end of the new socket pair, with
/// its number in the environment that it is started with, in the variable that named the old end
/// (`mine_at`, `theirs_at`: the first with one of the two keys, or the number of variables), and the
/// two commands are still those of the pair. Every other variable stays as it is.
pub proof fn law_pair_restarts_on_a_new_socket_pair<F>(
    p: &NotificationsProcess,
    keys: &FdKeys,
    mine: SocketEnd<F>,
    theirs: SocketEnd<F>,
    r: PairRestart<F>,
    mine_at: int,
    theirs_at: int,
) -> (places: Seq<int>)
    requires
        call_ensures(on_exit::<F>, (p, keys, mine, theirs), r),
        0 <= mine_at <= p@.env_vars.len(),
        forall|i: int|
            0 <= i < mine_at ==> (#[trigger] p@.env_vars[i]).0 != keys.panel@ && p@.env_vars[i].0
                != keys.daemon@,
        mine_at < p@.env_vars.len() ==> p@.env_vars[mine_at].0 == keys.panel@
            || p@.env_vars[mine_at].0 == keys.daemon@,
        0 <= theirs_at <= p@.restart_env_vars.len(),
        forall|i: int|
            0 <= i < theirs_at ==> (#[trigger] p@.restart_env_vars[i]).0 != keys.panel@
                && p@.restart_env_vars[i].0 != keys.daemon@,
        theirs_at < p@.restart_env_vars.len() ==> p@.restart_env_vars[theirs_at].0 == keys.panel@
            || p@.restart_env_vars[theirs_at].0 == keys.daemon@,
    ensures
        r.fds@ == seq![mine.fd],
        r.partner.fds@ == seq![theirs.fd],
        r.partner.process.cmd@ == p.restart_cmd@,
        r.partner.process.restart_cmd@ == p.cmd@,
        r.partner.process.restart_env_vars.deep_view() == r.env_vars.deep_view(),
        r.env_vars.deep_view().len() == p@.env_vars.len(),
        forall|i: int|
            0 <= i < p@.env_vars.len() ==> #[trigger] r.env_vars.deep_view()[i] == (
                p@.env_vars[i].0,
                if i == mine_at {
                    decimal(mine.raw_fd as int)
                } else {
                    p@.env_vars[i].1
                },
            ),
        r.partner.process.env_vars.deep_view().len() == places.len(),
        forall|k: int|
            0 <= k < places.len() ==> 0 <= #[trigger] places[k] < p@.restart_env_vars.len()
                && r.partner.process.env_vars.deep_view()[k] == (
                p@.restart_env_vars[places[k]].0,
                if places[k] == theirs_at {
                    decimal(theirs.raw_fd as int)
                } else {
                    p@.restart_env_vars[places[k]].1
                },
            ),
        forall|j: int, k: int| 0 <= j < k < places.len() ==> places[j] < places[k],
        forall|i: int|
            0 <= i < p@.restart_env_vars.len() ==> (places.contains(i) <==> (
            #[trigger] p@.restart_env_vars[i]).0 != "WAYLAND_SOCKET"@),
{
    let both = (keys.panel@, keys.daemon@);
    let (m, t) = (mine.raw_fd as int, theirs.raw_fd as int);
    assert(r.partner.process@ == partner_of(p@, both, m, t));
    law_process_restarts_with_its_environment(p@, both, m, mine_at);
    law_pair_stays_a_pair(p@, both, m, t);
    law_partner_keeps_its_environment(p@, both, m, t, theirs_at)
}

/// The acts after an exit: none where the process does not restart; else the process is given its
/// new environment and descriptor, the other process is looked for, stopped and started anew, or
/// its lack is logged.
pub proof fn law_acts_are_taken_in_order<K>(
    found: Option<K>,
    a: Option<K>,
    none: RestartAct<K>,
    first: RestartAct<K>,
    second: RestartAct<K>,
    third: RestartAct<K>,
    fourth: RestartAct<K>,
    fifth: RestartAct<K>,
    sixth: RestartAct<K>,
)
    requires
        call_ensures(first_act::<K>, (false,), none),
        call_ensures(first_act::<K>, (true,), first),
        call_ensures(next_act::<K>, (first, a), second),
        call_ensures(next_act::<K>, (second, a), third),
        call_ensures(next_act::<K>, (third, found), fourth),
        call_ensures(next_act::<K>, (fourth, a), fifth),
        call_ensures(next_act::<K>, (fifth, a), sixth),
    ensures
        none is Rest,
        first is UpdateEnv,
        second is UpdateFds,
        third is FindPartner,
        found is Some ==> fourth == RestartAct::Stop(found->0) && fifth is StartPartner
            && sixth is Rest,
        found is None ==> fourth is LogNoPartner && fifth is Rest && sixth is Rest,
{
}

} // verus!
