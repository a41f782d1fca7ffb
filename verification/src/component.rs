//! The components of the desktop, each with sockets of its own to the compositor.

use vstd::prelude::*;

use crate::comp::create_privileged_socket;
use crate::env::Pair;
use crate::text::{decimal, decimal_string, law_decimal_injective};

verus! {

/// A new socket pair: the client's end as a file descriptor with its number, and the
/// compositor's end.
pub struct PrivilegedSocket<F, S> {
    pub fd: F,
    pub raw_fd: i32,
    pub stream: S,
}

/// What a component is launched with. `sockets` go to the compositor; `extra_keys` name the
/// variables of the further sockets, which are renewed when the component restarts.
pub struct ComponentLaunch<F, S> {
    pub executable: String,
    pub env_vars: Vec<(String, String)>,
    pub fds: Vec<F>,
    pub sockets: Vec<S>,
    pub extra_keys: Vec<String>,
}

/// What a component is given anew before it restarts.
pub struct Renewal<F, S> {
    pub env_vars: Vec<(String, String)>,
    pub fds: Vec<F>,
    pub sockets: Vec<S>,
}

/// A further socket of a component: file descriptor, variable, compositor's end.
pub type ExtraFd<F, S> = (F, (String, String), S);

/// The file descriptors of further sockets.
pub open spec fn extra_fds_of<F, S>(extra: Seq<ExtraFd<F, S>>) -> Seq<F> {
    extra.map_values(|e: ExtraFd<F, S>| e.0)
}

/// The variables of further sockets.
pub open spec fn extra_env_of<F, S>(extra: Seq<ExtraFd<F, S>>) -> Seq<Pair> {
    extra.map_values(|e: ExtraFd<F, S>| (e.1.0@, e.1.1@))
}

/// The compositor's ends of further sockets.
pub open spec fn extra_streams_of<F, S>(extra: Seq<ExtraFd<F, S>>) -> Seq<S> {
    extra.map_values(|e: ExtraFd<F, S>| e.2)
}

/// The keys of an environment.
pub open spec fn keys_of(env: Seq<Pair>) -> Seq<Seq<char>> {
    env.map_values(|p: Pair| p.0)
}

/// The environment of a launched component: what it is given, the variable that names its own
/// socket, and those of its further sockets.
pub open spec fn launched_env(env: Seq<Pair>, raw_fd: int, extra: Seq<Pair>) -> Seq<Pair> {
    env.push(("WAYLAND_SOCKET"@, decimal(raw_fd))) + extra
}

/// How a component is launched: with a socket of its own, named by a variable behind `env_vars`,
/// and with its further sockets behind that one. The file descriptors of the further sockets come
/// first, that of its own socket last.
pub fn start_component<F, S>(
    cmd: String,
    env_vars: &[(String, String)],
    own: PrivilegedSocket<F, S>,
    extra_fds: Vec<ExtraFd<F, S>>,
) -> (r: ComponentLaunch<F, S>)
    ensures
        r.executable == cmd,
        r.env_vars.deep_view() == launched_env(
            env_vars.deep_view(),
            own.raw_fd as int,
            extra_env_of(extra_fds@),
        ),
        r.fds@ == extra_fds_of(extra_fds@).push(own.fd),
        r.sockets@ == seq![own.stream] + extra_streams_of(extra_fds@),
        r.extra_keys.deep_view() == keys_of(extra_env_of(extra_fds@)),
{
    let ghost extra = extra_fds@;
    let mut sockets: Vec<S> = Vec::new();
    let mut env = create_privileged_socket(&mut sockets, own.stream, own.raw_fd, env_vars);
    let ghost base = env.deep_view();
    let mut fds: Vec<F> = Vec::new();
    let mut extra_keys: Vec<String> = Vec::new();
    for entry in iter: extra_fds
        invariant
            iter.seq() == extra,
            env.deep_view() =~= base + extra_env_of(extra.take(iter.index())),
            fds@ =~= extra_fds_of(extra.take(iter.index())),
            sockets@ =~= seq![own.stream] + extra_streams_of(extra.take(iter.index())),
            extra_keys.deep_view() =~= keys_of(extra_env_of(extra.take(iter.index()))),
    {
        let ghost env_before = env.deep_view();
        let ghost keys_before = extra_keys.deep_view();
        let (fd, (key, value), stream) = entry;
        fds.push(fd);
        extra_keys.push(key.clone());
        env.push((key, value));
        sockets.push(stream);
        assert(env.deep_view() =~= env_before.push((key@, value@)));
        assert(extra_keys.deep_view() =~= keys_before.push(key@));
    }
    assert(extra.take(extra.len() as int) =~= extra);
    fds.push(own.fd);
    ComponentLaunch { executable: cmd, env_vars: env, fds, sockets, extra_keys }
}

/// How many new sockets a component needs when it has exited: one of its own and one for each of
/// the further variables where it restarts, else none.
pub fn sockets_to_renew(will_restart: bool, extra_keys: &[String]) -> (r: usize)
    requires
        extra_keys@.len() < usize::MAX,
    ensures
        r == if will_restart {
            1 + extra_keys@.len()
        } else {
            0
        },
{
    if will_restart {
        1 + extra_keys.len()
    } else {
        0
    }
}

/// The key of the variable that names the socket with this index: its own socket comes first.
pub open spec fn socket_key(extra_keys: Seq<Seq<char>>, i: int) -> Seq<char> {
    if i == 0 {
        "WAYLAND_SOCKET"@
    } else {
        extra_keys[i - 1]
    }
}

/// The numbers of the file descriptors of new sockets.
pub open spec fn raw_fds_of<F, S>(
    own: PrivilegedSocket<F, S>,
    others: Seq<PrivilegedSocket<F, S>>,
) -> Seq<int> {
    seq![own.raw_fd as int] + others.map_values(|s: PrivilegedSocket<F, S>| s.raw_fd as int)
}

/// The variables that name new sockets.
pub open spec fn renewed_env(extra_keys: Seq<Seq<char>>, raw_fds: Seq<int>) -> Seq<Pair> {
    Seq::new(raw_fds.len(), |i: int| (socket_key(extra_keys, i), decimal(raw_fds[i])))
}

/// What a component is given before it restarts: every socket that it had, made anew.
pub fn renew_sockets<F, S>(
    extra_keys: Vec<String>,
    own: PrivilegedSocket<F, S>,
    others: Vec<PrivilegedSocket<F, S>>,
) -> (r: Renewal<F, S>)
    requires
        others@.len() == extra_keys@.len(),
    ensures
        r.env_vars.deep_view() == renewed_env(extra_keys.deep_view(), raw_fds_of(own, others@)),
        r.fds@ == seq![own.fd] + others@.map_values(|s: PrivilegedSocket<F, S>| s.fd),
        r.sockets@ == seq![own.stream] + others@.map_values(|s: PrivilegedSocket<F, S>| s.stream),
{
    let ghost fresh = others@;
    let none: Vec<(String, String)> = Vec::new();
    let mut sockets: Vec<S> = Vec::new();
    let mut fds: Vec<F> = Vec::new();
    let mut env = create_privileged_socket(
        &mut sockets,
        own.stream,
        own.raw_fd,
        none.as_slice(),
    );
    fds.push(own.fd);
    let count: usize = extra_keys.len();
    let ghost wanted = renewed_env(extra_keys.deep_view(), raw_fds_of(own, fresh));
    assert(env.deep_view() =~= wanted.take(1));
    let mut i: usize = 0;
    for socket in iter: others
        invariant
            iter.seq() == fresh,
            i == iter.index(),
            fresh.len() == extra_keys@.len() == count,
            wanted == renewed_env(extra_keys.deep_view(), raw_fds_of(own, fresh)),
            env.deep_view() =~= wanted.take(1 + iter.index()),
            fds@ =~= seq![own.fd] + fresh.take(iter.index()).map_values(
                |s: PrivilegedSocket<F, S>| s.fd,
            ),
            sockets@ =~= seq![own.stream] + fresh.take(iter.index()).map_values(
                |s: PrivilegedSocket<F, S>| s.stream,
            ),
    {
        let ghost env_before = env.deep_view();
        sockets.push(socket.stream);
        fds.push(socket.fd);
        let value: String = decimal_string(socket.raw_fd);
        env.push((extra_keys[i].clone(), value));
        assert(env.deep_view() =~= env_before.push(wanted[1 + i as int]));
        i = i + 1;
    }
    assert(fresh.take(fresh.len() as int) =~= fresh);
    assert(wanted.take(1 + fresh.len() as int) =~= wanted);
    Renewal { env_vars: env, fds, sockets }
}

/// A restart renews the variables that the launch added for the component's sockets, those and no
/// others, in the same order.
pub proof fn law_restart_renews_every_socket(
    env: Seq<Pair>,
    raw_fd: int,
    extra: Seq<Pair>,
    raw_fds: Seq<int>,
)
    requires
        raw_fds.len() == 1 + extra.len(),
    ensures
        keys_of(renewed_env(keys_of(extra), raw_fds)) == keys_of(
            launched_env(env, raw_fd, extra),
        ).skip(env.len() as int),
{
    let launched = launched_env(env, raw_fd, extra);
    assert forall|i: int| 0 <= i < raw_fds.len() implies keys_of(
        renewed_env(keys_of(extra), raw_fds),
    )[i] == keys_of(launched).skip(env.len() as int)[i] by {
        if i > 0 {
            assert(launched[env.len() + i] == extra[i - 1]);
        } else {
            assert(launched[env.len() as int] == ("WAYLAND_SOCKET"@, decimal(raw_fd)));
        }
    }
    assert(keys_of(renewed_env(keys_of(extra), raw_fds)) =~= keys_of(launched).skip(
        env.len() as int,
    ));
}

/// What to log of a component's exit: its exit code where it has one.
pub fn exit_message(cmd: &str, err_code: Option<i32>) -> (r: Option<String>)
    ensures
        match err_code {
            Some(code) => {
                &&& r is Some
                &&& r->0@ == cmd@ + " exited with error "@ + decimal(code as int)
            },
            None => r is None,
        },
{
    match err_code {
        Some(code) => {
            let mut line: String = cmd.to_owned();
            line.append(" exited with error ");
            line.append(decimal_string(code).as_str());
            Some(line)
        },
        None => None,
    }
}

/// A launched component has the environment that it is given, as it is; behind it stands the
/// variable that names its own socket, and behind that one, in order, those of its further sockets.
pub proof fn law_launched_component_is_told_its_sockets<F, S>(
    env: Seq<Pair>,
    raw_fd: int,
    extra: Seq<ExtraFd<F, S>>,
)
    ensures
        ({
            let launched = launched_env(env, raw_fd, extra_env_of(extra));
            &&& launched.len() == env.len() + 1 + extra.len()
            &&& forall|i: int| 0 <= i < env.len() ==> launched[i] == #[trigger] env[i]
            &&& launched[env.len() as int] == ("WAYLAND_SOCKET"@, decimal(raw_fd))
            &&& forall|i: int|
                0 <= i < extra.len() ==> launched[env.len() + 1 + i] == (
                    (#[trigger] extra[i]).1.0@,
                    extra[i].1.1@,
                )
        }),
{
}

/// A component inherits the file descriptor of each further socket, the compositor gets the other
/// end of each, and the variables to renew are theirs, all in the order of the sockets.
pub proof fn law_further_sockets_are_kept_in_order<F, S>(extra: Seq<ExtraFd<F, S>>, i: int)
    requires
        0 <= i < extra.len(),
    ensures
        extra_fds_of(extra).len() == extra.len(),
        extra_fds_of(extra)[i] == extra[i].0,
        extra_streams_of(extra).len() == extra.len(),
        extra_streams_of(extra)[i] == extra[i].2,
        keys_of(extra_env_of(extra)).len() == extra.len(),
        keys_of(extra_env_of(extra))[i] == extra[i].1.0@,
{
}

/// Each renewed variable names the new socket at its own place, the component's own socket first:
/// its value is the number of that socket's file descriptor. So sockets with different numbers are
/// named by different values.
pub proof fn law_renewed_variables_name_their_sockets<F, S>(
    extra_keys: Seq<Seq<char>>,
    own: PrivilegedSocket<F, S>,
    others: Seq<PrivilegedSocket<F, S>>,
)
    requires
        others.len() == extra_keys.len(),
    ensures
        ({
            let env = renewed_env(extra_keys, raw_fds_of(own, others));
            &&& env.len() == 1 + others.len()
            &&& env[0] == ("WAYLAND_SOCKET"@, decimal(own.raw_fd as int))
            &&& forall|i: int|
                0 <= i < others.len() ==> env[i + 1] == (
                    extra_keys[i],
                    decimal((#[trigger] others[i]).raw_fd as int),
                )
            &&& forall|i: int|
                0 <= i < others.len() && (#[trigger] others[i]).raw_fd != own.raw_fd ==> env[i
                    + 1].1 != env[0].1
            &&& forall|i: int, j: int|
                0 <= i < others.len() && 0 <= j < others.len() && (#[trigger] others[i]).raw_fd != (
                #[trigger] others[j]).raw_fd ==> env[i + 1].1 != env[j + 1].1
        }),
{
    let env = renewed_env(extra_keys, raw_fds_of(own, others));
    assert forall|i: int| 0 <= i < others.len() implies env[i + 1] == (
        extra_keys[i],
        decimal((#[trigger] others[i]).raw_fd as int),
    ) by {
        assert(raw_fds_of(own, others)[i + 1] == others[i].raw_fd as int);
    }
    assert(raw_fds_of(own, others)[0] == own.raw_fd as int);
    assert forall|i: int|
        0 <= i < others.len() && (#[trigger] others[i]).raw_fd != own.raw_fd implies env[i + 1].1
        != env[0].1 by {
        if decimal(others[i].raw_fd as int) == decimal(own.raw_fd as int) {
            law_decimal_injective(others[i].raw_fd as int, own.raw_fd as int);
        }
    }
    assert forall|i: int, j: int|
        0 <= i < others.len() && 0 <= j < others.len() && (#[trigger] others[i]).raw_fd != (
        #[trigger] others[j]).raw_fd implies env[i + 1].1 != env[j + 1].1 by {
        if decimal(others[i].raw_fd as int) == decimal(others[j].raw_fd as int) {
            law_decimal_injective(others[i].raw_fd as int, others[j].raw_fd as int);
        }
    }
}

/// A component is launched as its command says, with the environment that it is given, a variable
/// that names its own socket behind it, and the variables of its further sockets behind that one. It
/// inherits the descriptors of the further sockets and, as the last one, of its own; the compositor
/// gets the other ends, that of its own first; and the further variables are remembered by key.
pub proof fn law_component_gets_all_its_sockets<F, S>(
    cmd: String,
    env_vars: &[(String, String)],
    own: PrivilegedSocket<F, S>,
    extra: Vec<ExtraFd<F, S>>,
    r: ComponentLaunch<F, S>,
)
    requires
        call_ensures(start_component::<F, S>, (cmd, env_vars, own, extra), r),
    ensures
        r.executable == cmd,
        ({
            let n = env_vars@.len();
            let env = r.env_vars.deep_view();
            &&& env.len() == n + 1 + extra@.len()
            &&& env.take(n as int) == env_vars.deep_view()
            &&& env[n as int] == ("WAYLAND_SOCKET"@, decimal(own.raw_fd as int))
            &&& forall|i: int|
                0 <= i < extra@.len() ==> env[n + 1 + i] == (
                    (#[trigger] extra@[i]).1.0@,
                    extra@[i].1.1@,
                )
        }),
        r.fds@.len() == 1 + extra@.len(),
        r.fds@.last() == own.fd,
        forall|i: int| 0 <= i < extra@.len() ==> r.fds@[i] == (#[trigger] extra@[i]).0,
        r.sockets@.len() == 1 + extra@.len(),
        r.sockets@[0] == own.stream,
        forall|i: int| 0 <= i < extra@.len() ==> r.sockets@[i + 1] == (#[trigger] extra@[i]).2,
        r.extra_keys@.len() == extra@.len(),
        forall|i: int| 0 <= i < extra@.len() ==> r.extra_keys@[i]@ == (#[trigger] extra@[i]).1.0@,
{
    let base = env_vars.deep_view();
    assert(base.len() == env_vars@.len());
    law_launched_component_is_told_its_sockets(base, own.raw_fd as int, extra@);
    assert(r.env_vars.deep_view().take(env_vars@.len() as int) =~= base);
    assert(r.extra_keys.deep_view().len() == r.extra_keys@.len());
    assert forall|i: int| 0 <= i < extra@.len() implies r.extra_keys@[i]@ == (
    #[trigger] extra@[i]).1.0@ by {
        law_further_sockets_are_kept_in_order(extra@, i);
        assert(r.extra_keys.deep_view()[i] == r.extra_keys@[i]@);
    }
}

/// Before it restarts, a component is given as many sockets as it was launched with: the variable at
/// each place names the descriptor at the same place, its own socket first, by its number, and the
/// compositor gets the other end of each, in the same order.
pub proof fn law_renewed_sockets_match_their_variables<F, S>(
    keys: &[String],
    extra_keys: Vec<String>,
    own: PrivilegedSocket<F, S>,
    others: Vec<PrivilegedSocket<F, S>>,
    wanted: usize,
    r: Renewal<F, S>,
)
    requires
        others@.len() == extra_keys@.len(),
        keys@ == extra_keys@,
        call_ensures(sockets_to_renew, (true, keys), wanted),
        call_ensures(renew_sockets::<F, S>, (extra_keys, own, others), r),
    ensures
        wanted == 1 + others@.len(),
        r.env_vars@.len() == wanted,
        r.fds@.len() == wanted,
        r.sockets@.len() == wanted,
        r.env_vars@[0].0@ == "WAYLAND_SOCKET"@,
        r.env_vars@[0].1@ == decimal(own.raw_fd as int),
        r.fds@[0] == own.fd,
        r.sockets@[0] == own.stream,
        forall|i: int|
            0 <= i < others@.len() ==> r.env_vars.deep_view()[i + 1] == (
                extra_keys@[i]@,
                decimal((#[trigger] others@[i]).raw_fd as int),
            ),
        forall|i: int| 0 <= i < others@.len() ==> r.fds@[i + 1] == (#[trigger] others@[i]).fd,
        forall|i: int|
            0 <= i < others@.len() ==> r.sockets@[i + 1] == (#[trigger] others@[i]).stream,
{
    let names = extra_keys.deep_view();
    let env = r.env_vars.deep_view();
    law_renewed_variables_name_their_sockets(names, own, others@);
    assert(env.len() == r.env_vars@.len());
    assert(env[0] == (r.env_vars@[0].0@, r.env_vars@[0].1@));
    assert forall|i: int| 0 <= i < others@.len() implies env[i + 1] == (
        extra_keys@[i]@,
        decimal((#[trigger] others@[i]).raw_fd as int),
    ) by {
        assert(names[i] == extra_keys@[i]@);
    }
}

/// A component that does not restart needs no sockets, and its exit is logged with its code, where
/// it has one.
pub proof fn law_exit_is_logged_with_its_code(
    cmd: &str,
    code: i32,
    keys: &[String],
    wanted: usize,
    coded: Option<String>,
    signalled: Option<String>,
)
    requires
        call_ensures(sockets_to_renew, (false, keys), wanted),
        call_ensures(exit_message, (cmd, Some(code)), coded),
        call_ensures(exit_message, (cmd, None::<i32>), signalled),
    ensures
        wanted == 0,
        signalled is None,
        coded is Some,
        coded->0@ == cmd@ + " exited with error "@ + decimal(code as int),
{
}

} // verus!
