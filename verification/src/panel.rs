//! The panel, run on a socket of its own.

use vstd::prelude::*;

use crate::process::Launch;

verus! {

/// How the panel is run, where `wayland_socket` names its socket to the compositor.
pub fn run_panel(wayland_socket: String) -> (r: Launch)
    ensures
        r.executable@ == "cosmic-panel"@,
        r.args@.len() == 0,
        r.env_vars.deep_view() == seq![("WAYLAND_SOCKET"@, wayland_socket@)],
{
    let mut env_vars: Vec<(String, String)> = Vec::new();
    env_vars.push(("WAYLAND_SOCKET".to_owned(), wayland_socket));
    assert(env_vars.deep_view() =~= seq![("WAYLAND_SOCKET"@, wayland_socket@)]);
    Launch { executable: "cosmic-panel".to_owned(), args: Vec::new(), env_vars }
}

} // verus!
