//! Any program, run with file descriptors and listened to until it ends.

use vstd::prelude::*;

use crate::process::Launch;

verus! {

/// How a program is run: as it is given, with these file descriptors.
pub fn run_executable<F>(
    executable: &str,
    args: Vec<String>,
    env_vars: Vec<(String, String)>,
    fds: Vec<F>,
) -> (r: (Launch, Vec<F>))
    ensures
        r.0.executable@ == executable@,
        r.0.args == args,
        r.0.env_vars == env_vars,
        r.1 == fds,
{
    (Launch { executable: executable.to_owned(), args, env_vars }, fds)
}

} // verus!
