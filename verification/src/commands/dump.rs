//! `dump`: which server, and which infobase credentials.
use vstd::prelude::*;

use crate::cli::DumpArgs;
use crate::config::{Credentials, Server};

verus! {

/// The index of the first server whose host is `host`.
pub fn find_server(servers: &Vec<Server>, host: &str) -> (r: Option<usize>)
    ensures
        r matches Some(i) ==> i < servers@.len() && servers@[i as int].host@ == host@ && forall|j: int|
            0 <= j < i ==> (#[trigger] servers@[j]).host@ != host@,
        r is None ==> forall|j: int| 0 <= j < servers@.len() ==> (#[trigger] servers@[j]).host@ != host@,
{
    let h = String::from_str(host);
    let mut i: usize = 0;
    while i < servers.len()
        invariant
            i <= servers.len(),
            h@ == host@,
            forall|j: int| 0 <= j < i ==> (#[trigger] servers@[j]).host@ != host@,
        decreases servers.len() - i,
    {
        if servers[i].host == h {
            return Some(i);
        }
        i = i + 1;
    }
    None
}

/// Whether `dump` must prompt for the infobase user name: none was given.
pub fn needs_username_prompt(args: &DumpArgs) -> (r: bool)
    ensures
        r == args.ib_username is None,
{
    args.ib_username.is_none()
}

/// Whether `dump` must prompt for the infobase password: none was given.
pub fn needs_password_prompt(args: &DumpArgs) -> (r: bool)
    ensures
        r == args.ib_password is None,
{
    args.ib_password.is_none()
}

/// The credential given where there is one, else the one typed at its prompt.
pub open spec fn given_or_prompted(given: Option<String>, prompted: Option<String>) -> Option<String> {
    if given is Some {
        given
    } else {
        prompted
    }
}

fn pick(given: &Option<String>, prompted: Option<String>) -> (r: Option<String>)
    ensures
        r == given_or_prompted(*given, prompted),
{
    match given {
        Some(g) => Some(g.clone()),
        None => prompted,
    }
}

/// The infobase credentials of `dump`: each one given, else the one typed at
/// its prompt (`prompted_username`, `prompted_password`). `None` where one was
/// neither given nor typed.
pub fn ib_credentials(
    args: &DumpArgs,
    prompted_username: Option<String>,
    prompted_password: Option<String>,
) -> (r: Option<Credentials>)
    ensures
        match (
            given_or_prompted(args.ib_username, prompted_username),
            given_or_prompted(args.ib_password, prompted_password),
        ) {
            (Some(u), Some(p)) => r matches Some(c) && c.username == Some(u) && c.password == Some(
                p,
            ),
            _ => r is None,
        },
{
    let username = pick(&args.ib_username, prompted_username);
    let password = pick(&args.ib_password, prompted_password);
    match (username, password) {
        (Some(u), Some(p)) => Some(Credentials { username: Some(u), password: Some(p) }),
        _ => None,
    }
}

} // verus!
