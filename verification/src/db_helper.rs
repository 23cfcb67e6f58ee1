//! Choosing the password source for opening the tree-structured store.
//! Reading a file, running an executable or prompting is the caller's
//! affair; the library decides only which source wins.

use vstd::prelude::*;
use crate::backend::opt_view;
use crate::config::Config;

verus! {

/// The password source that wins: the explicit parameter, then the
/// environment's value, then the configured password file, then the
/// configured password executable; nothing otherwise, which leaves
/// prompting the operator.
pub open spec fn spec_first_source(
    param: Option<Seq<char>>,
    env: Option<Seq<char>>,
    file: Option<Seq<char>>,
    exec_source: Option<Seq<char>>,
) -> Option<Seq<char>> {
    match param {
        Some(p) => Some(p),
        None => match env {
            Some(p) => Some(p),
            None => match file {
                Some(p) => Some(p),
                None => exec_source,
            },
        },
    }
}

/// Pick the password source for this invocation, in order of
/// precedence: parameter, environment, configured file, configured
/// executable. `None` means the operator must be prompted.
pub fn first_password_source(
    pass_param: Option<String>,
    cfg: &Config,
    kdb_pass_env: Option<String>,
) -> (r: Option<String>)
    ensures
        opt_view(r) == spec_first_source(
            opt_view(pass_param),
            opt_view(kdb_pass_env),
            match cfg.password_file {
                Some(s) => Some(s@),
                None => None,
            },
            match cfg.password_executable {
                Some(s) => Some(s@),
                None => None,
            },
        ),
{
    if let Some(p) = pass_param {
        return Some(p);
    }
    if let Some(p) = kdb_pass_env {
        return Some(p);
    }
    if let Some(p) = &cfg.password_file {
        return Some(p.clone());
    }
    if let Some(p) = &cfg.password_executable {
        return Some(p.clone());
    }
    None
}

} // verus!
