//! Output routing: where a retrieved value goes, and how the output
//! destination is chosen from the flag, the environment and the
//! configuration. Writing to the destination itself is the caller's
//! affair.

use vstd::prelude::*;
use crate::config::Config;
use crate::matching::{ascii_eq_ic, eq_ignore_ascii_case};

verus! {

/// Where a retrieved value is sent.
#[derive(Debug, Clone, Copy, PartialEq, Eq, Structural)]
pub enum OutputType {
    Stdout,
    Clipboard,
}

/// The destination a name selects, compared without regard to ASCII
/// case; an unknown name selects nothing.
pub open spec fn spec_output_type(s: Seq<char>) -> Option<OutputType> {
    if ascii_eq_ic(s, "stdout"@) {
        Some(OutputType::Stdout)
    } else if ascii_eq_ic(s, "clipboard"@) {
        Some(OutputType::Clipboard)
    } else {
        None
    }
}

impl OutputType {
    /// Parse a destination name.
    pub fn from_str(s: &str) -> (r: Option<OutputType>)
        ensures
            r == spec_output_type(s@),
    {
        if eq_ignore_ascii_case(s, "stdout") {
            Some(OutputType::Stdout)
        } else if eq_ignore_ascii_case(s, "clipboard") {
            Some(OutputType::Clipboard)
        } else {
            None
        }
    }
}

/// An output handler: the chosen destination and, for the clipboard,
/// the delay after which it is cleared.
#[derive(Debug)]
pub struct Handler {
    pub output_type: OutputType,
    pub clipboard_timeout: Option<u64>,
}

impl Handler {
    /// A handler for a destination and an optional clipboard-clearing
    /// delay.
    pub fn new(output_type: OutputType, clipboard_timeout: Option<u64>) -> (h: Handler)
        ensures
            h.output_type == output_type,
            h.clipboard_timeout == clipboard_timeout,
    {
        Handler { output_type, clipboard_timeout }
    }
}

/// The destination an optional name selects.
pub open spec fn spec_parsed_output(o: Option<Seq<char>>) -> Option<OutputType> {
    match o {
        Some(s) => spec_output_type(s),
        None => None,
    }
}

/// The destination that wins: an explicit flag value that parses, then
/// the clipboard switch, then a parsing environment value, then a
/// parsing configured default; standard output otherwise.
pub open spec fn spec_resolve_output(
    flag_out: Option<Seq<char>>,
    clipboard: bool,
    env_out: Option<Seq<char>>,
    cfg_default: Option<Seq<char>>,
) -> OutputType {
    match spec_parsed_output(flag_out) {
        Some(t) => t,
        None => if clipboard {
            OutputType::Clipboard
        } else {
            match spec_parsed_output(env_out) {
                Some(t) => t,
                None => match spec_parsed_output(cfg_default) {
                    Some(t) => t,
                    None => OutputType::Stdout,
                },
            }
        },
    }
}

/// Choose the output destination from the explicit flag, the clipboard
/// switch, the environment's value and the configured default, in that
/// order of precedence.
pub fn resolve_output_type(
    flag_out: Option<String>,
    clipboard: bool,
    env_out: Option<String>,
    cfg: &Config,
) -> (r: OutputType)
    ensures
        r == spec_resolve_output(
            crate::backend::opt_view(flag_out),
            clipboard,
            crate::backend::opt_view(env_out),
            match cfg.default_output {
                Some(s) => Some(s@),
                None => None,
            },
        ),
{
    if let Some(out) = &flag_out {
        if let Some(t) = OutputType::from_str(out.as_str()) {
            return t;
        }
    }
    if clipboard {
        return OutputType::Clipboard;
    }
    if let Some(out) = &env_out {
        if let Some(t) = OutputType::from_str(out.as_str()) {
            return t;
        }
    }
    if let Some(out) = &cfg.default_output {
        if let Some(t) = OutputType::from_str(out.as_str()) {
            return t;
        }
    }
    OutputType::Stdout
}

} // verus!
