//! The invocation arguments, as plain values. Parsing a command line
//! into this shape is the caller's affair.

use vstd::prelude::*;

verus! {

/// One invocation's arguments: what to look up, where, and how to
/// report it.
#[derive(Debug)]
pub struct Args {
    pub kdb_path: Option<String>,
    pub kdb_password: Option<String>,
    pub item: Option<String>,
    pub field_name: String,
    pub out: Option<String>,
    pub clipboard: bool,
    pub case_sensitive: bool,
    pub exact_match: bool,
    pub show_man: bool,
    pub debug: bool,
    pub verify_messages: bool,
    pub create_config: bool,
    pub print_config: bool,
    pub config_path: String,
    pub show_all: bool,
    pub clear_clipboard_after: Option<u64>,
    pub totp: bool,
    pub password_totp: bool,
}

} // verus!
