pub mod args;
pub mod backend;
pub mod config;
pub mod db_helper;
pub mod otp;
pub mod output;
pub mod search;
pub mod text;
pub mod tree;
pub mod laws;
pub mod matching;

use vstd::prelude::*;

verus! {

} // verus!
