//! Output engine and command-planning core of a database CLI.
//!
//! The centerpiece is the pretty-printer under [`print`]: a streaming,
//! backtracking layout engine that first attempts a compact single-line
//! ("flow") rendering of a value and falls back to an indented multi-line
//! ("block") rendering when the configured width would be exceeded.

use vstd::prelude::*;

pub mod branding;
pub mod cloud;
pub mod print;
pub mod repl;
pub mod restore;
pub mod text;
pub mod windows;

verus! {

/// Number of spaces that one indentation level occupies by default.
pub const DEFAULT_INDENT: usize = 2;

} // verus!
