//! Product and command names used in user-facing messages.

use vstd::prelude::*;

verus! {

/// The product name.
pub const BRANDING: &'static str = "EdgeDB";
/// The CLI name.
pub const BRANDING_CLI: &'static str = "EdgeDB CLI";
/// The cloud name.
pub const BRANDING_CLOUD: &'static str = "EdgeDB Cloud";
/// The CLI command name.
pub const BRANDING_CLI_CMD: &'static str = "edgedb";
/// The WSL distribution name.
pub const BRANDING_WSL: &'static str = "EdgeDB.WSL.1";

} // verus!
