//! Names that scripts and their files share.

use vstd::prelude::*;

verus! {

/// The extension of the file of a script.
pub const TASKLINE_EXTENSION: &'static str = "tskln";

/// The version that a script starts with where none is asked for.
pub const DEFAULT_VERSION: &'static str = "v0.0.1";

} // verus!
