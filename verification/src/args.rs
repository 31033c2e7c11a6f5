//! The command-line options the surrounding binary hands to the library:
//! plain values only; flag parsing itself lives outside the engine.

use vstd::prelude::*;

verus! {

/// The options of one invocation.
#[derive(Debug)]
pub struct Args {
    /// Enable debug output.
    pub debug: bool,
    /// Path to the configuration file (YAML or structured text).
    pub config: Option<String>,
    /// Template category.
    pub category: Option<String>,
    /// Template name.
    pub template: Option<String>,
    /// Trigger the remote workflow instead of local generation.
    pub remote: bool,
    /// Token for the remote workflow.
    pub token: Option<String>,
}

} // verus!
