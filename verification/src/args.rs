//! What the command line says.

use vstd::prelude::*;

verus! {

/// The arguments of one run.
#[derive(Debug, Clone, PartialEq, Eq)]
pub struct Args {
    /// The configuration file.
    pub file: String,
    /// The index or the name of the request to send.
    pub index: Option<String>,
    /// Show the headers of the response.
    pub show_headers: bool,
    /// Do not follow redirects.
    pub disable_redirect: bool,
    /// Send the request even where it is disabled.
    pub include_disabled: bool,
    /// Show the configuration once it is resolved, and stop.
    pub show_config: bool,
    /// Write the shell command that installs a completion, and stop.
    pub complete: bool,
    /// Say more.
    pub verbose: bool,
}

} // verus!
