//! What the command line says.

use vstd::prelude::*;
use vstd::string::*;

verus! {

/// The path of the configuration file where the command line names none.
pub const DEFAULT_CONFIG: &'static str = "/etc/fand/config.toml";

/// The arguments of the program.
#[derive(Debug)]
pub struct App {
    /// The path of the configuration file.
    pub config: String,
}

impl Default for App {
    /// The arguments of a command line that gives none.
    fn default() -> (app: Self)
        ensures
            app.config@ == DEFAULT_CONFIG@,
    {
        App { config: String::from_str(DEFAULT_CONFIG) }
    }
}

} // verus!
