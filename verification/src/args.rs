//! The interpreter's command-line arguments, as plain values; reading them
//! from the environment is the entry point's business.
use vstd::prelude::*;

verus! {

/// The arguments: a script file to run, or none to read from the prompt.
pub struct Args {
    pub script: Option<std::string::String>,
}

} // verus!
