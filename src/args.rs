use vstd::prelude::*;

verus! {

/// The shell's command line: an inline script, a command to run and exit,
/// and the flags that skip the startup config, the interactive loop, or
/// load the login profile.
#[derive(Clone, Debug)]
pub struct TishArgs {
    pub arguments: Option<String>,
    pub command: Option<String>,
    pub no_env: bool,
    pub headless: bool,
    pub login: bool,
}

} // verus!
