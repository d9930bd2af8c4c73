//! Descriptor of the debug command that prints the internal configuration.

use vstd::prelude::*;

verus! {

/// The names the command answers to.
pub fn aliases() -> (r: &'static str)
    ensures
        r@ == "debugdumpinternalconfig|debugdumpdynamicconfig"@,
{
    "debugdumpinternalconfig|debugdumpdynamicconfig"
}

/// The command's help text.
pub fn doc() -> (r: &'static str)
    ensures
        r@ == "print the internal configuration

Without arguments, print the dynamic config in hgrc format.
Otherwise, print config values specified by the arguments.
An argument should be in the format ``section.name``.
"@,
{
    "print the internal configuration

Without arguments, print the dynamic config in hgrc format.
Otherwise, print config values specified by the arguments.
An argument should be in the format ``section.name``.
"
}

/// The command has no synopsis line.
pub fn synopsis() -> (r: Option<&'static str>)
    ensures
        r is None,
{
    None
}

/// The command does not enable content-addressed storage.
pub fn enable_cas() -> (r: bool)
    ensures
        r == false,
{
    false
}

} // verus!
