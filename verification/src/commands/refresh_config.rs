//! Descriptor of the debug command that refreshes the internal
//! configuration on disk.

use vstd::prelude::*;

verus! {

/// The names the command answers to.
pub fn aliases() -> (r: &'static str)
    ensures
        r@ == "debugrefreshconfig|debugdynamicconfig"@,
{
    "debugrefreshconfig|debugdynamicconfig"
}

/// The command's help text.
pub fn doc() -> (r: &'static str)
    ensures
        r@ == "refresh the internal configuration"@,
{
    "refresh the internal configuration"
}

/// The command has no synopsis line.
pub fn synopsis() -> (r: Option<&'static str>)
    ensures
        r is None,
{
    None
}

/// The command does not enable content-addressed storage.
pub fn enable_cas() -> (r: bool)
    ensures
        r == false,
{
    false
}

} // verus!
