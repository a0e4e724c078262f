//! The layer-shell surface of the launcher: its namespace and the output it
//! asks for.
use vstd::prelude::*;
use crate::text::owned;

verus! {

/// The namespace the launcher's surface is registered under.
pub fn namespace() -> (r: String)
    ensures
        r@ == "gamut-launcher"@,
{
    owned("gamut-launcher")
}

/// The output name given when the compositor should pick the output: a
/// name no real output has.
pub fn compositor_selected_output() -> (r: &'static str)
    ensures
        r@ == "gamut:auto-output"@,
{
    "gamut:auto-output"
}

/// The output name the surface asks for: the
/// requested output, or the sentinel that leaves the choice to the
/// compositor.
pub fn output_name_for(output_name: Option<&str>) -> (r: String)
    ensures
        match output_name {
            Some(n) => r@ == n@,
            None => r@ == "gamut:auto-output"@,
        },
{
    match output_name {
        Some(name) => owned(name),
        None => owned(compositor_selected_output()),
    }
}

} // verus!
