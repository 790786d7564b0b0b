use vstd::prelude::*;

verus! {

/// The options of the custom PMU command.
pub struct CustomPMU {}

} // verus!
