use vstd::prelude::*;

verus! {

/// What the driver loop prints besides evaluation results.
pub struct DriverOptions {
    pub print_parses: bool,
    pub print_ir: bool,
}

impl DriverOptions {
    /// Quiet by default: no parse notices, no IR dumps.
    pub fn new() -> (r: DriverOptions)
        ensures
            !r.print_parses,
            !r.print_ir,
    {
        DriverOptions { print_parses: false, print_ir: false }
    }
}

} // verus!
