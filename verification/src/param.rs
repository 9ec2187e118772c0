use vstd::prelude::*;

verus! {

/// A stable identifier naming one parameter tensor within a module tree.
///
/// Identity is supplied by the module tree, not created here; this library
/// only copies and compares it. A plain integer handle keeps comparison cheap
/// and leaves the accumulator free of any lifetime coupling to the tree.
#[derive(Clone, Copy, PartialEq, Eq, Structural, Hash, Debug)]
pub struct ParamId {
    pub value: u64,
}

impl ParamId {
    /// Wrap a raw handle as a parameter id.
    pub fn new(value: u64) -> (r: ParamId)
        ensures
            r.value == value,
    {
        ParamId { value }
    }
}

} // verus!
