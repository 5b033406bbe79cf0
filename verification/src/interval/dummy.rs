//! A test that only observes accesses.
use vstd::prelude::*;

verus! {

/// An interval test that reacts to nothing: every entry point is a no-op.
/// Useful as a stand-in entry in the suite and for exercising dispatch.
#[derive(Clone, Copy, PartialEq, Eq, Structural, Debug)]
pub struct DummyInterval;

impl DummyInterval {
    pub fn name(&self) -> (r: &'static str)
        ensures
            r@ == "Dummy Interval Test"@,
    {
        proof {
            reveal_strlit("Dummy Interval Test");
        }
        "Dummy Interval Test"
    }
}

} // verus!
