use vstd::prelude::*;

verus! {

/// Which way the bytes of a transfer flow.
#[derive(Clone, Copy, Debug, PartialEq, Eq, Hash, Structural)]
pub enum Direction {
    Upload,
    Download,
}

} // verus!
