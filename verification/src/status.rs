use vstd::prelude::*;

verus! {

/// Run state of a worker, shared through a status cell with any outside
/// observer that may request shutdown.
#[derive(Clone, Copy, Debug, PartialEq, Eq, Structural)]
pub enum Status {
    Running,
    ShuttingDown,
}

} // verus!
