//! How a bridge runs its session.

use vstd::prelude::*;

verus! {

#[derive(Debug, Clone, Copy, PartialEq, Eq, Structural)]
pub enum BridgeRuntime {
    /// The session runs on the blocking thread pool.
    Blocking,
    /// The session runs on a thread of its own. Declared only; batches for it are refused.
    DedicatedThread,
}

} // verus!
