//! Bounds on what crosses threads.

use vstd::prelude::*;

verus! {

/// What may move to the thread that runs it.
pub trait NativeSend: Send {

}

impl<T: Send> NativeSend for T {

}

}
