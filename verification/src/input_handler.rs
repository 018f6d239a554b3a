//! A minimal holder for a host-supplied input callback.
//!
//! The windowing layer that produces input events lives outside this crate;
//! it registers a handler by wrapping it in a `Callback`, which the host
//! event loop later invokes. The library itself never calls the handler, so
//! the callback value is held generically.

use vstd::prelude::*;

verus! {

/// Wraps a host-supplied input handler so the host loop can store and invoke
/// it later.
pub struct Callback<F> {
    pub cb: F,
}

impl<F> Callback<F> {
    pub fn new(callback: F) -> (r: Self)
        ensures
            r.cb == callback,
    {
        Self { cb: callback }
    }
}

} // verus!
