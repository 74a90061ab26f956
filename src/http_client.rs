//! The HTTP client handle handed to model providers. It carries no state;
//! requests themselves are made by the hosting application.

use vstd::prelude::*;

verus! {

/// A stateless HTTP client handle.
#[derive(Clone, Copy, Debug, PartialEq, Eq, Structural)]
pub struct WasmHttpClient;

impl WasmHttpClient {
    /// A new client handle.
    pub fn new() -> (r: Self)
        ensures
            r == WasmHttpClient,
    {
        WasmHttpClient
    }
}

} // verus!
