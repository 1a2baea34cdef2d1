//! Instrumentation of incoming requests.

use vstd::prelude::*;

verus! {

/// A marker for the place of incoming requests in a service's stack. It instruments nothing: it
/// wraps no service and reads no header.
#[derive(Clone, Copy, Debug)]
pub struct CfRequestIdLayer;

/// Convenience: create a `CfRequestIdLayer` for incoming requests.
pub fn request_layer() -> (layer: CfRequestIdLayer)
    ensures
        layer == CfRequestIdLayer,
{
    CfRequestIdLayer
}

} // verus!
