//! Renderer selection shared with the platform renderer: which graphics API
//! backs it, and the error of a host without one.
use vstd::prelude::*;

pub mod geometry;

verus! {

/// The renderer is only available on hosts with the platform graphics API.
#[derive(Debug)]
pub struct GpuError;

/// Which graphics API backs the renderer.
#[derive(Debug, Clone, Copy, PartialEq, Eq, Structural)]
pub enum Backend {
    /// Direct3D 11, the default.
    D3D11,
    /// Direct3D 12.
    D3D12,
}

impl Default for Backend {
    fn default() -> (r: Self)
        ensures
            r == Backend::D3D11,
    {
        Backend::D3D11
    }
}

} // verus!
