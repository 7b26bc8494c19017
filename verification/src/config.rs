//! The closed set of build backends a compile request may target.

use vstd::prelude::*;

verus! {

/// Which engine a compile request is dispatched to: the in-process mock, the
/// embedded full engine, or the long-lived external build process.
#[derive(Debug, Clone, Copy, PartialEq, Eq, Structural)]
pub enum CompileBackend {
    Internal,
    Tectonic,
    Latexmk,
}

/// The tag a backend contributes to the compile-cache key.
pub open spec fn spec_backend_tag(b: CompileBackend) -> u8 {
    match b {
        CompileBackend::Internal => 1,
        CompileBackend::Tectonic => 2,
        CompileBackend::Latexmk => 3,
    }
}

pub fn backend_tag(b: CompileBackend) -> (r: u8)
    ensures
        r == spec_backend_tag(b),
{
    match b {
        CompileBackend::Internal => 1,
        CompileBackend::Tectonic => 2,
        CompileBackend::Latexmk => 3,
    }
}

} // verus!
