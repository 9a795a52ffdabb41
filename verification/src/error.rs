//! Errors reported by the generation stages.

use vstd::prelude::*;

verus! {

/// Why a generation stage refused its inputs or its own result.
#[derive(Clone, Copy, Debug, PartialEq, Eq)]
pub enum WorldgenError {
    InvalidParameters(&'static str),
    InvalidTectonics(&'static str),
    InvalidGeology(&'static str),
    InvalidLithosphere(&'static str),
    InvalidTopography(&'static str),
    InvalidHydrology(&'static str),
    InvalidGeomorphology(&'static str),
}

} // verus!
