use vstd::prelude::*;

pub mod cmd;
pub mod euclid;
pub mod gen;
pub mod midi;
pub mod rng;
pub mod scale;
pub mod seq;
pub mod tick;

verus! {

/// The error kinds a sequencer operation can report.
///
/// `InvalidArgument` covers malformed control arguments, `NotFound` an id
/// lookup miss, and `GenerationRefused` Euclidean parameters that cannot
/// produce a pattern.
#[derive(Clone, Copy, Debug, PartialEq, Eq, Structural)]
pub enum SeqError {
    InvalidArgument,
    NotFound,
    GenerationRefused,
}

} // verus!

