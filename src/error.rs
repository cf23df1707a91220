//! The ways a snapshot attempt can fail.
use vstd::prelude::*;

verus! {

/// Why a snapshot could not be assembled. Each one aborts the whole attempt.
#[derive(Debug, Clone, Copy, PartialEq, Eq, Structural)]
pub enum SnapshotError {
    /// The checkpoint text is not the hex form of a 32-byte identifier.
    InvalidCheckpoint,
    /// The backend connection or a map iteration failed.
    TransportError,
    /// A raw key is shorter than the suffix its map is decoded with.
    MalformedKey,
    /// A dependent map names a (group, member) pair that the identity map lacks.
    UnknownMember { group_id: u16, member_id: u64 },
}

} // verus!
