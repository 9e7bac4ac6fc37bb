//! Typed failures shared by every layer of the codec.

use vstd::prelude::*;

verus! {

/// Names the table field that an error is about.
#[derive(Clone, Copy, Debug, PartialEq, Eq, Structural)]
pub enum FieldId {
    /// The optional URI to an active manifest.
    ActiveManifestUri,
    /// The optional embedded manifest store.
    ManifestStore,
}

/// A decode or encode failure.  Decode errors are propagated to the caller
/// and never retried: a malformed buffer will not become valid on a second
/// attempt.
#[derive(Clone, Copy, Debug, PartialEq, Eq, Structural)]
pub enum CodecError {
    /// A read would have gone past the end of the buffer: `requested` bytes
    /// were needed but only `available` remained.  Nothing is ever silently
    /// truncated.
    OutOfData { requested: usize, available: usize },
    /// A payload declared as text is not valid UTF-8.
    InvalidEncoding { field: FieldId },
    /// A fixed-layout header's declared shape does not match what was
    /// supplied: `expected` against `got` (a field count, or a width bound
    /// against an oversized length).
    StructuralMismatch { expected: usize, got: usize },
}

} // verus!
