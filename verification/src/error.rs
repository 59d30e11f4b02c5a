//! Structured parse errors.
//!
//! Every decoder entry point either returns the fully formed in-memory
//! value or a single error value carrying a phase name, a byte offset and
//! the rejected byte.  No error is recovered locally.

use vstd::prelude::*;

verus! {

/// Which decoder was running when the error was raised.
#[derive(Clone, Copy, Debug, PartialEq, Eq, Structural)]
pub enum Phase {
    Voxels,
    Cameras,
    Lightings,
    SpriteHeader,
    SpriteFrame,
    SpriteChunk,
    Document,
    Strings,
    DemoInput,
}

/// What went wrong.
#[derive(Clone, Copy, Debug, PartialEq, Eq, Structural)]
pub enum ErrorKind {
    /// A tag or command byte had no legal interpretation at the current
    /// parser state.
    UnexpectedByte,
    /// A scalar or fixed-length block read ran past end of input.
    Truncated,
    /// A count that the format reserves to one byte exceeded 255.
    CountOverflow,
    /// A derived check failed, such as a voxel count that does not match
    /// the lattice volume.
    InvariantViolation,
    /// An indexed pixel format was converted without a palette.
    PaletteMissing,
}

/// A fatal decoding error: the phase, the byte offset at which parsing
/// stopped, and the byte that was rejected (zero when the input simply
/// ended).
#[derive(Clone, Copy, Debug, PartialEq, Eq, Structural)]
pub struct ParseError {
    pub phase: Phase,
    pub kind: ErrorKind,
    pub offset: usize,
    pub found: u8,
}

impl ParseError {
    pub fn new(phase: Phase, kind: ErrorKind, offset: usize, found: u8) -> (r: ParseError)
        ensures
            r == (ParseError { phase, kind, offset, found }),
    {
        ParseError { phase, kind, offset, found }
    }
}

} // verus!
