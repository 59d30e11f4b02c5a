//! Position-tracked reader over an immutable byte slice.
//!
//! The reader exposes big-endian scalar reads that each advance the cursor
//! by their width, a bulk byte read, and the guard-byte combinator
//! `read_if_expected`: consume the next byte exactly when it equals an
//! expected value.  The reader performs no validation beyond bounds; an
//! out-of-range read fails and leaves the cursor where it was.

use vstd::prelude::*;
use crate::bytes::{u16v, u32v, i16v, i32v};
use crate::error::{ErrorKind, ParseError, Phase};

verus! {

/// Stateful cursor over an immutable byte slice.
pub struct LevelSetupReader<'a> {
    bytes: &'a [u8],
    offset: usize,
}

impl<'a> LevelSetupReader<'a> {
    /// The whole input, as a mathematical sequence.
    pub closed spec fn input(&self) -> Seq<u8> {
        self.bytes@
    }

    /// The current cursor position.
    pub closed spec fn pos(&self) -> int {
        self.offset as int
    }

    /// The cursor never leaves the input.
    pub open spec fn wf(&self) -> bool {
        0 <= self.pos() <= self.input().len()
    }

    pub fn new(in_bytes: &'a [u8]) -> (r: LevelSetupReader<'a>)
        ensures
            r.input() == in_bytes@,
            r.pos() == 0,
            r.wf(),
    {
        LevelSetupReader { bytes: in_bytes, offset: 0 }
    }

    /// The current cursor position as a value.
    pub fn offset(&self) -> (r: usize)
        ensures
            r == self.pos(),
    {
        self.offset
    }

    /// How many bytes are left past the cursor.
    pub fn remaining(&self) -> (r: usize)
        requires
            self.wf(),
        ensures
            r == self.input().len() - self.pos(),
    {
        self.bytes.len() - self.offset
    }

    /// Read one byte and advance.
    pub fn read_u8(&mut self, phase: Phase) -> (r: Result<u8, ParseError>)
        requires
            old(self).wf(),
        ensures
            final(self).input() == old(self).input(),
            final(self).wf(),
            match r {
                Ok(v) => {
                    &&& old(self).pos() + 1 <= old(self).input().len()
                    &&& v == old(self).input()[old(self).pos()]
                    &&& final(self).pos() == old(self).pos() + 1
                },
                Err(e) => {
                    &&& *final(self) == *old(self)
                    &&& old(self).pos() + 1 > old(self).input().len()
                    &&& e == (ParseError {
                        phase,
                        kind: ErrorKind::Truncated,
                        offset: old(self).pos() as usize,
                        found: 0u8,
                    })
                },
            },
    {
        if self.offset < self.bytes.len() {
            let b = self.bytes[self.offset];
            self.offset = self.offset + 1;
            Ok(b)
        } else {
            Err(ParseError::new(phase, ErrorKind::Truncated, self.offset, 0))
        }
    }

    /// Read one byte as a signed value.
    pub fn read_i8(&mut self, phase: Phase) -> (r: Result<i8, ParseError>)
        requires
            old(self).wf(),
        ensures
            final(self).input() == old(self).input(),
            final(self).wf(),
            match r {
                Ok(v) => {
                    &&& old(self).pos() + 1 <= old(self).input().len()
                    &&& v == old(self).input()[old(self).pos()] as i8
                    &&& final(self).pos() == old(self).pos() + 1
                },
                Err(e) => {
                    &&& *final(self) == *old(self)
                    &&& old(self).pos() + 1 > old(self).input().len()
                },
            },
    {
        match self.read_u8(phase) {
            Ok(v) => Ok(v as i8),
            Err(e) => Err(e),
        }
    }

    /// Read a big-endian unsigned 16-bit scalar and advance by two.
    pub fn read_u16(&mut self, phase: Phase) -> (r: Result<u16, ParseError>)
        requires
            old(self).wf(),
        ensures
            final(self).input() == old(self).input(),
            final(self).wf(),
            match r {
                Ok(v) => {
                    &&& old(self).pos() + 2 <= old(self).input().len()
                    &&& v == u16v(
                        old(self).input()[old(self).pos()],
                        old(self).input()[old(self).pos() + 1],
                    )
                    &&& final(self).pos() == old(self).pos() + 2
                },
                Err(e) => {
                    &&& *final(self) == *old(self)
                    &&& old(self).pos() + 2 > old(self).input().len()
                    &&& e.kind == ErrorKind::Truncated
                    &&& e.phase == phase
                },
            },
    {
        if 2 <= self.bytes.len() - self.offset {
            let b0 = self.bytes[self.offset];
            let b1 = self.bytes[self.offset + 1];
            self.offset = self.offset + 2;
            Ok((b0 as u16) * 0x100 + (b1 as u16))
        } else {
            Err(ParseError::new(phase, ErrorKind::Truncated, self.offset, 0))
        }
    }

    /// Read a big-endian signed 16-bit scalar and advance by two.
    pub fn read_i16(&mut self, phase: Phase) -> (r: Result<i16, ParseError>)
        requires
            old(self).wf(),
        ensures
            final(self).input() == old(self).input(),
            final(self).wf(),
            match r {
                Ok(v) => {
                    &&& old(self).pos() + 2 <= old(self).input().len()
                    &&& v == i16v(
                        old(self).input()[old(self).pos()],
                        old(self).input()[old(self).pos() + 1],
                    )
                    &&& final(self).pos() == old(self).pos() + 2
                },
                Err(e) => {
                    &&& *final(self) == *old(self)
                    &&& old(self).pos() + 2 > old(self).input().len()
                    &&& e.kind == ErrorKind::Truncated
                    &&& e.phase == phase
                },
            },
    {
        match self.read_u16(phase) {
            Ok(v) => Ok(v as i16),
            Err(e) => Err(e),
        }
    }

    /// Read a big-endian unsigned 32-bit scalar and advance by four.
    pub fn read_u32(&mut self, phase: Phase) -> (r: Result<u32, ParseError>)
        requires
            old(self).wf(),
        ensures
            final(self).input() == old(self).input(),
            final(self).wf(),
            match r {
                Ok(v) => {
                    &&& old(self).pos() + 4 <= old(self).input().len()
                    &&& v == u32v(
                        old(self).input()[old(self).pos()],
                        old(self).input()[old(self).pos() + 1],
                        old(self).input()[old(self).pos() + 2],
                        old(self).input()[old(self).pos() + 3],
                    )
                    &&& final(self).pos() == old(self).pos() + 4
                },
                Err(e) => {
                    &&& *final(self) == *old(self)
                    &&& old(self).pos() + 4 > old(self).input().len()
                    &&& e.kind == ErrorKind::Truncated
                    &&& e.phase == phase
                },
            },
    {
        if 4 <= self.bytes.len() - self.offset {
            let b0 = self.bytes[self.offset];
            let b1 = self.bytes[self.offset + 1];
            let b2 = self.bytes[self.offset + 2];
            let b3 = self.bytes[self.offset + 3];
            self.offset = self.offset + 4;
            Ok((b0 as u32) * 0x1000000 + (b1 as u32) * 0x10000 + (b2 as u32) * 0x100 + (b3 as u32))
        } else {
            Err(ParseError::new(phase, ErrorKind::Truncated, self.offset, 0))
        }
    }

    /// Read a big-endian signed 32-bit scalar and advance by four.
    pub fn read_i32(&mut self, phase: Phase) -> (r: Result<i32, ParseError>)
        requires
            old(self).wf(),
        ensures
            final(self).input() == old(self).input(),
            final(self).wf(),
            match r {
                Ok(v) => {
                    &&& old(self).pos() + 4 <= old(self).input().len()
                    &&& v == i32v(
                        old(self).input()[old(self).pos()],
                        old(self).input()[old(self).pos() + 1],
                        old(self).input()[old(self).pos() + 2],
                        old(self).input()[old(self).pos() + 3],
                    )
                    &&& final(self).pos() == old(self).pos() + 4
                },
                Err(e) => {
                    &&& *final(self) == *old(self)
                    &&& old(self).pos() + 4 > old(self).input().len()
                    &&& e.kind == ErrorKind::Truncated
                    &&& e.phase == phase
                },
            },
    {
        match self.read_u32(phase) {
            Ok(v) => Ok(v as i32),
            Err(e) => Err(e),
        }
    }

    /// The in-game engine reads signed 32-bit words; `read_word` is that
    /// read under its traditional name.
    pub fn read_word(&mut self, phase: Phase) -> (r: Result<i32, ParseError>)
        requires
            old(self).wf(),
        ensures
            final(self).input() == old(self).input(),
            final(self).wf(),
            match r {
                Ok(v) => {
                    &&& old(self).pos() + 4 <= old(self).input().len()
                    &&& v == i32v(
                        old(self).input()[old(self).pos()],
                        old(self).input()[old(self).pos() + 1],
                        old(self).input()[old(self).pos() + 2],
                        old(self).input()[old(self).pos() + 3],
                    )
                    &&& final(self).pos() == old(self).pos() + 4
                },
                Err(e) => {
                    &&& *final(self) == *old(self)
                    &&& old(self).pos() + 4 > old(self).input().len()
                },
            },
    {
        self.read_i32(phase)
    }

    /// Read `n` raw bytes and advance by `n`.
    pub fn read_u8_n(&mut self, n: usize, phase: Phase) -> (r: Result<Vec<u8>, ParseError>)
        requires
            old(self).wf(),
        ensures
            final(self).input() == old(self).input(),
            final(self).wf(),
            match r {
                Ok(v) => {
                    &&& old(self).pos() + n <= old(self).input().len()
                    &&& v@ == old(self).input().subrange(old(self).pos(), old(self).pos() + n)
                    &&& final(self).pos() == old(self).pos() + n
                },
                Err(e) => {
                    &&& *final(self) == *old(self)
                    &&& old(self).pos() + n > old(self).input().len()
                    &&& e.kind == ErrorKind::Truncated
                    &&& e.phase == phase
                },
            },
    {
        if n <= self.bytes.len() && self.offset <= self.bytes.len() - n {
            let mut out: Vec<u8> = Vec::new();
            let mut i: usize = 0;
            while i < n
                invariant
                    i <= n,
                    self.offset + n <= self.bytes@.len(),
                    self.bytes@.len() <= usize::MAX,
                    out@ =~= self.bytes@.subrange(self.offset as int, self.offset + i),
                decreases n - i,
            {
                out.push(self.bytes[self.offset + i]);
                i = i + 1;
                assert(out@ =~= self.bytes@.subrange(self.offset as int, self.offset + i));
            }
            let ghost start = self.offset as int;
            self.offset = self.offset + n;
            Ok(out)
        } else {
            Err(ParseError::new(phase, ErrorKind::Truncated, self.offset, 0))
        }
    }

    /// The next byte, without consuming it; nothing at the end of the
    /// input.
    pub fn peek(&self) -> (r: Option<u8>)
        requires
            self.wf(),
        ensures
            r matches Some(v) ==> self.pos() < self.input().len() && v == self.input()[self.pos()],
            r is None ==> self.pos() == self.input().len(),
    {
        if self.offset < self.bytes.len() {
            Some(self.bytes[self.offset])
        } else {
            None
        }
    }

    /// Peek the next byte; if it equals `expected`, consume it and report
    /// success, otherwise leave the cursor untouched.  A peek past the end
    /// of the input reports failure.
    ///
    /// This is the guard-byte combinator: the formats use a single byte both as
    /// a "present?" flag and as a variant discriminator, and the caller
    /// runs the gated sub-parser exactly when this returns true.
    pub fn read_if_expected(&mut self, expected: u8) -> (r: bool)
        requires
            old(self).wf(),
        ensures
            final(self).input() == old(self).input(),
            final(self).wf(),
            r == (old(self).pos() < old(self).input().len()
                && old(self).input()[old(self).pos()] == expected),
            r ==> final(self).pos() == old(self).pos() + 1,
            !r ==> *final(self) == *old(self),
    {
        if self.offset < self.bytes.len() && self.bytes[self.offset] == expected {
            self.offset = self.offset + 1;
            true
        } else {
            false
        }
    }
}

} // verus!
