//! A seekable cursor over bytes held in memory.
//!
//! The cursor is the only source that decoders read from. A read either
//! succeeds and moves the cursor forward by exactly what it took, or fails
//! with [`DecodeError::Io`] and leaves the cursor where it stood; a seek
//! either lands on its target or fails in the same way.
//! Unlike a cursor over a file, this one cannot stand past the end of its
//! data: a seek that aims there fails.

use vstd::prelude::*;
use crate::error::DecodeError;

verus! {

/// What an operation on a stream comes to: what it returns, and where it
/// leaves the cursor.
pub struct Outcome<T> {
    pub result: Result<T, DecodeError>,
    pub position: nat,
}

impl<T> Outcome<T> {
    /// The failure of an operation, as the outcome of a larger one that it
    /// was a step of: the same error at the same place.
    pub open spec fn failure<U>(self) -> Outcome<U>
        recommends
            self.result is Err,
    {
        Outcome { result: Err(self.result->Err_0), position: self.position }
    }
}

/// The number that the four bytes of `bytes` from index `at` on spell,
/// most significant byte first.
pub open spec fn be_u32_at(bytes: Seq<u8>, at: nat) -> u32 {
    let first = at as int;
    (bytes[first] * 0x100_0000 + bytes[first + 1] * 0x1_0000 + bytes[first + 2] * 0x100
        + bytes[first + 3]) as u32
}

/// Reading a big-endian `u32` with the cursor at `start`: it is there with
/// all four bytes, or the read fails and the cursor stays.
pub open spec fn reading_u32(bytes: Seq<u8>, start: nat) -> Outcome<u32> {
    if start + 4 <= bytes.len() {
        Outcome { result: Ok(be_u32_at(bytes, start)), position: start + 4 }
    } else {
        Outcome { result: Err(DecodeError::Io), position: start }
    }
}

/// Reading `count` raw bytes with the cursor at `start`.
pub open spec fn reading_bytes(bytes: Seq<u8>, start: nat, count: nat) -> Outcome<Seq<u8>> {
    if start + count <= bytes.len() {
        Outcome {
            result: Ok(bytes.subrange(start as int, (start + count) as int)),
            position: start + count,
        }
    } else {
        Outcome { result: Err(DecodeError::Io), position: start }
    }
}

/// Moving the cursor from `start` to `target`: the target lies within the
/// stream (its end included), or the seek fails and the cursor stays.
pub open spec fn seeking(bytes: Seq<u8>, start: nat, target: int) -> Outcome<nat> {
    if 0 <= target <= bytes.len() {
        Outcome { result: Ok(target as nat), position: target as nat }
    } else {
        Outcome { result: Err(DecodeError::Io), position: start }
    }
}

/// Where a seek aims.
#[derive(Clone, Copy, Debug, PartialEq, Eq)]
pub enum SeekFrom {
    /// So many bytes after the start of the stream.
    Start(u64),
    /// So many bytes after (or, if negative, before) the end of the stream.
    End(i64),
    /// So many bytes after (or, if negative, before) the cursor.
    Current(i64),
}

impl SeekFrom {
    /// The absolute position that a seek aims at, in a stream of `len`
    /// bytes with the cursor at `position`.
    pub open spec fn target(self, len: nat, position: nat) -> int {
        match self {
            SeekFrom::Start(offset) => offset as int,
            SeekFrom::End(offset) => len + offset,
            SeekFrom::Current(offset) => position + offset,
        }
    }
}

/// The bytes of a stream and the place of the cursor in them.
pub struct ReadSeekerView {
    pub bytes: Seq<u8>,
    pub position: nat,
}

/// A cursor over a buffer of bytes.
pub struct ReadSeeker {
    data: Vec<u8>,
    position: usize,
}

impl View for ReadSeeker {
    type V = ReadSeekerView;

    closed spec fn view(&self) -> ReadSeekerView {
        ReadSeekerView { bytes: self.data@, position: self.position as nat }
    }
}

impl ReadSeeker {
    /// The cursor never stands past the end of the data.
    #[verifier::type_invariant]
    spec fn in_bounds(&self) -> bool {
        self.position <= self.data.len()
    }

    /// A cursor at the start of `data`.
    pub fn new(data: Vec<u8>) -> (stream: ReadSeeker)
        ensures
            stream@.bytes == data@,
            stream@.position == 0,
    {
        ReadSeeker { data, position: 0 }
    }

    /// Where the cursor stands, in bytes from the start.
    pub fn position(&self) -> (position: u64)
        ensures
            position == self@.position,
            position <= self@.bytes.len(),
    {
        proof {
            use_type_invariant(self);
        }
        self.position as u64
    }

    /// Reads a `u32`, most significant byte first.
    pub fn be_read_u32(&mut self) -> (result: Result<u32, DecodeError>)
        ensures
            final(self)@.bytes == old(self)@.bytes,
            final(self)@.position == reading_u32(old(self)@.bytes, old(self)@.position).position,
            result == reading_u32(old(self)@.bytes, old(self)@.position).result,
    {
        proof {
            use_type_invariant(&*self);
        }
        if self.data.len() - self.position < 4 {
            return Err(DecodeError::Io);
        }
        let at: usize = self.position;
        let b0: u32 = self.data[at] as u32;
        let b1: u32 = self.data[at + 1] as u32;
        let b2: u32 = self.data[at + 2] as u32;
        let b3: u32 = self.data[at + 3] as u32;
        self.position = at + 4;
        Ok(b0 * 0x100_0000 + b1 * 0x1_0000 + b2 * 0x100 + b3)
    }

    /// Reads the next `count` bytes as they are.
    pub fn read_bytes(&mut self, count: usize) -> (result: Result<Vec<u8>, DecodeError>)
        ensures
            final(self)@.bytes == old(self)@.bytes,
            final(self)@.position == reading_bytes(
                old(self)@.bytes,
                old(self)@.position,
                count as nat,
            ).position,
            match result {
                Ok(taken) => reading_bytes(old(self)@.bytes, old(self)@.position, count as nat).result
                    == Ok::<Seq<u8>, DecodeError>(taken@),
                Err(error) => reading_bytes(
                    old(self)@.bytes,
                    old(self)@.position,
                    count as nat,
                ).result == Err::<Seq<u8>, DecodeError>(error),
            },
    {
        proof {
            use_type_invariant(&*self);
        }
        if self.data.len() - self.position < count {
            return Err(DecodeError::Io);
        }
        let start: usize = self.position;
        let mut taken: Vec<u8> = Vec::new();
        let mut copied: usize = 0;
        while copied < count
            invariant
                copied <= count,
                start + count <= self.data.len(),
                taken@ == self.data@.subrange(start as int, start + copied),
            decreases count - copied,
        {
            taken.push(self.data[start + copied]);
            copied = copied + 1;
        }
        self.position = start + count;
        Ok(taken)
    }

    /// Moves the cursor to where `from` aims, and returns the new position.
    ///
    /// The target has to lie within the stream, its end included.
    pub fn seek(&mut self, from: SeekFrom) -> (result: Result<u64, DecodeError>)
        ensures
            final(self)@.bytes == old(self)@.bytes,
            final(self)@.position == seeking(
                old(self)@.bytes,
                old(self)@.position,
                from.target(old(self)@.bytes.len(), old(self)@.position),
            ).position,
            match result {
                Ok(position) => seeking(
                    old(self)@.bytes,
                    old(self)@.position,
                    from.target(old(self)@.bytes.len(), old(self)@.position),
                ).result == Ok::<nat, DecodeError>(position as nat),
                Err(error) => seeking(
                    old(self)@.bytes,
                    old(self)@.position,
                    from.target(old(self)@.bytes.len(), old(self)@.position),
                ).result == Err::<nat, DecodeError>(error),
            },
    {
        proof {
            use_type_invariant(&*self);
        }
        let len: i128 = self.data.len() as i128;
        let target: i128 = match from {
            SeekFrom::Start(offset) => offset as i128,
            SeekFrom::End(offset) => len + offset as i128,
            SeekFrom::Current(offset) => self.position as i128 + offset as i128,
        };
        if 0 <= target && target <= len {
            self.position = target as usize;
            Ok(target as u64)
        } else {
            Err(DecodeError::Io)
        }
    }
}

} // verus!
