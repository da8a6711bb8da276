//! Per-file read progress: the state machine of one file being checksummed.
//!
//! A file's total length is read once and never changes; the cursor counts
//! the bytes consumed so far and only grows; the accumulator has absorbed
//! exactly the bytes behind the cursor. Each read asks for the smaller of
//! the remaining bytes and the chunk ceiling, and a completion may deliver
//! fewer bytes than were asked for (a short read): only the delivered count
//! advances the cursor.

use vstd::prelude::*;

use crate::digest::Accumulator;
use crate::digest::md5_of;
use crate::BLOCK_SIZE;
use crate::MAX_READ_SIZE;

verus! {

/// The number of bytes the next read of a file of length `file_len` at
/// cursor `position` asks for: the remaining bytes, capped at the chunk
/// ceiling.
pub open spec fn spec_chunk_len(file_len: u64, position: u64) -> int {
    if file_len - position <= MAX_READ_SIZE {
        file_len - position
    } else {
        MAX_READ_SIZE as int
    }
}

/// `len` rounded up to the next multiple of the direct-I/O block size.
pub open spec fn spec_round_up_block(len: int) -> int {
    if len % (BLOCK_SIZE as int) == 0 {
        len
    } else {
        len + BLOCK_SIZE - (len % (BLOCK_SIZE as int))
    }
}

/// Round a read length up to the block size, for direct I/O. The ceiling is
/// itself a multiple of the block size, so a capped length stays capped.
pub fn round_up_block(len: usize) -> (r: usize)
    requires
        len <= MAX_READ_SIZE,
    ensures
        r == spec_round_up_block(len as int),
        len <= r <= MAX_READ_SIZE,
        r % BLOCK_SIZE == 0,
{
    let rem = len % BLOCK_SIZE;
    if rem == 0 {
        len
    } else {
        proof {
            assert(len - rem + BLOCK_SIZE <= MAX_READ_SIZE && (len - rem + BLOCK_SIZE) % (
            BLOCK_SIZE as int) == 0) by (nonlinear_arith)
                requires
                    0 < rem < BLOCK_SIZE,
                    rem as int == (len as int) % (BLOCK_SIZE as int),
                    0 <= len <= MAX_READ_SIZE,
                    MAX_READ_SIZE == 16 * BLOCK_SIZE,
                    BLOCK_SIZE == 4096,
            ;
        }
        len - rem + BLOCK_SIZE
    }
}

/// Whether a read of a file is finished: `true` exactly when the cursor has
/// reached the file's length.
pub enum Progress {
    /// The cursor reached the end: the digest may be taken.
    Finished,
    /// More bytes remain: another read must be submitted.
    Resubmit,
}

/// The read progress of one file.
pub struct FileReadState {
    path: String,
    file_len: u64,
    position: u64,
    acc: Accumulator,
    file_idx: u32,
}

impl FileReadState {
    /// The path the file was opened under.
    pub closed spec fn path(&self) -> Seq<char> {
        self.path@
    }

    /// The file's total byte length, fixed at creation.
    pub closed spec fn file_len(&self) -> u64 {
        self.file_len
    }

    /// How many bytes have been consumed so far.
    pub closed spec fn position(&self) -> u64 {
        self.position
    }

    /// The bytes fed to the digest accumulator so far, in cursor order.
    pub closed spec fn absorbed(&self) -> Seq<u8> {
        self.acc@
    }

    /// The number the file was registered under with the kernel interface.
    pub closed spec fn file_idx(&self) -> u32 {
        self.file_idx
    }

    /// The cursor never passes the end, and the accumulator has absorbed
    /// exactly the bytes behind the cursor.
    pub open spec fn wf(&self) -> bool {
        &&& self.position() <= self.file_len()
        &&& self.absorbed().len() == self.position()
    }

    /// A fresh state: cursor at the start, nothing absorbed.
    pub fn new(path: String, file_len: u64, file_idx: u32) -> (st: FileReadState)
        ensures
            st.wf(),
            st.path() == path@,
            st.file_len() == file_len,
            st.position() == 0,
            st.absorbed() == Seq::<u8>::empty(),
            st.file_idx() == file_idx,
    {
        FileReadState { path, file_len, position: 0, acc: Accumulator::new(), file_idx }
    }

    /// How many bytes the next read should ask for.
    pub fn needed_len(&self) -> (r: usize)
        requires
            self.wf(),
        ensures
            r == spec_chunk_len(self.file_len(), self.position()),
            r <= MAX_READ_SIZE,
    {
        let remaining = self.file_len - self.position;
        if remaining <= MAX_READ_SIZE as u64 {
            remaining as usize
        } else {
            MAX_READ_SIZE
        }
    }

    /// Consume the bytes one completion delivered: feed them to the digest
    /// accumulator in cursor order and advance the cursor by exactly their
    /// count, which may be less than was asked for.
    pub fn on_completion(&mut self, bytes: &[u8]) -> (r: Progress)
        requires
            old(self).wf(),
            old(self).position() + bytes@.len() <= old(self).file_len(),
        ensures
            final(self).wf(),
            final(self).path() == old(self).path(),
            final(self).file_len() == old(self).file_len(),
            final(self).file_idx() == old(self).file_idx(),
            final(self).absorbed() == old(self).absorbed() + bytes@,
            final(self).position() == old(self).position() + bytes@.len(),
            r is Finished <==> final(self).position() == final(self).file_len(),
    {
        self.acc.update(bytes);
        self.position = self.position + bytes.len() as u64;
        if self.position == self.file_len {
            Progress::Finished
        } else {
            Progress::Resubmit
        }
    }

    /// The current cursor, as a value.
    pub fn cursor(&self) -> (r: u64)
        ensures
            r == self.position(),
    {
        self.position
    }

    /// The file's total length, as a value.
    pub fn total_len(&self) -> (r: u64)
        ensures
            r == self.file_len(),
    {
        self.file_len
    }

    /// The number the file was registered under, as a value.
    pub fn file_index(&self) -> (r: u32)
        ensures
            r == self.file_idx(),
    {
        self.file_idx
    }

    /// Give up the state of an abandoned file for its path alone.
    pub fn into_path(self) -> (r: String)
        ensures
            r@ == self.path(),
    {
        self.path
    }

    /// Give up the state of a finished file for its path and digest.
    pub fn into_digest(self) -> (r: (String, Vec<u8>))
        ensures
            r.0@ == self.path(),
            r.1@ == md5_of(self.absorbed()),
            r.1@.len() == 16,
    {
        (self.path, self.acc.finalize())
    }
}

} // verus!
