//! The streaming digest accumulator.
//!
//! The MD5 state itself comes from the `md5` crate and is opaque here: all
//! that the contracts track is the sequence of bytes the state has absorbed,
//! and the digest is named as an uninterpreted function of that sequence.

use vstd::prelude::*;

verus! {

/// Declares the `md5` crate's hasher state so it can stand in fields and
/// signatures; the value is opaque to the verifier.
#[verifier::external_type_specification]
#[verifier::external_body]
pub struct ExMd5(md5::Md5);

/// The bytes a hasher state has absorbed so far, in order.
pub uninterp spec fn absorbed(ctx: md5::Md5) -> Seq<u8>;

/// The 16-byte MD5 digest of a byte sequence.
pub uninterp spec fn md5_of(bytes: Seq<u8>) -> Seq<u8>;

/// Relies on `md5::Digest::new` for `Md5`: a fresh hasher has absorbed
/// nothing.
#[verifier::external_body]
fn md5_new() -> (c: md5::Md5)
    ensures
        absorbed(c) == Seq::<u8>::empty(),
{
    <md5::Md5 as md5::Digest>::new()
}

/// Relies on `md5::Digest::update` for `Md5`: the given bytes are absorbed,
/// in order, after everything absorbed before.
#[verifier::external_body]
fn md5_update(c: &mut md5::Md5, bytes: &[u8])
    ensures
        absorbed(*final(c)) == absorbed(*old(c)) + bytes@,
{
    md5::Digest::update(c, bytes)
}

/// Relies on `md5::Digest::finalize` for `Md5`: the result is the 16-byte
/// MD5 digest of everything the hasher absorbed, a function of those bytes
/// alone.
#[verifier::external_body]
fn md5_finalize(c: md5::Md5) -> (r: Vec<u8>)
    ensures
        r@ == md5_of(absorbed(c)),
        r@.len() == 16,
{
    <md5::Md5 as md5::Digest>::finalize(c).as_slice().to_vec()
}

/// A streaming digest accumulator. Its view is the sequence of bytes fed to
/// it so far; `finalize` returns the MD5 digest of that sequence.
pub struct Accumulator {
    ctx: md5::Md5,
}

impl View for Accumulator {
    type V = Seq<u8>;

    closed spec fn view(&self) -> Seq<u8> {
        absorbed(self.ctx)
    }
}

impl Accumulator {
    /// A fresh accumulator that has been fed nothing.
    pub fn new() -> (r: Accumulator)
        ensures
            r@ == Seq::<u8>::empty(),
    {
        Accumulator { ctx: md5_new() }
    }

    /// Feed the next bytes, in order.
    pub fn update(&mut self, bytes: &[u8])
        ensures
            final(self)@ == old(self)@ + bytes@,
    {
        md5_update(&mut self.ctx, bytes);
    }

    /// The MD5 digest of everything fed so far.
    pub fn finalize(self) -> (r: Vec<u8>)
        ensures
            r@ == md5_of(self@),
            r@.len() == 16,
    {
        md5_finalize(self.ctx)
    }
}

/// The MD5 digest of a whole byte slice, fed in one call.
pub fn digest_bytes(bytes: &[u8]) -> (r: Vec<u8>)
    ensures
        r@ == md5_of(bytes@),
        r@.len() == 16,
{
    let mut acc = Accumulator::new();
    acc.update(bytes);
    proof {
        assert(acc@ =~= bytes@);
    }
    acc.finalize()
}

/// The concatenation of a sequence of chunks, in order.
pub open spec fn concat_of(chunks: Seq<Seq<u8>>) -> Seq<u8>
    decreases chunks.len(),
{
    if chunks.len() == 0 {
        Seq::empty()
    } else {
        concat_of(chunks.drop_last()) + chunks.last()
    }
}

/// Chunking invariance: feeding the chunks one at a time yields the digest
/// of their concatenation, exactly as if the whole sequence had been fed in
/// one call.
pub fn digest_chunks(chunks: &Vec<Vec<u8>>) -> (r: Vec<u8>)
    ensures
        r@ == md5_of(concat_of(chunks@.map_values(|c: Vec<u8>| c@))),
        r@.len() == 16,
{
    let ghost m = chunks@.map_values(|c: Vec<u8>| c@);
    let mut acc = Accumulator::new();
    proof {
        assert(acc@ =~= concat_of(m.take(0)));
    }
    let n = chunks.len();
    for i in 0..n
        invariant
            n == chunks@.len(),
            m == chunks@.map_values(|c: Vec<u8>| c@),
            acc@ == concat_of(m.take(i as int)),
    {
        acc.update(chunks[i].as_slice());
        proof {
            assert(m.take(i + 1).drop_last() =~= m.take(i as int));
            assert(m.take(i + 1).last() == chunks@[i as int]@);
        }
    }
    proof {
        assert(m.take(n as int) =~= m);
    }
    acc.finalize()
}

} // verus!
