//! Fingerprints: the 64-bit SeaHash of a sequence of field values, each value
//! followed by a zero byte.

use seahash::SeaHasher;
use std::hash::Hasher;
use vstd::prelude::*;
use vstd::utf8::encode_utf8;

verus! {

/// `seahash::SeaHasher`, the streaming hasher, carried as an opaque value.
#[verifier::external_type_specification]
#[verifier::external_body]
pub struct ExSeaHasher(SeaHasher);

/// The bytes that a hasher has been fed since it was created, oldest first.
pub uninterp spec fn fed_bytes(hasher: SeaHasher) -> Seq<u8>;

/// The SeaHash digest, under the default seeds, of a byte string.
pub uninterp spec fn sea_hash(bytes: Seq<u8>) -> u64;

/// `SeaHasher::default`: a hasher with the default seeds that has been fed
/// nothing yet.
#[verifier::external_body]
fn new_hasher() -> (hasher: SeaHasher)
    ensures
        fed_bytes(hasher) == Seq::<u8>::empty(),
{
    SeaHasher::default()
}

/// `Hasher::write` of `SeaHasher`: the hasher is a stream, so the bytes are
/// appended to what it was fed before, however they are split into calls.
#[verifier::external_body]
fn feed(hasher: &mut SeaHasher, bytes: &[u8])
    ensures
        fed_bytes(*final(hasher)) == fed_bytes(*old(hasher)) + bytes@,
{
    hasher.write(bytes)
}

/// `Hasher::write_u8` of `SeaHasher`: feeds the single byte.
#[verifier::external_body]
fn feed_byte(hasher: &mut SeaHasher, byte: u8)
    ensures
        fed_bytes(*final(hasher)) == fed_bytes(*old(hasher)).push(byte),
{
    hasher.write_u8(byte)
}

/// `Hasher::finish` of `SeaHasher`: the digest depends on nothing but the
/// bytes fed so far, and leaves the hasher as it is.
#[verifier::external_body]
fn digest(hasher: &SeaHasher) -> (key: u64)
    ensures
        key == sea_hash(fed_bytes(*hasher)),
{
    hasher.finish()
}

/// The bytes that stand for a sequence of field values: the UTF-8 bytes of
/// each value, in order, each followed by one zero byte.
pub open spec fn key_bytes(values: Seq<Seq<char>>) -> Seq<u8>
    decreases values.len(),
{
    if values.len() == 0 {
        Seq::<u8>::empty()
    } else {
        key_bytes(values.drop_last()) + encode_utf8(values.last()).push(0u8)
    }
}

/// The fingerprint of a sequence of field values.
pub open spec fn fingerprint(values: Seq<Seq<char>>) -> u64 {
    sea_hash(key_bytes(values))
}

/// A fingerprint under construction: the values fed so far.
pub struct Fingerprinter {
    hasher: SeaHasher,
    values: Ghost<Seq<Seq<char>>>,
}

impl Fingerprinter {
    /// The values fed so far, oldest first.
    pub closed spec fn view(&self) -> Seq<Seq<char>> {
        self.values@
    }

    pub closed spec fn wf(&self) -> bool {
        fed_bytes(self.hasher) == key_bytes(self.values@)
    }

    /// A fingerprinter that has been fed no value.
    pub fn new() -> (fp: Fingerprinter)
        ensures
            fp.wf(),
            fp@ == Seq::<Seq<char>>::empty(),
    {
        Fingerprinter { hasher: new_hasher(), values: Ghost(Seq::empty()) }
    }

    /// Feeds one field value, followed by the separator.
    pub fn push(&mut self, value: &str)
        requires
            old(self).wf(),
        ensures
            final(self).wf(),
            final(self)@ == old(self)@.push(value@),
    {
        let bytes = value.as_bytes();
        feed(&mut self.hasher, bytes);
        feed_byte(&mut self.hasher, 0u8);
        proof {
            let before = self.values@;
            self.values@ = before.push(value@);
            assert(before.push(value@).drop_last() =~= before);
            assert(fed_bytes(self.hasher) =~= key_bytes(before) + encode_utf8(value@).push(0u8));
        }
    }

    /// The fingerprint of the values fed so far.
    pub fn finish(&self) -> (key: u64)
        requires
            self.wf(),
        ensures
            key == fingerprint(self@),
    {
        digest(&self.hasher)
    }
}

} // verus!
