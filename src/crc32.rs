use vstd::prelude::*;
use crate::text::{hex_of, push_hex};

verus! {

/// The CRC-32 (IEEE, reflected polynomial `0xEDB88320`) register after one
/// more byte has been folded into it.
pub uninterp spec fn crc32_ieee_byte(crc: u32, byte: u8) -> u32;

/// The register after folding `bytes` into it, one byte at a time, in order.
pub open spec fn crc32_ieee(crc: u32, bytes: Seq<u8>) -> u32
    decreases bytes.len(),
{
    if bytes.len() == 0 {
        crc
    } else {
        crc32_ieee(crc32_ieee_byte(crc, bytes[0]), bytes.drop_first())
    }
}

/// The register after folding each chunk into it in turn.
pub open spec fn crc32_ieee_chunks(crc: u32, chunks: Seq<Seq<u8>>) -> u32
    decreases chunks.len(),
{
    if chunks.len() == 0 {
        crc
    } else {
        crc32_ieee_chunks(crc32_ieee(crc, chunks[0]), chunks.drop_first())
    }
}

/// Relies on `crc::crc32::update` with `crc::crc32::IEEE_TABLE`: the function
/// inverts the register, runs one table lookup per byte in order, and inverts
/// it back, so its result on a slice is its one-byte result applied to each
/// byte in turn.
#[verifier::external_body]
fn crc32_ieee_update(crc: u32, bytes: &[u8]) -> (r: u32)
    ensures
        r == crc32_ieee(crc, bytes@),
        bytes@.len() == 1 ==> r == crc32_ieee_byte(crc, bytes@[0]),
{
    crc::crc32::update(crc, &crc::crc32::IEEE_TABLE, bytes)
}

/// Folding two pieces one after the other is folding their concatenation.
pub proof fn lemma_crc32_ieee_append(crc: u32, a: Seq<u8>, b: Seq<u8>)
    ensures
        crc32_ieee(crc32_ieee(crc, a), b) == crc32_ieee(crc, a + b),
    decreases a.len(),
{
    if a.len() > 0 {
        lemma_crc32_ieee_append(crc32_ieee_byte(crc, a[0]), a.drop_first(), b);
        assert((a + b).drop_first() =~= a.drop_first() + b);
    } else {
        assert(a + b =~= b);
    }
}

/// The checksum does not depend on how the input is cut into chunks: feeding
/// the chunks one by one gives the checksum of all their bytes at once, so
/// chunks of one byte each and a single chunk give the same value.
pub proof fn lemma_chunking_irrelevant(crc: u32, chunks: Seq<Seq<u8>>)
    ensures
        crc32_ieee_chunks(crc, chunks) == crc32_ieee(crc, chunks.flatten()),
    decreases chunks.len(),
{
    if chunks.len() > 0 {
        lemma_chunking_irrelevant(crc32_ieee(crc, chunks[0]), chunks.drop_first());
        lemma_crc32_ieee_append(crc, chunks[0], chunks.drop_first().flatten());
    }
}

/// A streaming CRC-32 digest: bytes are fed to it in chunks of any size.
#[derive(Copy, Clone, Debug)]
pub struct Crc32Digest(u32);

impl View for Crc32Digest {
    type V = u32;

    closed spec fn view(&self) -> u32 {
        self.0
    }
}

impl Crc32Digest {
    /// A digest that has seen no bytes yet.
    pub fn new() -> (r: Crc32Digest)
        ensures
            r@ == 0,
    {
        Crc32Digest(0)
    }

    /// Folds the next chunk of the input into the digest.
    pub fn update(&mut self, bytes: &[u8])
        ensures
            final(self)@ == crc32_ieee(old(self)@, bytes@),
    {
        self.0 = crc32_ieee_update(self.0, bytes);
    }

    /// The checksum of all bytes fed so far.
    pub fn value(&self) -> (r: u32)
        ensures
            r == self@,
    {
        self.0
    }

    /// The checksum in lowercase hexadecimal, without leading zeros.
    pub fn to_hex(&self) -> (r: String)
        ensures
            r@ == hex_of(self@ as nat),
    {
        let mut r = String::new();
        push_hex(&mut r, self.0);
        assert(r@ =~= hex_of(self@ as nat));
        r
    }
}

impl Default for Crc32Digest {
    fn default() -> (r: Crc32Digest)
        ensures
            r@ == 0,
    {
        Crc32Digest::new()
    }
}

} // verus!
