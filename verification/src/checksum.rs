//! Checksums of stored bytes.
use sha2::Digest;
use sha2::Sha256;
use vstd::prelude::*;

verus! {

/// CRC-32 checksum of bytes, as `crc32fast::hash` computes it.
pub uninterp spec fn crc32(bytes: Seq<u8>) -> u32;

/// `crc32fast::hash`: a function of the bytes alone. Which number it is
/// remains unsaid.
pub assume_specification[ crc32fast::hash ](buf: &[u8]) -> (r: u32)
    ensures
        r == crc32(buf@),
;

/// SHA-256 digest of bytes, as `sha2::Sha256` computes it.
pub uninterp spec fn sha256(bytes: Seq<u8>) -> Seq<u8>;

/// The hasher of `sha2`, which takes bytes in piece by piece.
#[verifier::external_body]
#[derive(Debug)]
pub struct Sha256Stream {
    hasher: Sha256,
}

/// The bytes that a hasher has taken in, in their order.
pub uninterp spec fn absorbed(stream: Sha256Stream) -> Seq<u8>;

/// `sha2::Sha256::new`: a hasher that has taken in nothing.
#[verifier::external_body]
fn sha256_new() -> (stream: Sha256Stream)
    ensures
        absorbed(stream) == Seq::<u8>::empty(),
{
    Sha256Stream { hasher: Sha256::new() }
}

/// `sha2::Sha256::update`: takes in bytes behind those before.
#[verifier::external_body]
fn sha256_update(stream: &mut Sha256Stream, bytes: &Vec<u8>)
    ensures
        absorbed(*final(stream)) == absorbed(*old(stream)) + bytes@,
{
    stream.hasher.update(bytes.as_slice());
}

/// `sha2::Sha256::finalize`: 32 bytes that depend on what was taken in alone,
/// not on the pieces it came in. Which bytes they are remains unsaid.
#[verifier::external_body]
fn sha256_finalize(stream: Sha256Stream) -> (digest: Vec<u8>)
    ensures
        digest@ == sha256(absorbed(stream)),
        digest@.len() == 32,
{
    stream.hasher.finalize().to_vec()
}

impl View for Sha256Stream {
    type V = Seq<u8>;

    open spec fn view(&self) -> Seq<u8> {
        absorbed(*self)
    }
}

impl Sha256Stream {
    pub fn new() -> (r: Self)
        ensures
            r@ == Seq::<u8>::empty(),
    {
        sha256_new()
    }

    pub fn update(&mut self, bytes: &Vec<u8>)
        ensures
            final(self)@ == old(self)@ + bytes@,
    {
        sha256_update(self, bytes);
    }

    pub fn finish(self) -> (digest: Vec<u8>)
        ensures
            digest@ == sha256(self@),
            digest@.len() == 32,
    {
        sha256_finalize(self)
    }
}

/// The digest of bytes that are all at hand.
pub fn sha256_of(bytes: &Vec<u8>) -> (digest: Vec<u8>)
    ensures
        digest@ == sha256(bytes@),
        digest@.len() == 32,
{
    let mut stream = Sha256Stream::new();
    stream.update(bytes);
    assert(Seq::<u8>::empty() + bytes@ =~= bytes@);
    stream.finish()
}

} // verus!
