//! Content fingerprints for source units.
//!
//! A fingerprint is the lowercase hexadecimal rendering of a fast
//! non-cryptographic digest of the source bytes followed by the
//! pipeline's own control bytes. Salting with the control bytes makes
//! every cached artifact invalid as soon as the pipeline itself
//! changes, so the cache can never serve output of stale pipeline
//! logic.
use vstd::prelude::*;

verus! {

/// The digest that the outside hash function computes over a byte
/// stream: a 32-bit value, given here zero-extended to 64 bits.
pub uninterp spec fn xxhash32_of(s: Seq<u8>) -> u64;

/// Relies on twox_hash::XxHash32 through std's Hasher: the digest
/// depends only on the seed (0, from Default) and on the byte stream,
/// regardless of how the stream is split across write calls, and
/// finish zero-extends the 32-bit digest to 64 bits.
#[verifier::external_body]
fn xxhash32(data: &Vec<u8>, salt: &Vec<u8>) -> (r: u64)
    ensures
        r == xxhash32_of(data@ + salt@),
        r <= 0xFFFF_FFFFu64,
{
    let mut hasher = twox_hash::XxHash32::default();
    std::hash::Hasher::write(&mut hasher, data.as_slice());
    std::hash::Hasher::write(&mut hasher, salt.as_slice());
    std::hash::Hasher::finish(&hasher)
}

/// The control bytes of this pipeline revision. Any change here
/// changes every fingerprint and so invalidates the whole cache.
pub open spec fn spec_pipeline_salt() -> Seq<u8> {
    seq![0x66u8, 0x70u8, 0x2Du8, 0x31u8]
}

/// The control bytes of this pipeline revision, as a vector.
pub fn pipeline_salt() -> (s: Vec<u8>)
    ensures
        s@ == spec_pipeline_salt(),
{
    let mut s: Vec<u8> = Vec::new();
    s.push(0x66);
    s.push(0x70);
    s.push(0x2D);
    s.push(0x31);
    proof {
        assert(s@ =~= spec_pipeline_salt());
    }
    s
}

/// The ASCII byte of one lowercase hexadecimal digit.
pub open spec fn hex_digit(d: nat) -> u8
    recommends
        d < 16,
{
    if d < 10 {
        (0x30 + d) as u8
    } else {
        (0x57 + d) as u8
    }
}

/// The minimal lowercase hexadecimal rendering of a number, most
/// significant digit first; 0 renders as the single digit "0".
pub open spec fn hex_of(n: nat) -> Seq<u8>
    decreases n,
{
    if n < 16 {
        seq![hex_digit(n)]
    } else {
        hex_of(n / 16) + seq![hex_digit(n % 16)]
    }
}

/// Render a number in minimal lowercase hexadecimal.
pub fn hex_bytes(n: u64) -> (r: Vec<u8>)
    ensures
        r@ == hex_of(n as nat),
    decreases n,
{
    if n < 16 {
        let mut r: Vec<u8> = Vec::new();
        let d = n as u8;
        if d < 10 {
            r.push(0x30 + d);
        } else {
            r.push(0x57 + d);
        }
        proof {
            assert(r@ =~= hex_of(n as nat));
        }
        r
    } else {
        let mut r = hex_bytes(n / 16);
        let d = (n % 16) as u8;
        if d < 10 {
            r.push(0x30 + d);
        } else {
            r.push(0x57 + d);
        }
        proof {
            assert(r@ =~= hex_of(n as nat));
        }
        r
    }
}

/// The fingerprint of one source unit's bytes: the hexadecimal
/// rendering of the salted digest.
pub open spec fn spec_fingerprint(data: Seq<u8>) -> Seq<u8> {
    hex_of(xxhash32_of(data + spec_pipeline_salt()) as nat)
}

/// Compute the content fingerprint of one source unit.
pub fn fingerprint(data: &Vec<u8>) -> (r: Vec<u8>)
    ensures
        r@ == spec_fingerprint(data@),
{
    let salt = pipeline_salt();
    let h = xxhash32(data, &salt);
    hex_bytes(h)
}

/// Identical source bytes always fingerprint identically: the digest
/// and its rendering are functions of the bytes and the pipeline's
/// control bytes alone, so the fingerprint is stable across runs and
/// machines for one pipeline revision.
pub proof fn lemma_fingerprint_deterministic(a: Seq<u8>, b: Seq<u8>)
    requires
        a == b,
    ensures
        spec_fingerprint(a) == spec_fingerprint(b),
{
}

} // verus!
