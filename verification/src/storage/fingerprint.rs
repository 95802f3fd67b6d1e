//! Content fingerprints: the lowercase hex SHA3-256 digest of a payload,
//! which is both the deduplication key of a record and its cache file name.

use vstd::prelude::*;

verus! {

/// The SHA3-256 digest (FIPS 202) of a byte string.
pub uninterp spec fn sha3_256(data: Seq<u8>) -> Seq<u8>;

/// Trusted: `sha3::Sha3_256::digest` computes the SHA3-256 digest of `data`,
/// whose output size is fixed at 32 bytes by the type.
#[verifier::external_body]
fn sha3_256_digest(data: &[u8]) -> (r: Vec<u8>)
    ensures
        r@ == sha3_256(data@),
        r@.len() == 32,
{
    <sha3::Sha3_256 as sha3::Digest>::digest(data).to_vec()
}

pub open spec fn hex_digit(d: nat) -> char {
    if d < 10 {
        ((d + 48) as u32) as char
    } else {
        ((d + 87) as u32) as char
    }
}

/// Each byte as two lowercase hex digits, high nibble first (`{:02x}`).
pub open spec fn hex_of(bytes: Seq<u8>) -> Seq<char>
    decreases bytes.len(),
{
    if bytes.len() == 0 {
        Seq::empty()
    } else {
        let b = bytes.last();
        hex_of(bytes.drop_last()) + seq![hex_digit((b / 16) as nat), hex_digit((b % 16) as nat)]
    }
}

pub proof fn lemma_hex_len(bytes: Seq<u8>)
    ensures
        hex_of(bytes).len() == 2 * bytes.len(),
    decreases bytes.len(),
{
    if bytes.len() > 0 {
        lemma_hex_len(bytes.drop_last());
    }
}

fn hex_char(d: u8) -> (c: char)
    requires
        d < 16,
    ensures
        c == hex_digit(d as nat),
{
    if d < 10 {
        let b: u8 = d + 48;
        let c = b as char;
        assert(c == hex_digit(d as nat)) by {
            assert(b as u32 == (d + 48) as u32);
        }
        c
    } else {
        let b: u8 = d + 87;
        let c = b as char;
        assert(c == hex_digit(d as nat)) by {
            assert(b as u32 == (d + 87) as u32);
        }
        c
    }
}

/// Lowercase hex text of `bytes`.
pub fn to_hex(bytes: &[u8]) -> (r: String)
    ensures
        r@ == hex_of(bytes@),
{
    let mut s = String::new();
    let mut i: usize = 0;
    while i < bytes.len()
        invariant
            i <= bytes@.len(),
            s@ == hex_of(bytes@.subrange(0, i as int)),
        decreases bytes@.len() - i,
    {
        let b = bytes[i];
        s.push(hex_char(b / 16));
        s.push(hex_char(b % 16));
        assert(bytes@.subrange(0, i + 1).drop_last() =~= bytes@.subrange(0, i as int));
        i = i + 1;
    }
    assert(bytes@.subrange(0, bytes@.len() as int) =~= bytes@);
    s
}

/// The fingerprint of a payload: lowercase hex SHA3-256, 64 characters.
pub fn content_hash(data: &[u8]) -> (r: String)
    ensures
        r@ == hex_of(sha3_256(data@)),
        r@.len() == 64,
{
    let digest = sha3_256_digest(data);
    proof {
        lemma_hex_len(digest@);
    }
    to_hex(digest.as_slice())
}

} // verus!
