//! Archive checksums: SHA-256, rendered as lower-case hex.

use vstd::prelude::*;
use sha2::Digest;
use crate::codec::{hex_digit, hex_str};

verus! {

/// The SHA-256 digest of a byte sequence.  The digest is a function
/// of the bytes alone; nothing more is assumed about it.
pub uninterp spec fn sha256_of(data: Seq<u8>) -> Seq<u8>;

/// Relies on sha2::Sha256::digest: SHA-256 of the given bytes, which
/// depends on the bytes alone and is 32 bytes long.
#[verifier::external_body]
fn sha256_raw(data: &[u8]) -> (r: Vec<u8>)
    ensures
        r@ == sha256_of(data@),
        r@.len() == 32,
{
    sha2::Sha256::digest(data).to_vec()
}

/// The SHA-256 digest of the given bytes.
pub fn sha256(data: &[u8]) -> (r: Vec<u8>)
    ensures
        r@ == sha256_of(data@),
        r@.len() == 32,
{
    sha256_raw(data)
}

/// Two lower-case hex digits for each byte, in order.
pub open spec fn hex_of(data: Seq<u8>) -> Seq<char>
    decreases data.len(),
{
    if data.len() == 0 {
        Seq::empty()
    } else {
        seq![hex_digit(data[0] as int / 16), hex_digit(data[0] as int % 16)] + hex_of(data.skip(1))
    }
}

/// Hex rendering distributes over concatenation.
proof fn lemma_hex_concat(a: Seq<u8>, b: Seq<u8>)
    ensures
        hex_of(a + b) == hex_of(a) + hex_of(b),
    decreases a.len(),
{
    if a.len() == 0 {
        assert(a + b =~= b);
        assert(hex_of(a) + hex_of(b) =~= hex_of(b));
    } else {
        assert((a + b).skip(1) =~= a.skip(1) + b);
        lemma_hex_concat(a.skip(1), b);
        assert(hex_of(a + b) =~= hex_of(a) + hex_of(b));
    }
}

/// Renders bytes as lower-case hex, exactly `hex_of`.
pub fn to_hex(data: &Vec<u8>) -> (r: String)
    ensures
        r@ == hex_of(data@),
{
    let mut out = String::new();
    let n = data.len();
    let mut i: usize = 0;
    proof {
        assert(hex_of(data@.take(0)) =~= Seq::<char>::empty());
    }
    while i < n
        invariant
            n == data@.len(),
            0 <= i <= n,
            out@ == hex_of(data@.take(i as int)),
        decreases n - i,
    {
        let b = data[i];
        out.append(hex_str(b / 16));
        out.append(hex_str(b % 16));
        proof {
            assert(data@.take(i as int + 1) =~= data@.take(i as int) + seq![data@[i as int]]);
            lemma_hex_concat(data@.take(i as int), seq![data@[i as int]]);
            assert(seq![data@[i as int]].skip(1) =~= Seq::<u8>::empty());
            assert(hex_of(Seq::<u8>::empty()) == Seq::<char>::empty());
            assert(hex_of(seq![data@[i as int]]) =~= seq![
                hex_digit(data@[i as int] as int / 16),
                hex_digit(data@[i as int] as int % 16),
            ]);
            assert(out@ =~= hex_of(data@.take(i as int + 1)));
        }
        i += 1;
    }
    proof {
        assert(data@.take(n as int) =~= data@);
    }
    out
}

/// The checksum stored in an index record: SHA-256 of the archive, as
/// hex text.
pub open spec fn spec_checksum_hex(data: Seq<u8>) -> Seq<char> {
    hex_of(sha256_of(data))
}

/// Computes the hex SHA-256 checksum of archive bytes.
pub fn checksum_hex(data: &[u8]) -> (r: String)
    ensures
        r@ == spec_checksum_hex(data@),
{
    let digest = sha256(data);
    to_hex(&digest)
}

} // verus!
