//! Content hashing for freshness checks: the BLAKE3 digest, in lowercase
//! hex, of the concatenated contents of the source files.

use vstd::prelude::*;

verus! {

/// The lowercase hex BLAKE3 digest of `bytes`.
pub uninterp spec fn blake3_hex(bytes: Seq<u8>) -> Seq<char>;

/// Relies on `blake3::hash` and `Hash::to_hex`: the digest of the bytes,
/// as 64 lowercase hex digits.
#[verifier::external_body]
fn digest_hex(bytes: &[u8]) -> (r: String)
    ensures
        r@ == blake3_hex(bytes@),
        r@.len() == 64,
{
    blake3::hash(bytes).to_hex().to_string()
}

/// The contents one after the other.
pub open spec fn concatenation(contents: Seq<Vec<u8>>) -> Seq<u8>
    decreases contents.len(),
{
    if contents.len() == 0 {
        seq![]
    } else {
        concatenation(contents.drop_last()) + contents.last()@
    }
}

/// The content hash of a list of file contents, in the given order.
pub fn content_hash(contents: &Vec<Vec<u8>>) -> (r: String)
    ensures
        r@ == blake3_hex(concatenation(contents@)),
        r@.len() == 64,
{
    let mut all: Vec<u8> = Vec::new();
    let mut i: usize = 0;
    while i < contents.len()
        invariant
            i <= contents@.len(),
            all@ == concatenation(contents@.subrange(0, i as int)),
        decreases contents.len() - i,
    {
        let part = &contents[i];
        let mut j: usize = 0;
        let ghost start = all@;
        while j < part.len()
            invariant
                j <= part@.len(),
                all@ == start + part@.subrange(0, j as int),
            decreases part.len() - j,
        {
            all.push(part[j]);
            proof {
                assert(all@ =~= start + part@.subrange(0, j + 1));
            }
            j = j + 1;
        }
        proof {
            assert(part@.subrange(0, part@.len() as int) =~= part@);
            assert(contents@.subrange(0, i + 1).drop_last() =~= contents@.subrange(0, i as int));
        }
        i = i + 1;
    }
    proof {
        assert(contents@.subrange(0, contents@.len() as int) =~= contents@);
    }
    digest_hex(all.as_slice())
}

} // verus!
