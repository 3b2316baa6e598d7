//! Board commitments on the host side, and hex rendering of digests.

use vstd::prelude::*;
use vstd::string::StringExecFns;
use sha2::Digest;
use crate::fleet::{one_of_each, Fleet};
use crate::preimage::{lemma_preimage_order_independent, preimage};

verus! {

/// The SHA-256 digest of `data`.
pub uninterp spec fn sha256(data: Seq<u8>) -> Seq<u8>;

/// Calls `sha2::Sha256::digest` on `data` and returns the 32-byte digest.
/// Trusted: the result is the digest that the name `sha256` stands for,
/// applied to exactly the bytes passed in.
#[verifier::external_body]
fn sha256_digest(data: &[u8]) -> (out: [u8; 32])
    ensures
        out@ == sha256(data@),
{
    sha2::Sha256::digest(data).into()
}

/// Host-side SHA-256 of the commitment preimage: `SHA-256(board || salt)`.
pub fn host_commitment(fleet: &Fleet, salt: &[u8; 32]) -> (c: [u8; 32])
    ensures
        c@ == sha256(preimage(fleet.placements@, salt@)),
{
    let preimage = fleet.digest_preimage(salt);
    sha256_digest(preimage.as_slice())
}

/// Law: the commitment does not depend on the order in which the placements
/// are listed: two fleets with one ship of each kind that hold the same
/// placements commit to the same value under the same salt.
pub proof fn lemma_commitment_order_independent(f1: Fleet, f2: Fleet, salt: Seq<u8>)
    requires
        one_of_each(f1.placements@),
        one_of_each(f2.placements@),
        f1.placements@.to_multiset() =~= f2.placements@.to_multiset(),
    ensures
        sha256(preimage(f1.placements@, salt)) == sha256(preimage(f2.placements@, salt)),
{
    lemma_preimage_order_independent(f1, f2, salt);
}

/// The lower-case hex digit for a value below 16.
pub open spec fn hex_char(n: u8) -> char {
    if n < 10 {
        (48 + n) as char
    } else {
        (87 + n) as char
    }
}

/// Two lower-case hex digits per byte, high nibble first.
pub open spec fn hex_spec(bytes: Seq<u8>) -> Seq<char>
    decreases bytes.len(),
{
    if bytes.len() == 0 {
        seq![]
    } else {
        hex_spec(bytes.drop_last()) + seq![
            hex_char(bytes.last() / 16),
            hex_char(bytes.last() % 16),
        ]
    }
}

/// Law: the hex rendering has two digits per byte, and each digit is a
/// lower-case hex digit.
pub proof fn lemma_hex_shape(bytes: Seq<u8>)
    ensures
        hex_spec(bytes).len() == 2 * bytes.len(),
        forall|i: int|
            0 <= i < hex_spec(bytes).len() ==> ('0' <= #[trigger] hex_spec(bytes)[i] <= '9' || 'a'
                <= hex_spec(bytes)[i] <= 'f'),
    decreases bytes.len(),
{
    if bytes.len() > 0 {
        lemma_hex_shape(bytes.drop_last());
        let prev = hex_spec(bytes.drop_last());
        let cur = hex_spec(bytes);
        assert forall|i: int| 0 <= i < cur.len() implies ('0' <= #[trigger] cur[i] <= '9' || 'a' <= cur[i] <= 'f') by {
            if i < prev.len() {
                assert(cur[i] == prev[i]);
            }
        }
    }
}

fn hex_digit(n: u8) -> (s: &'static str)
    requires
        n < 16,
    ensures
        s@ == seq![hex_char(n)],
{
    proof {
        reveal_strlit("0");
        reveal_strlit("1");
        reveal_strlit("2");
        reveal_strlit("3");
        reveal_strlit("4");
        reveal_strlit("5");
        reveal_strlit("6");
        reveal_strlit("7");
        reveal_strlit("8");
        reveal_strlit("9");
        reveal_strlit("a");
        reveal_strlit("b");
        reveal_strlit("c");
        reveal_strlit("d");
        reveal_strlit("e");
        reveal_strlit("f");
    }
    match n {
        0 => "0",
        1 => "1",
        2 => "2",
        3 => "3",
        4 => "4",
        5 => "5",
        6 => "6",
        7 => "7",
        8 => "8",
        9 => "9",
        10 => "a",
        11 => "b",
        12 => "c",
        13 => "d",
        14 => "e",
        _ => "f",
    }
}

/// Lower-case hex rendering of `bytes`, two digits per byte.
pub fn hex(bytes: &[u8]) -> (s: String)
    ensures
        s@ == hex_spec(bytes@),
{
    let mut s = String::new();
    let mut i: usize = 0;
    while i < bytes.len()
        invariant
            i <= bytes@.len(),
            s@ == hex_spec(bytes@.take(i as int)),
        decreases bytes@.len() - i,
    {
        let b = bytes[i];
        s.append(hex_digit(b / 16));
        s.append(hex_digit(b % 16));
        assert(bytes@.take(i + 1).drop_last() =~= bytes@.take(i as int));
        assert(s@ =~= hex_spec(bytes@.take(i + 1)));
        i = i + 1;
    }
    assert(bytes@.take(bytes@.len() as int) =~= bytes@);
    s
}

/// The four bytes of a word, least significant first.
pub open spec fn le_bytes(w: u32) -> Seq<u8> {
    seq![(w & 0xff) as u8, ((w >> 8) & 0xff) as u8, ((w >> 16) & 0xff) as u8, ((w >> 24) & 0xff) as u8]
}

/// The little-endian bytes of the first `n` words of `words`.
pub open spec fn words_le_bytes(words: Seq<u32>, n: int) -> Seq<u8>
    decreases n,
{
    if n <= 0 {
        seq![]
    } else {
        words_le_bytes(words, n - 1) + le_bytes(words[n - 1])
    }
}

/// Hex rendering of a guest image id: its eight words as little-endian bytes.
pub fn image_id_hex(id: [u32; 8]) -> (s: String)
    ensures
        s@ == hex_spec(words_le_bytes(id@, 8)),
{
    let mut bytes: Vec<u8> = Vec::with_capacity(32);
    let mut w: usize = 0;
    while w < 8
        invariant
            w <= 8,
            id@.len() == 8,
            bytes@ == words_le_bytes(id@, w as int),
        decreases 8 - w,
    {
        let word = id[w];
        bytes.push((word & 0xff) as u8);
        bytes.push(((word >> 8) & 0xff) as u8);
        bytes.push(((word >> 16) & 0xff) as u8);
        bytes.push(((word >> 24) & 0xff) as u8);
        assert(bytes@ =~= words_le_bytes(id@, w + 1));
        w = w + 1;
    }
    hex(bytes.as_slice())
}

} // verus!
