//! Byte offsets into a string: where each character of it begins.

use vstd::prelude::*;
use vstd::utf8::{decode_utf8, encode_scalar, encode_utf8, valid_utf8};
use crate::text::chars_of;

verus! {

/// How many bytes `s` takes.
pub open spec fn size(s: Seq<char>) -> nat {
    encode_utf8(s).len()
}

/// The byte offset at which the character with index `k` of `s` begins.
pub open spec fn offset(s: Seq<char>, k: int) -> nat {
    size(s.take(k))
}

/// Whether a character of `s` begins at the byte offset `pos`, or `s` ends there.
pub open spec fn is_boundary(s: Seq<char>, pos: int) -> bool {
    exists|k: int| 0 <= k <= s.len() && #[trigger] offset(s, k) == pos
}

/// The number of characters of `s` before the boundary `pos`.
pub open spec fn index_at(s: Seq<char>, pos: int) -> int {
    choose|k: int| 0 <= k <= s.len() && #[trigger] offset(s, k) == pos
}

/// The encoding of a concatenation is the concatenation of the encodings.
pub proof fn lemma_encode_concat(a: Seq<char>, b: Seq<char>)
    ensures
        encode_utf8(a + b) == encode_utf8(a) + encode_utf8(b),
    decreases a.len(),
{
    if a.len() == 0 {
        assert(a + b == b);
    } else {
        lemma_encode_concat(a.drop_first(), b);
        assert((a + b).drop_first() == a.drop_first() + b);
    }
}

/// One character takes from one to four bytes.
pub proof fn lemma_size_one(c: char)
    ensures
        encode_utf8(seq![c]) == encode_scalar(c as u32),
        size(seq![c]) == encode_scalar(c as u32).len(),
        1 <= size(seq![c]) <= 4,
{
    assert(seq![c].drop_first() == Seq::<char>::empty());
    assert(encode_utf8(seq![c].drop_first()) == Seq::<u8>::empty());
}

/// The offset of the next character is larger by this one's bytes.
pub proof fn lemma_offset_step(s: Seq<char>, k: int)
    requires
        0 <= k < s.len(),
    ensures
        offset(s, k + 1) == offset(s, k) + encode_scalar(s[k] as u32).len(),
        offset(s, k) < offset(s, k + 1) <= offset(s, k) + 4,
{
    assert(s.take(k + 1) == s.take(k) + seq![s[k]]);
    lemma_encode_concat(s.take(k), seq![s[k]]);
    lemma_size_one(s[k]);
}

/// Later characters begin at larger offsets.
pub proof fn lemma_offset_monotone(s: Seq<char>, j: int, k: int)
    requires
        0 <= j <= k <= s.len(),
    ensures
        offset(s, j) <= offset(s, k),
        j < k ==> offset(s, j) < offset(s, k),
        offset(s, 0) == 0,
        offset(s, s.len() as int) == size(s),
    decreases k - j,
{
    assert(s.take(s.len() as int) == s);
    assert(encode_utf8(s.take(0)) == Seq::<u8>::empty());
    if j < k {
        lemma_offset_monotone(s, j, k - 1);
        lemma_offset_step(s, k - 1);
    }
}

/// Each boundary belongs to one index.
pub proof fn lemma_index_unique(s: Seq<char>, k: int)
    requires
        0 <= k <= s.len(),
    ensures
        is_boundary(s, offset(s, k) as int),
        index_at(s, offset(s, k) as int) == k,
{
    let m = index_at(s, offset(s, k) as int);
    assert(offset(s, k) == offset(s, k));
    if m < k {
        lemma_offset_monotone(s, m, k);
    } else if k < m {
        lemma_offset_monotone(s, k, m);
    }
}

/// How many bytes the character `c` takes.
pub fn width(c: char) -> (n: usize)
    ensures
        n == encode_scalar(c as u32).len(),
        1 <= n <= 4,
{
    let code: u32 = c as u32;
    if code < 0x80 {
        1
    } else if code < 0x800 {
        2
    } else if code < 0x10000 {
        3
    } else {
        4
    }
}

/// How many bytes `s` takes.
pub fn byte_len(s: &str) -> (n: usize)
    ensures
        n == size(s@),
{
    let b = s.as_bytes();
    b.len()
}

/// The bytes of `s`.
pub fn bytes_of(s: &str) -> (v: Vec<u8>)
    ensures
        v@ == encode_utf8(s@),
{
    let b = s.as_bytes();
    let mut v: Vec<u8> = Vec::new();
    v.extend_from_slice(b);
    assert(v@ == b@);
    v
}

/// A copy of `v`.
pub fn copy_bytes(v: &Vec<u8>) -> (r: Vec<u8>)
    ensures
        r@ == v@,
{
    let mut r: Vec<u8> = Vec::new();
    r.extend_from_slice(v.as_slice());
    assert(r@ == v@);
    r
}

/// `String::from_utf8_lossy` on `bytes`.
pub uninterp spec fn utf8_lossy(bytes: Seq<u8>) -> Seq<char>;

/// `String::from_utf8_lossy`: a function of the bytes alone, which reads valid
/// UTF-8 as it is and puts replacement characters for what is not valid.
#[verifier::external_body]
pub(crate) fn read_lossy(bytes: &Vec<u8>) -> (s: String)
    ensures
        s@ == utf8_lossy(bytes@),
        valid_utf8(bytes@) ==> s@ == decode_utf8(bytes@),
{
    String::from_utf8_lossy(bytes).into_owned()
}

/// `std::str::from_utf8`: the text that `bytes` hold, exactly where they are
/// valid UTF-8.
#[verifier::external_body]
pub(crate) fn read_exact(bytes: &Vec<u8>) -> (r: Option<String>)
    ensures
        match r {
            Some(s) => valid_utf8(bytes@) && s@ == decode_utf8(bytes@),
            None => !valid_utf8(bytes@),
        },
{
    std::str::from_utf8(bytes).ok().map(String::from)
}

/// The number of characters of `v` before the boundary `pos`.
pub fn locate(v: &Vec<char>, pos: usize) -> (k: usize)
    requires
        is_boundary(v@, pos as int),
    ensures
        k <= v@.len(),
        k == index_at(v@, pos as int),
        offset(v@, k as int) == pos,
{
    let ghost at = index_at(v@, pos as int);
    let n = v.len();
    let mut k: usize = 0;
    let mut off: usize = 0;
    proof {
        lemma_offset_monotone(v@, 0, 0);
    }
    while off < pos
        invariant
            0 <= at <= n == v@.len(),
            offset(v@, at) == pos,
            k <= at,
            off == offset(v@, k as int),
        decreases at - k,
    {
        proof {
            if k == at {
                assert(false);
            }
            lemma_offset_step(v@, k as int);
            lemma_offset_monotone(v@, k + 1, at);
        }
        off += width(v[k]);
        k += 1;
    }
    proof {
        if k < at {
            lemma_offset_monotone(v@, k as int, at);
        }
        lemma_index_unique(v@, at);
    }
    k
}

} // verus!
