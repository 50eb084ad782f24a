//! Equality and ordering of texts.
//!
//! A text is modelled as its sequence of characters. Two texts are ordered as
//! Rust orders `str`: lexicographically by the bytes of their UTF-8 encoding.

use vstd::prelude::*;
use vstd::string::StringSliceAdditionalSpecFns;
use vstd::utf8::{encode_utf8, is_ascii_chars};

verus! {

/// `a` and `b` agree on their first `n` bytes.
pub open spec fn agree_upto(a: Seq<u8>, b: Seq<u8>, n: int) -> bool {
    forall|i: int| 0 <= i < n ==> a[i] == b[i]
}

/// `a` comes before `b`, or equals it, in lexicographic order: either `a` is a
/// prefix of `b`, or at the first position where they differ `a` holds the
/// smaller byte.
pub open spec fn bytes_le(a: Seq<u8>, b: Seq<u8>) -> bool {
    ||| (a.len() <= b.len() && agree_upto(a, b, a.len() as int))
    ||| exists|k: int| differ_first_at(a, b, k) && a[k] < b[k]
}

/// `k` is the first position at which `a` and `b` both hold a byte and the
/// bytes differ.
pub open spec fn differ_first_at(a: Seq<u8>, b: Seq<u8>, k: int) -> bool {
    &&& 0 <= k < a.len()
    &&& k < b.len()
    &&& a[k] != b[k]
    &&& agree_upto(a, b, k)
}

/// The order of texts: the lexicographic order of their UTF-8 encodings.
pub open spec fn text_le(a: Seq<char>, b: Seq<char>) -> bool {
    bytes_le(encode_utf8(a), encode_utf8(b))
}

/// Two byte sequences either agree over the whole of the shorter one, or
/// differ first at one position.
pub proof fn lemma_agree_or_differ(a: Seq<u8>, b: Seq<u8>, n: int)
    requires
        0 <= n <= a.len(),
        n <= b.len(),
    ensures
        agree_upto(a, b, n) || exists|k: int| 0 <= k < n && differ_first_at(a, b, k),
    decreases n,
{
    if n > 0 {
        lemma_agree_or_differ(a, b, n - 1);
        if agree_upto(a, b, n - 1) {
            if a[n - 1] != b[n - 1] {
                assert(differ_first_at(a, b, n - 1));
            }
        }
    }
}

/// The first position at which two byte sequences differ is unique.
pub proof fn lemma_differ_first_unique(a: Seq<u8>, b: Seq<u8>, j: int, k: int)
    requires
        differ_first_at(a, b, j),
        differ_first_at(a, b, k),
    ensures
        j == k,
{
    if j < k {
        assert(a[j] == b[j]);
    } else if k < j {
        assert(a[k] == b[k]);
    }
}

/// Every byte sequence is at most itself.
pub proof fn lemma_bytes_le_reflexive(a: Seq<u8>)
    ensures
        bytes_le(a, a),
{
}

/// Of two byte sequences, one is at most the other.
pub proof fn lemma_bytes_le_total(a: Seq<u8>, b: Seq<u8>)
    ensures
        bytes_le(a, b) || bytes_le(b, a),
{
    let n = if a.len() <= b.len() {
        a.len() as int
    } else {
        b.len() as int
    };
    lemma_agree_or_differ(a, b, n);
    if agree_upto(a, b, n) {
        if a.len() > b.len() {
            assert(agree_upto(b, a, b.len() as int));
        }
    } else {
        let k = choose|k: int| 0 <= k < n && differ_first_at(a, b, k);
        if a[k] > b[k] {
            assert(differ_first_at(b, a, k));
        }
    }
}

/// Two byte sequences that are each at most the other are equal.
pub proof fn lemma_bytes_le_antisymmetric(a: Seq<u8>, b: Seq<u8>)
    requires
        bytes_le(a, b),
        bytes_le(b, a),
    ensures
        a == b,
{
    if exists|k: int| differ_first_at(a, b, k) && a[k] < b[k] {
        let k = choose|k: int| differ_first_at(a, b, k) && a[k] < b[k];
        if exists|j: int| differ_first_at(b, a, j) && b[j] < a[j] {
            let j = choose|j: int| differ_first_at(b, a, j) && b[j] < a[j];
            assert(differ_first_at(a, b, j));
            lemma_differ_first_unique(a, b, j, k);
        } else {
            assert(b[k] == a[k]);
        }
    } else if exists|j: int| differ_first_at(b, a, j) && b[j] < a[j] {
        let j = choose|j: int| differ_first_at(b, a, j) && b[j] < a[j];
        assert(a[j] == b[j]);
    } else {
        assert(a =~= b);
    }
}

/// The order of byte sequences is transitive.
pub proof fn lemma_bytes_le_transitive(a: Seq<u8>, b: Seq<u8>, c: Seq<u8>)
    requires
        bytes_le(a, b),
        bytes_le(b, c),
    ensures
        bytes_le(a, c),
{
    let ab_prefix = a.len() <= b.len() && agree_upto(a, b, a.len() as int);
    let bc_prefix = b.len() <= c.len() && agree_upto(b, c, b.len() as int);
    if ab_prefix {
        if bc_prefix {
            assert(agree_upto(a, c, a.len() as int));
        } else {
            let k = choose|k: int| differ_first_at(b, c, k) && b[k] < c[k];
            if k < a.len() {
                assert(differ_first_at(a, c, k));
            } else {
                assert(agree_upto(a, c, a.len() as int));
            }
        }
    } else {
        let j = choose|j: int| differ_first_at(a, b, j) && a[j] < b[j];
        if bc_prefix {
            assert(differ_first_at(a, c, j));
        } else {
            let k = choose|k: int| differ_first_at(b, c, k) && b[k] < c[k];
            if j <= k {
                assert(differ_first_at(a, c, j));
            } else {
                assert(differ_first_at(a, c, k));
            }
        }
    }
}

/// Texts with the same UTF-8 encoding are the same text.
pub proof fn lemma_encoding_injective(a: Seq<char>, b: Seq<char>)
    requires
        encode_utf8(a) == encode_utf8(b),
    ensures
        a == b,
{
    vstd::utf8::encode_utf8_decode_utf8(a);
    vstd::utf8::encode_utf8_decode_utf8(b);
}

/// Every text is at most itself.
pub proof fn lemma_text_le_reflexive(a: Seq<char>)
    ensures
        text_le(a, a),
{
}

/// Of two texts, one is at most the other.
pub proof fn lemma_text_le_total(a: Seq<char>, b: Seq<char>)
    ensures
        text_le(a, b) || text_le(b, a),
{
    lemma_bytes_le_total(encode_utf8(a), encode_utf8(b));
}

/// Two texts that are each at most the other are equal.
pub proof fn lemma_text_le_antisymmetric(a: Seq<char>, b: Seq<char>)
    requires
        text_le(a, b),
        text_le(b, a),
    ensures
        a == b,
{
    lemma_bytes_le_antisymmetric(encode_utf8(a), encode_utf8(b));
    lemma_encoding_injective(a, b);
}

/// The order of texts is transitive.
pub proof fn lemma_text_le_transitive(a: Seq<char>, b: Seq<char>, c: Seq<char>)
    requires
        text_le(a, b),
        text_le(b, c),
    ensures
        text_le(a, c),
{
    lemma_bytes_le_transitive(encode_utf8(a), encode_utf8(b), encode_utf8(c));
}

/// `a` comes before `b`, or equals it, character by character: either `a` is
/// a prefix of `b`, or at the first position where they differ `a` holds the
/// character with the smaller code point.
pub open spec fn chars_le(a: Seq<char>, b: Seq<char>) -> bool {
    ||| (a.len() <= b.len() && forall|i: int| 0 <= i < a.len() ==> a[i] == b[i])
    ||| exists|k: int|
        0 <= k < a.len() && k < b.len() && (a[k] as u32) < (b[k] as u32) && forall|i: int|
            0 <= i < k ==> a[i] == b[i]
}

/// Of two ASCII characters, the same byte stands for the same character and
/// the smaller byte for the smaller code point.
proof fn lemma_ascii_char(c: char, d: char)
    requires
        '\0' <= c <= '\u{7f}',
        '\0' <= d <= '\u{7f}',
    ensures
        (c as u8 == d as u8) == (c == d),
        ((c as u8) < (d as u8)) == ((c as u32) < (d as u32)),
{
    let x = c as u32;
    let y = d as u32;
    assert(x < 128 && y < 128);
    assert(c as u8 == x as u8 && d as u8 == y as u8);
    if x == y {
        vstd::utf8::char_u32_cast(c, x);
        vstd::utf8::char_u32_cast(d, y);
    }
}

/// For texts of ASCII characters the order of texts is the order character
/// by character.
pub proof fn lemma_text_le_ascii(a: Seq<char>, b: Seq<char>)
    requires
        is_ascii_chars(a),
        is_ascii_chars(b),
    ensures
        text_le(a, b) == chars_le(a, b),
{
    let x = encode_utf8(a);
    let y = encode_utf8(b);
    vstd::utf8::is_ascii_chars_encode_utf8(a);
    vstd::utf8::is_ascii_chars_encode_utf8(b);
    assert forall|i: int| 0 <= i < a.len() && i < b.len() implies (x[i] == y[i]) == (a[i] == b[i])
        && (x[i] < y[i]) == ((a[i] as u32) < (b[i] as u32)) by {
        assert(x[i] == a[i] as u8);
        assert(y[i] == b[i] as u8);
        lemma_ascii_char(a[i], b[i]);
    }
    if bytes_le(x, y) {
        if x.len() <= y.len() && agree_upto(x, y, x.len() as int) {
            assert forall|i: int| 0 <= i < a.len() implies a[i] == b[i] by {
                assert(x[i] == y[i]);
            }
        } else {
            let k = choose|k: int| differ_first_at(x, y, k) && x[k] < y[k];
            assert forall|i: int| 0 <= i < k implies a[i] == b[i] by {
                assert(x[i] == y[i]);
            }
            assert((a[k] as u32) < (b[k] as u32));
        }
    }
    if chars_le(a, b) {
        if a.len() <= b.len() && forall|i: int| 0 <= i < a.len() ==> a[i] == b[i] {
            assert(agree_upto(x, y, x.len() as int));
        } else {
            let k = choose|k: int|
                0 <= k < a.len() && k < b.len() && (a[k] as u32) < (b[k] as u32) && forall|i: int|
                    0 <= i < k ==> a[i] == b[i];
            assert(x[k] < y[k]);
            assert(differ_first_at(x, y, k));
        }
    }
}

/// Whether two texts hold the same characters.
pub fn text_eq(a: &str, b: &str) -> (same: bool)
    ensures
        same == (a@ == b@),
{
    let x = a.as_bytes();
    let y = b.as_bytes();
    if x.len() != y.len() {
        return false;
    }
    let mut i: usize = 0;
    while i < x.len()
        invariant
            i <= x@.len(),
            x@.len() == y@.len(),
            x@ == a.spec_bytes(),
            y@ == b.spec_bytes(),
            agree_upto(x@, y@, i as int),
        decreases x@.len() - i,
    {
        if x[i] != y[i] {
            return false;
        }
        i += 1;
    }
    proof {
        assert(x@ =~= y@);
        lemma_encoding_injective(a@, b@);
    }
    true
}

/// Whether `a` comes before `b`, or equals it, in the order of texts.
pub fn text_at_most(a: &str, b: &str) -> (at_most: bool)
    ensures
        at_most == text_le(a@, b@),
{
    let x = a.as_bytes();
    let y = b.as_bytes();
    let mut i: usize = 0;
    while i < x.len() && i < y.len()
        invariant
            i <= x@.len(),
            i <= y@.len(),
            x@ == a.spec_bytes(),
            y@ == b.spec_bytes(),
            agree_upto(x@, y@, i as int),
        decreases x@.len() - i,
    {
        if x[i] != y[i] {
            proof {
                assert(differ_first_at(x@, y@, i as int));
                if x@[i as int] > y@[i as int] {
                    assert(differ_first_at(y@, x@, i as int));
                    if bytes_le(x@, y@) {
                        lemma_bytes_le_antisymmetric(x@, y@);
                    }
                }
            }
            return x[i] < y[i];
        }
        i += 1;
    }
    proof {
        if x@.len() > y@.len() {
            assert(agree_upto(y@, x@, y@.len() as int));
            if bytes_le(x@, y@) {
                lemma_bytes_le_antisymmetric(x@, y@);
            }
        }
    }
    x.len() <= y.len()
}

} // verus!
