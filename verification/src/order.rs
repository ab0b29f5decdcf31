//! The order in which Rust sorts strings: lexicographic on their UTF-8 bytes.

use vstd::prelude::*;
use vstd::string::*;
use vstd::utf8::*;

verus! {

/// `a < b` in the lexicographic order of byte sequences, as `Ord` for `[u8]`
/// has it: the first differing byte decides, and a proper prefix is smaller.
pub open spec fn bytes_lt(a: Seq<u8>, b: Seq<u8>) -> bool
    decreases a.len(),
{
    if b.len() == 0 {
        false
    } else if a.len() == 0 {
        true
    } else if a[0] != b[0] {
        a[0] < b[0]
    } else {
        bytes_lt(a.drop_first(), b.drop_first())
    }
}

/// `a < b` for strings, as `Ord` for `String` has it: by their UTF-8 bytes.
pub open spec fn str_lt(a: Seq<char>, b: Seq<char>) -> bool {
    bytes_lt(encode_utf8(a), encode_utf8(b))
}

/// No byte sequence is below itself.
pub proof fn lemma_bytes_lt_irreflexive(a: Seq<u8>)
    ensures
        !bytes_lt(a, a),
    decreases a.len(),
{
    if a.len() > 0 {
        lemma_bytes_lt_irreflexive(a.drop_first());
    }
}

/// Of two different byte sequences exactly one is below the other.
pub proof fn lemma_bytes_lt_total(a: Seq<u8>, b: Seq<u8>)
    ensures
        a != b ==> (bytes_lt(a, b) || bytes_lt(b, a)),
        !(bytes_lt(a, b) && bytes_lt(b, a)),
    decreases a.len(),
{
    if a.len() > 0 && b.len() > 0 && a[0] == b[0] {
        lemma_bytes_lt_total(a.drop_first(), b.drop_first());
        if a != b {
            assert(a.drop_first() != b.drop_first()) by {
                if a.drop_first() == b.drop_first() {
                    assert forall|k: int| 0 <= k < a.len() implies a[k] == b[k] by {
                        if k > 0 {
                            assert(a[k] == a.drop_first()[k - 1]);
                            assert(b[k] == b.drop_first()[k - 1]);
                        }
                    }
                    assert(a =~= b);
                }
            }
        }
    } else if a.len() == 0 && b.len() == 0 {
        assert(a =~= b);
    }
}

/// The order on byte sequences is transitive.
pub proof fn lemma_bytes_lt_transitive(a: Seq<u8>, b: Seq<u8>, c: Seq<u8>)
    requires
        bytes_lt(a, b),
        bytes_lt(b, c),
    ensures
        bytes_lt(a, c),
    decreases a.len(),
{
    if a.len() > 0 && a[0] == b[0] && b[0] == c[0] {
        lemma_bytes_lt_transitive(a.drop_first(), b.drop_first(), c.drop_first());
    }
}

/// Different strings have different UTF-8 encodings.
pub proof fn lemma_encode_injective(a: Seq<char>, b: Seq<char>)
    ensures
        encode_utf8(a) == encode_utf8(b) ==> a == b,
{
    encode_utf8_decode_utf8(a);
    encode_utf8_decode_utf8(b);
}

/// No string is below itself.
pub proof fn lemma_str_lt_irreflexive(a: Seq<char>)
    ensures
        !str_lt(a, a),
{
    lemma_bytes_lt_irreflexive(encode_utf8(a));
}

/// Of two different strings exactly one is below the other.
pub proof fn lemma_str_lt_total(a: Seq<char>, b: Seq<char>)
    ensures
        a != b ==> (str_lt(a, b) || str_lt(b, a)),
        !(str_lt(a, b) && str_lt(b, a)),
{
    lemma_encode_injective(a, b);
    lemma_bytes_lt_total(encode_utf8(a), encode_utf8(b));
}

/// The order on strings is transitive.
pub proof fn lemma_str_lt_transitive(a: Seq<char>, b: Seq<char>, c: Seq<char>)
    requires
        str_lt(a, b),
        str_lt(b, c),
    ensures
        str_lt(a, c),
{
    lemma_bytes_lt_transitive(encode_utf8(a), encode_utf8(b), encode_utf8(c));
}

/// The order of byte sequences is the lexicographic one: where two sequences
/// agree on their first `k` bytes, the byte at `k` decides when both have one
/// and they differ, and a sequence that ends at `k` comes before exactly the
/// longer ones.
pub proof fn lemma_bytes_lt_first_difference(a: Seq<u8>, b: Seq<u8>, k: int)
    requires
        0 <= k <= a.len(),
        k <= b.len(),
        a.subrange(0, k) == b.subrange(0, k),
    ensures
        k < a.len() && k < b.len() && a[k] != b[k] ==> (bytes_lt(a, b) <==> a[k] < b[k]),
        k == a.len() ==> (bytes_lt(a, b) <==> k < b.len()),
        k == b.len() ==> !bytes_lt(a, b),
    decreases k,
{
    if k > 0 {
        assert(a[0] == a.subrange(0, k)[0]);
        assert(b[0] == b.subrange(0, k)[0]);
        let ra = a.drop_first();
        let rb = b.drop_first();
        assert(ra.subrange(0, k - 1) =~= rb.subrange(0, k - 1)) by {
            assert forall|m: int| 0 <= m < k - 1 implies #[trigger] ra.subrange(0, k - 1)[m]
                == rb.subrange(0, k - 1)[m] by {
                assert(a.subrange(0, k)[m + 1] == b.subrange(0, k)[m + 1]);
                assert(ra.subrange(0, k - 1)[m] == a[m + 1]);
                assert(rb.subrange(0, k - 1)[m] == b[m + 1]);
                assert(a.subrange(0, k)[m + 1] == a[m + 1]);
                assert(b.subrange(0, k)[m + 1] == b[m + 1]);
            }
        }
        lemma_bytes_lt_first_difference(ra, rb, k - 1);
        if k < a.len() && k < b.len() {
            assert(ra[k - 1] == a[k] && rb[k - 1] == b[k]);
        }
    }
}

/// Strings are ordered by their UTF-8 bytes: where the encodings agree on
/// their first `k` bytes, the byte at `k` decides when both have one and they
/// differ, and an encoding that ends at `k` comes before exactly the longer
/// ones.
pub proof fn lemma_str_lt_first_difference(a: Seq<char>, b: Seq<char>, k: int)
    requires
        0 <= k <= encode_utf8(a).len(),
        k <= encode_utf8(b).len(),
        encode_utf8(a).subrange(0, k) == encode_utf8(b).subrange(0, k),
    ensures
        k < encode_utf8(a).len() && k < encode_utf8(b).len() && encode_utf8(a)[k] != encode_utf8(
            b,
        )[k] ==> (str_lt(a, b) <==> encode_utf8(a)[k] < encode_utf8(b)[k]),
        k == encode_utf8(a).len() ==> (str_lt(a, b) <==> k < encode_utf8(b).len()),
        k == encode_utf8(b).len() ==> !str_lt(a, b),
{
    lemma_bytes_lt_first_difference(encode_utf8(a), encode_utf8(b), k);
}

/// Compares two byte slices lexicographically.
pub fn bytes_less(a: &[u8], b: &[u8]) -> (r: bool)
    ensures
        r == bytes_lt(a@, b@),
{
    let mut i: usize = 0;
    assert(a@.skip(0) =~= a@);
    assert(b@.skip(0) =~= b@);
    loop
        invariant
            i <= a@.len(),
            i <= b@.len(),
            bytes_lt(a@, b@) == bytes_lt(a@.skip(i as int), b@.skip(i as int)),
        decreases a@.len() - i,
    {
        if i == b.len() {
            return false;
        }
        if i == a.len() {
            return true;
        }
        if a[i] != b[i] {
            return a[i] < b[i];
        }
        assert(a@.skip(i as int).drop_first() =~= a@.skip(i + 1));
        assert(b@.skip(i as int).drop_first() =~= b@.skip(i + 1));
        i = i + 1;
    }
}

/// Compares two strings as `Ord` for `String` does.
pub fn string_less(a: &String, b: &String) -> (r: bool)
    ensures
        r == str_lt(a@, b@),
{
    bytes_less(a.as_str().as_bytes(), b.as_str().as_bytes())
}

} // verus!
