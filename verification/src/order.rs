//! The order of text: byte by byte over the UTF-8 encoding, a proper
//! prefix first. This is the order of `str`, and the order every sorted
//! list of names in the contract follows.
use vstd::prelude::*;
use vstd::string::StringSliceAdditionalSpecFns;
use vstd::utf8::{encode_utf8, encode_utf8_decode_utf8};

verus! {

/// `a` sorts strictly before `b`, byte by byte, a proper prefix first.
pub open spec fn bytes_lt(a: Seq<u8>, b: Seq<u8>) -> bool
    decreases a.len(),
{
    if a.len() == 0 {
        b.len() > 0
    } else if b.len() == 0 {
        false
    } else if a[0] != b[0] {
        a[0] < b[0]
    } else {
        bytes_lt(a.drop_first(), b.drop_first())
    }
}

/// `a` sorts strictly before `b` as text.
pub open spec fn text_lt(a: Seq<char>, b: Seq<char>) -> bool {
    bytes_lt(encode_utf8(a), encode_utf8(b))
}

/// The length of a text in UTF-8 bytes.
pub open spec fn byte_len(t: Seq<char>) -> nat {
    encode_utf8(t).len()
}

/// The texts held by a sequence of strings.
pub open spec fn texts(v: Seq<String>) -> Seq<Seq<char>> {
    v.map_values(|s: String| s@)
}

/// Strictly increasing as text: sorted, and no text twice.
pub open spec fn strictly_sorted(s: Seq<Seq<char>>) -> bool {
    forall|i: int, j: int| 0 <= i < j < s.len() ==> text_lt(#[trigger] s[i], #[trigger] s[j])
}

/// No byte string sorts before itself.
pub proof fn lemma_bytes_lt_irreflexive(a: Seq<u8>)
    ensures
        !bytes_lt(a, a),
    decreases a.len(),
{
    if a.len() > 0 {
        lemma_bytes_lt_irreflexive(a.drop_first());
    }
}

/// The order is transitive.
pub proof fn lemma_bytes_lt_transitive(a: Seq<u8>, b: Seq<u8>, c: Seq<u8>)
    requires
        bytes_lt(a, b),
        bytes_lt(b, c),
    ensures
        bytes_lt(a, c),
    decreases a.len(),
{
    if a.len() > 0 && b.len() > 0 && c.len() > 0 && a[0] == b[0] && b[0] == c[0] {
        lemma_bytes_lt_transitive(a.drop_first(), b.drop_first(), c.drop_first());
    }
}

/// Of two different byte strings, one sorts before the other, and not both.
pub proof fn lemma_bytes_lt_total(a: Seq<u8>, b: Seq<u8>)
    ensures
        a != b ==> (bytes_lt(a, b) || bytes_lt(b, a)),
        !(bytes_lt(a, b) && bytes_lt(b, a)),
    decreases a.len(),
{
    if a.len() > 0 && b.len() > 0 && a[0] == b[0] {
        lemma_bytes_lt_total(a.drop_first(), b.drop_first());
        if a.drop_first() == b.drop_first() {
            assert(a =~= b) by {
                assert forall|k: int| 0 <= k < a.len() implies a[k] == b[k] by {
                    if k > 0 {
                        assert(a[k] == a.drop_first()[k - 1]);
                        assert(b[k] == b.drop_first()[k - 1]);
                    }
                }
            }
        }
    } else if a.len() == 0 && b.len() == 0 {
        assert(a =~= b);
    }
}

/// Different texts have different encodings.
pub proof fn lemma_encoding_injective(a: Seq<char>, b: Seq<char>)
    ensures
        encode_utf8(a) == encode_utf8(b) ==> a == b,
{
    encode_utf8_decode_utf8(a);
    encode_utf8_decode_utf8(b);
}

/// Text order is a strict total order.
pub proof fn lemma_text_lt_order(a: Seq<char>, b: Seq<char>, c: Seq<char>)
    ensures
        !text_lt(a, a),
        a != b ==> (text_lt(a, b) || text_lt(b, a)),
        !(text_lt(a, b) && text_lt(b, a)),
        text_lt(a, b) && text_lt(b, c) ==> text_lt(a, c),
{
    lemma_bytes_lt_irreflexive(encode_utf8(a));
    lemma_encoding_injective(a, b);
    lemma_bytes_lt_total(encode_utf8(a), encode_utf8(b));
    if text_lt(a, b) && text_lt(b, c) {
        lemma_bytes_lt_transitive(encode_utf8(a), encode_utf8(b), encode_utf8(c));
    }
}

/// Whether `a` sorts strictly before `b`.
pub fn str_lt(a: &str, b: &str) -> (r: bool)
    ensures
        r == text_lt(a@, b@),
{
    let x = a.as_bytes();
    let y = b.as_bytes();
    let mut i: usize = 0;
    proof {
        assert(x@.skip(0) =~= x@);
        assert(y@.skip(0) =~= y@);
    }
    while i < x.len() && i < y.len()
        invariant
            i <= x@.len(),
            i <= y@.len(),
            bytes_lt(a.spec_bytes(), b.spec_bytes()) == bytes_lt(x@.skip(i as int), y@.skip(i as int)),
        decreases x@.len() - i,
    {
        if x[i] != y[i] {
            return x[i] < y[i];
        }
        proof {
            assert(x@.skip(i as int).drop_first() =~= x@.skip(i + 1));
            assert(y@.skip(i as int).drop_first() =~= y@.skip(i + 1));
        }
        i = i + 1;
    }
    i < y.len()
}

/// Whether two texts are equal.
pub fn str_eq(a: &str, b: &str) -> (r: bool)
    ensures
        r == (a@ == b@),
{
    let x = a.as_bytes();
    let y = b.as_bytes();
    proof {
        lemma_encoding_injective(a@, b@);
    }
    if x.len() != y.len() {
        return false;
    }
    let mut i: usize = 0;
    while i < x.len()
        invariant
            i <= x@.len(),
            x@.len() == y@.len(),
            x@ == a.spec_bytes(),
            y@ == b.spec_bytes(),
            forall|k: int| 0 <= k < i ==> x@[k] == y@[k],
        decreases x@.len() - i,
    {
        if x[i] != y[i] {
            return false;
        }
        i = i + 1;
    }
    proof {
        assert(x@ =~= y@);
    }
    true
}

/// Whether two lists of strings hold the same texts in the same order.
pub fn strings_eq(a: &Vec<String>, b: &Vec<String>) -> (r: bool)
    ensures
        r == (texts(a@) == texts(b@)),
{
    if a.len() != b.len() {
        proof {
            assert(texts(a@).len() != texts(b@).len());
        }
        return false;
    }
    let mut i: usize = 0;
    while i < a.len()
        invariant
            i <= a@.len(),
            a@.len() == b@.len(),
            forall|k: int| 0 <= k < i ==> a@[k]@ == b@[k]@,
        decreases a@.len() - i,
    {
        if a[i] != b[i] {
            proof {
                assert(texts(a@)[i as int] != texts(b@)[i as int]);
            }
            return false;
        }
        i = i + 1;
    }
    proof {
        assert(texts(a@) =~= texts(b@));
    }
    true
}

/// `v` with each text once, in increasing order.
pub fn sorted_unique(v: Vec<String>) -> (r: Vec<String>)
    ensures
        strictly_sorted(texts(r@)),
        forall|t: Seq<char>| texts(r@).contains(t) <==> texts(v@).contains(t),
{
    let mut out: Vec<String> = Vec::new();
    let mut i: usize = 0;
    while i < v.len()
        invariant
            i <= v@.len(),
            strictly_sorted(texts(out@)),
            forall|t: Seq<char>| texts(out@).contains(t) <==> texts(v@.take(i as int)).contains(t),
        decreases v@.len() - i,
    {
        let s = &v[i];
        let mut j: usize = 0;
        while j < out.len() && str_lt(out[j].as_str(), s.as_str())
            invariant
                j <= out@.len(),
                forall|k: int| 0 <= k < j ==> text_lt(#[trigger] out@[k]@, s@),
            decreases out@.len() - j,
        {
            j = j + 1;
        }
        let ghost before = texts(out@);
        let ghost prev = texts(v@.take(i as int));
        let ghost next = texts(v@.take(i + 1));
        proof {
            assert(next =~= prev.push(s@));
        }
        if j < out.len() && out[j] == *s {
            proof {
                assert(before[j as int] == s@);
                assert forall|t: Seq<char>| texts(out@).contains(t) <==> next.contains(t) by {
                    if texts(out@).contains(t) {
                        assert(prev.contains(t));
                        let k = choose|k: int| 0 <= k < prev.len() && #[trigger] prev[k] == t;
                        assert(next[k] == t);
                    }
                    if next.contains(t) {
                        let k = choose|k: int| 0 <= k < next.len() && #[trigger] next[k] == t;
                        if k < prev.len() {
                            assert(prev[k] == t);
                        } else {
                            assert(before[j as int] == t);
                        }
                    }
                }
            }
        } else {
            proof {
                if j < out@.len() {
                    lemma_text_lt_order(out@[j as int]@, s@, s@);
                }
                assert forall|k: int| j <= k < out@.len() implies text_lt(s@, #[trigger] before[k]) by {
                    lemma_text_lt_order(out@[j as int]@, s@, before[k]);
                    lemma_text_lt_order(s@, before[j as int], before[k]);
                }
            }
            out.insert(j, s.clone());
            proof {
                assert(texts(out@) =~= before.insert(j as int, s@));
                assert forall|a: int, b: int| 0 <= a < b < texts(out@).len() implies text_lt(
                    #[trigger] texts(out@)[a],
                    #[trigger] texts(out@)[b],
                ) by {
                    if b < j {
                    } else if a < j && b == j {
                    } else if a < j {
                        lemma_text_lt_order(before[a], s@, before[b - 1]);
                    } else if a == j {
                    } else {
                    }
                }
                assert forall|t: Seq<char>| texts(out@).contains(t) <==> next.contains(t) by {
                    if texts(out@).contains(t) {
                        let k = choose|k: int| 0 <= k < texts(out@).len() && #[trigger] texts(out@)[k] == t;
                        if k < j {
                            assert(before[k] == t);
                            assert(before.contains(t));
                        } else if k > j {
                            assert(before[k - 1] == t);
                            assert(before.contains(t));
                        }
                        if k != j {
                            assert(prev.contains(t));
                            let m = choose|m: int| 0 <= m < prev.len() && #[trigger] prev[m] == t;
                            assert(next[m] == t);
                        } else {
                            assert(next[prev.len() as int] == t);
                        }
                    }
                    if next.contains(t) {
                        let k = choose|k: int| 0 <= k < next.len() && #[trigger] next[k] == t;
                        if k < prev.len() {
                            assert(prev[k] == t);
                            assert(before.contains(t));
                            let m = choose|m: int| 0 <= m < before.len() && #[trigger] before[m] == t;
                            if m < j {
                                assert(texts(out@)[m] == t);
                            } else {
                                assert(texts(out@)[m + 1] == t);
                            }
                        } else {
                            assert(texts(out@)[j as int] == t);
                        }
                    }
                }
            }
        }
        i = i + 1;
    }
    proof {
        assert(v@.take(v@.len() as int) =~= v@);
    }
    out
}

} // verus!
