//! The order in which words are listed.
use vstd::prelude::*;
use vstd::utf8::encode_utf8;
use crate::text::texts;

verus! {

/// `a` stands before `b` in a dictionary of byte strings, or is `b`.
pub open spec fn bytes_le(a: Seq<u8>, b: Seq<u8>) -> bool
    decreases a.len(),
{
    if a.len() == 0 {
        true
    } else if b.len() == 0 {
        false
    } else if a[0] != b[0] {
        a[0] < b[0]
    } else {
        bytes_le(a.drop_first(), b.drop_first())
    }
}

/// `a` stands before `b` in the order of their UTF-8 bytes, or is `b`.
pub open spec fn text_le(a: Seq<char>, b: Seq<char>) -> bool {
    bytes_le(encode_utf8(a), encode_utf8(b))
}

/// Each text stands before those behind it.
pub open spec fn ascending(s: Seq<Seq<char>>) -> bool {
    forall|i: int, j: int| 0 <= i < j < s.len() ==> text_le(#[trigger] s[i], #[trigger] s[j])
}

proof fn bytes_le_total(a: Seq<u8>, b: Seq<u8>)
    ensures
        bytes_le(a, b) || bytes_le(b, a),
    decreases a.len(),
{
    if a.len() > 0 && b.len() > 0 && a[0] == b[0] {
        bytes_le_total(a.drop_first(), b.drop_first());
    }
}

proof fn bytes_le_transitive(a: Seq<u8>, b: Seq<u8>, c: Seq<u8>)
    requires
        bytes_le(a, b),
        bytes_le(b, c),
    ensures
        bytes_le(a, c),
    decreases a.len(),
{
    if a.len() > 0 && b.len() > 0 && c.len() > 0 && a[0] == b[0] && b[0] == c[0] {
        bytes_le_transitive(a.drop_first(), b.drop_first(), c.drop_first());
    }
}

proof fn bytes_le_antisymmetric(a: Seq<u8>, b: Seq<u8>)
    requires
        bytes_le(a, b),
        bytes_le(b, a),
    ensures
        a == b,
    decreases a.len(),
{
    if a.len() > 0 && b.len() > 0 {
        bytes_le_antisymmetric(a.drop_first(), b.drop_first());
        assert(a =~= seq![a[0]] + a.drop_first());
        assert(b =~= seq![b[0]] + b.drop_first());
    } else {
        assert(a =~= b);
    }
}

/// The order of texts is a total order: any two are comparable, it is
/// transitive, and texts that stand before each other are the same.
pub proof fn text_order_is_total(a: Seq<char>, b: Seq<char>, c: Seq<char>)
    ensures
        text_le(a, b) || text_le(b, a),
        text_le(a, b) && text_le(b, c) ==> text_le(a, c),
        text_le(a, b) && text_le(b, a) ==> a == b,
{
    bytes_le_total(encode_utf8(a), encode_utf8(b));
    if text_le(a, b) && text_le(b, c) {
        bytes_le_transitive(encode_utf8(a), encode_utf8(b), encode_utf8(c));
    }
    if text_le(a, b) && text_le(b, a) {
        bytes_le_antisymmetric(encode_utf8(a), encode_utf8(b));
        vstd::utf8::encode_utf8_decode_utf8(a);
        vstd::utf8::encode_utf8_decode_utf8(b);
    }
}

/// Of two byte strings that have something in common in front, the one stands first
/// whose next byte is smaller, or that ends there.
pub proof fn the_first_difference_decides(
    common: Seq<u8>,
    x: u8,
    y: u8,
    a: Seq<u8>,
    b: Seq<u8>,
)
    ensures
        bytes_le(common, common + a),
        a.len() > 0 ==> !bytes_le(common + a, common),
        x < y ==> bytes_le(common + seq![x] + a, common + seq![y] + b),
        x < y ==> !bytes_le(common + seq![y] + b, common + seq![x] + a),
    decreases common.len(),
{
    if common.len() == 0 {
        assert(common + a =~= a);
        assert(common + seq![x] + a =~= seq![x] + a);
        assert(common + seq![y] + b =~= seq![y] + b);
    } else {
        let rest = common.drop_first();
        the_first_difference_decides(rest, x, y, a, b);
        assert((common + a).drop_first() =~= rest + a);
        assert((common + seq![x] + a).drop_first() =~= rest + seq![x] + a);
        assert((common + seq![y] + b).drop_first() =~= rest + seq![y] + b);
    }
}

/// Texts stand in the order of their UTF-8 bytes, and an ascending list has each
/// text before those that are behind it.
pub proof fn texts_are_ordered_by_bytes(a: Seq<char>, b: Seq<char>, s: Seq<Seq<char>>)
    ensures
        text_le(a, b) == bytes_le(encode_utf8(a), encode_utf8(b)),
        ascending(s) <==> forall|i: int, j: int|
            0 <= i < j < s.len() ==> bytes_le(
                encode_utf8(#[trigger] s[i]),
                encode_utf8(#[trigger] s[j]),
            ),
{
}

/// The same texts, in ascending order.
pub open spec fn in_order(s: Seq<Seq<char>>) -> Seq<Seq<char>> {
    s.sort_by(|a: Seq<char>, b: Seq<char>| text_le(a, b))
}

/// Putting texts in order gives an ascending list of the same texts, and the
/// only one there is.
pub proof fn in_order_is_unique(s: Seq<Seq<char>>, t: Seq<Seq<char>>)
    ensures
        ascending(in_order(s)),
        in_order(s).to_multiset() == s.to_multiset(),
        ascending(t) && t.to_multiset() == s.to_multiset() ==> t == in_order(s),
{
    let leq = |a: Seq<char>, b: Seq<char>| text_le(a, b);
    assert forall|a: Seq<char>| #[trigger] leq(a, a) by {
        text_order_is_total(a, a, a);
    }
    assert forall|a: Seq<char>, b: Seq<char>| #[trigger] leq(a, b) && #[trigger] leq(b, a) implies a
        == b by {
        text_order_is_total(a, b, a);
    }
    assert forall|a: Seq<char>, b: Seq<char>, c: Seq<char>| #[trigger]
        leq(a, b) && #[trigger] leq(b, c) implies leq(a, c) by {
        text_order_is_total(a, b, c);
    }
    assert forall|a: Seq<char>, b: Seq<char>| #[trigger] leq(a, b) || #[trigger] leq(b, a) by {
        text_order_is_total(a, b, a);
    }
    s.lemma_sort_by_ensures(leq);
    assert(in_order(s) =~= s.sort_by(leq));
    assert forall|i: int, j: int| 0 <= i < j < in_order(s).len() implies text_le(
        #[trigger] in_order(s)[i],
        #[trigger] in_order(s)[j],
    ) by {
        assert(leq(in_order(s)[i], in_order(s)[j]));
    }
    if ascending(t) && t.to_multiset() == s.to_multiset() {
        vstd::seq_lib::lemma_sorted_unique(t, in_order(s), leq);
    }
}

/// Whether `a` stands before `b` in the order of their UTF-8 bytes, or is `b`.
pub fn precedes(a: &str, b: &str) -> (r: bool)
    ensures
        r == text_le(a@, b@),
{
    let x = a.as_bytes();
    let y = b.as_bytes();
    let mut i: usize = 0;
    assert(x@.skip(0) =~= x@ && y@.skip(0) =~= y@);
    while i < x.len()
        invariant
            i <= x.len(),
            i <= y.len(),
            x@ == encode_utf8(a@),
            y@ == encode_utf8(b@),
            text_le(a@, b@) == bytes_le(x@.skip(i as int), y@.skip(i as int)),
        decreases x.len() - i,
    {
        if i == y.len() {
            return false;
        }
        if x[i] != y[i] {
            return x[i] < y[i];
        }
        assert(x@.skip(i as int).drop_first() =~= x@.skip(i + 1));
        assert(y@.skip(i as int).drop_first() =~= y@.skip(i + 1));
        i = i + 1;
    }
    true
}

/// The same words, in ascending order.
pub fn sorted(words: &Vec<String>) -> (r: Vec<String>)
    ensures
        texts(r@) == in_order(texts(words@)),
{
    let mut out: Vec<String> = Vec::new();
    let mut i: usize = 0;
    assert(texts(out@) =~= texts(words@).take(0));
    while i < words.len()
        invariant
            i <= words.len(),
            out.len() == i,
            ascending(texts(out@)),
            texts(out@).to_multiset() == texts(words@).take(i as int).to_multiset(),
        decreases words.len() - i,
    {
        let word = &words[i];
        let mut p: usize = out.len();
        while p > 0 && !precedes(out[p - 1].as_str(), word.as_str())
            invariant
                p <= out.len(),
                ascending(texts(out@)),
                forall|k: int| p <= k < out.len() ==> text_le(word@, #[trigger] texts(out@)[k]),
            ensures
                p <= out.len(),
                forall|k: int| p <= k < out.len() ==> text_le(word@, #[trigger] texts(out@)[k]),
                p > 0 ==> text_le(texts(out@)[p - 1], word@),
            decreases p,
        {
            proof {
                text_order_is_total(word@, out@[p - 1]@, word@);
            }
            p = p - 1;
        }
        let ghost before = texts(out@);
        proof {
            assert forall|k: int| 0 <= k < p implies text_le(#[trigger] before[k], word@) by {
                if k < p - 1 {
                    text_order_is_total(before[k], before[p - 1], word@);
                }
            }
        }
        out.insert(p, word.clone());
        proof {
            let after = texts(out@);
            after.to_multiset_ensures();
            texts(words@).take(i as int).to_multiset_ensures();
            assert(after =~= before.insert(p as int, word@));
            assert(after.remove(p as int) =~= before);
            assert(after.to_multiset().count(word@) > 0) by {
                assert(after[p as int] == word@);
                assert(after.contains(word@));
            }
            assert(after.to_multiset() =~= before.to_multiset().insert(word@));
            assert(texts(words@).take(i + 1) =~= texts(words@).take(i as int).push(word@));
        }
        i = i + 1;
    }
    assert(texts(words@).take(i as int) =~= texts(words@));
    proof {
        in_order_is_unique(texts(words@), texts(out@));
    }
    out
}

} // verus!
