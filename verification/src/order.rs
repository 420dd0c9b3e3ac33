//! Lexicographic order of strings, and a stable sort by such keys.
//!
//! `String`'s `Ord` compares UTF-8 bytes; since UTF-8 preserves the order of
//! code points, that is the lexicographic order of the characters used here.
use vstd::prelude::*;

verus! {

/// Lexicographic `a < b` by character code.
pub open spec fn chars_lt(a: Seq<char>, b: Seq<char>) -> bool
    decreases a.len(),
{
    if a.len() == 0 {
        b.len() > 0
    } else if b.len() == 0 {
        false
    } else if a[0] != b[0] {
        a[0] < b[0]
    } else {
        chars_lt(a.drop_first(), b.drop_first())
    }
}

/// Lexicographic `a < b` on sequences of strings, each compared by `chars_lt`.
pub open spec fn key_lt(a: Seq<Seq<char>>, b: Seq<Seq<char>>) -> bool
    decreases a.len(),
{
    if a.len() == 0 {
        b.len() > 0
    } else if b.len() == 0 {
        false
    } else if a[0] != b[0] {
        chars_lt(a[0], b[0])
    } else {
        key_lt(a.drop_first(), b.drop_first())
    }
}

proof fn lemma_seq_split<A>(a: Seq<A>)
    requires
        a.len() > 0,
    ensures
        a == seq![a[0]] + a.drop_first(),
{
    assert(a =~= seq![a[0]] + a.drop_first());
}

/// `chars_lt` is a strict total order.
pub proof fn lemma_chars_lt_total(a: Seq<char>, b: Seq<char>)
    ensures
        !(chars_lt(a, b) && chars_lt(b, a)),
        chars_lt(a, b) || chars_lt(b, a) || a == b,
        !chars_lt(a, a),
    decreases a.len(),
{
    if a.len() > 0 && b.len() > 0 {
        lemma_chars_lt_total(a.drop_first(), b.drop_first());
        lemma_chars_lt_total(a.drop_first(), a.drop_first());
        lemma_seq_split(a);
        lemma_seq_split(b);
        if a[0] == b[0] && a.drop_first() == b.drop_first() {
            assert(a == b);
        }
    } else if a.len() == 0 && b.len() == 0 {
        assert(a =~= b);
    }
    if a.len() > 0 {
        lemma_chars_lt_total(a.drop_first(), a.drop_first());
    }
}

pub proof fn lemma_chars_lt_trans(a: Seq<char>, b: Seq<char>, c: Seq<char>)
    requires
        chars_lt(a, b),
        chars_lt(b, c),
    ensures
        chars_lt(a, c),
    decreases a.len(),
{
    if a.len() > 0 && b.len() > 0 && c.len() > 0 {
        if a[0] == b[0] && b[0] == c[0] {
            lemma_chars_lt_trans(a.drop_first(), b.drop_first(), c.drop_first());
        }
    }
}

pub proof fn lemma_key_lt_total(a: Seq<Seq<char>>, b: Seq<Seq<char>>)
    ensures
        !(key_lt(a, b) && key_lt(b, a)),
        key_lt(a, b) || key_lt(b, a) || a == b,
        !key_lt(a, a),
    decreases a.len(),
{
    if a.len() > 0 && b.len() > 0 {
        lemma_key_lt_total(a.drop_first(), b.drop_first());
        lemma_key_lt_total(a.drop_first(), a.drop_first());
        lemma_chars_lt_total(a[0], b[0]);
        lemma_seq_split(a);
        lemma_seq_split(b);
        if a[0] == b[0] && a.drop_first() == b.drop_first() {
            assert(a == b);
        }
    } else if a.len() == 0 && b.len() == 0 {
        assert(a =~= b);
    }
    if a.len() > 0 {
        lemma_key_lt_total(a.drop_first(), a.drop_first());
        lemma_chars_lt_total(a[0], a[0]);
    }
}

pub proof fn lemma_key_lt_trans(a: Seq<Seq<char>>, b: Seq<Seq<char>>, c: Seq<Seq<char>>)
    requires
        key_lt(a, b),
        key_lt(b, c),
    ensures
        key_lt(a, c),
    decreases a.len(),
{
    if a.len() > 0 && b.len() > 0 && c.len() > 0 {
        if a[0] == b[0] && b[0] == c[0] {
            lemma_key_lt_trans(a.drop_first(), b.drop_first(), c.drop_first());
        } else if a[0] == b[0] {
            lemma_chars_lt_total(a[0], c[0]);
        } else if b[0] == c[0] {
            lemma_chars_lt_total(a[0], c[0]);
        } else {
            lemma_chars_lt_trans(a[0], b[0], c[0]);
            lemma_chars_lt_total(a[0], c[0]);
        }
    }
}

/// `a <= b` for keys.
pub open spec fn key_le(a: Seq<Seq<char>>, b: Seq<Seq<char>>) -> bool {
    key_lt(a, b) || a == b
}

/// `order` lists every index of `keys` once, in increasing order of key,
/// and of index among equal keys: the order of a stable sort.
pub open spec fn is_stable_order(order: Seq<int>, keys: Seq<Seq<Seq<char>>>) -> bool {
    &&& order.len() == keys.len()
    &&& forall|q: int| 0 <= q < order.len() ==> 0 <= #[trigger] order[q] < keys.len()
    &&& forall|q1: int, q2: int|
        0 <= q1 < q2 < order.len() ==> {
            ||| key_lt(keys[#[trigger] order[q1]], keys[#[trigger] order[q2]])
            ||| (keys[order[q1]] == keys[order[q2]] && order[q1] < order[q2])
        }
}

/// `out` holds the items of `items`, ordered by a stable sort on `keys`.
pub open spec fn is_stable_sort<T>(out: Seq<T>, items: Seq<T>, keys: Seq<Seq<Seq<char>>>) -> bool {
    exists|order: Seq<int>|
        is_stable_order(order, keys) && out.len() == order.len() && forall|q: int|
            0 <= q < out.len() ==> #[trigger] out[q] == items[order[q]]
}

/// Lexicographic comparison of two strings given as characters.
pub fn chars_less(a: &Vec<char>, b: &Vec<char>) -> (r: bool)
    ensures
        r == chars_lt(a@, b@),
{
    let mut i: usize = 0;
    assert(a@.skip(0) == a@ && b@.skip(0) == b@);
    while i < a.len() && i < b.len() && a[i] == b[i]
        invariant
            i <= a@.len(),
            i <= b@.len(),
            chars_lt(a@.skip(i as int), b@.skip(i as int)) == chars_lt(a@, b@),
        decreases a@.len() - i,
    {
        proof {
            assert(a@.skip(i as int).drop_first() == a@.skip(i + 1));
            assert(b@.skip(i as int).drop_first() == b@.skip(i + 1));
        }
        i = i + 1;
    }
    if i == a.len() {
        i < b.len()
    } else if i == b.len() {
        false
    } else {
        a[i] < b[i]
    }
}

/// Lexicographic comparison of two keys.
pub fn key_less(a: &Vec<Vec<char>>, b: &Vec<Vec<char>>) -> (r: bool)
    ensures
        r == key_lt(a.deep_view(), b.deep_view()),
{
    let ghost av = a.deep_view();
    let ghost bv = b.deep_view();
    let mut i: usize = 0;
    assert(av.skip(0) == av && bv.skip(0) == bv);
    loop
        invariant
            i <= a@.len(),
            i <= b@.len(),
            av == a.deep_view(),
            bv == b.deep_view(),
            key_lt(av.skip(i as int), bv.skip(i as int)) == key_lt(av, bv),
        decreases a@.len() - i,
    {
        if i == a.len() {
            return i < b.len();
        }
        if i == b.len() {
            return false;
        }
        proof {
            assert(a@[i as int].deep_view() =~= a@[i as int]@);
            assert(b@[i as int].deep_view() =~= b@[i as int]@);
            assert(av.skip(i as int)[0] == a@[i as int]@);
            assert(bv.skip(i as int)[0] == b@[i as int]@);
            assert(av.skip(i as int).drop_first() == av.skip(i + 1));
            assert(bv.skip(i as int).drop_first() == bv.skip(i + 1));
        }
        let lt = chars_less(&a[i], &b[i]);
        let gt = chars_less(&b[i], &a[i]);
        proof {
            lemma_chars_lt_total(a@[i as int]@, b@[i as int]@);
        }
        if lt {
            return true;
        }
        if gt {
            return false;
        }
        i = i + 1;
    }
}

/// Sorts `items` stably by `keys` (one key per item).
pub fn stable_sort<T: DeepView>(items: Vec<T>, keys: Vec<Vec<Vec<char>>>) -> (r: Vec<T>)
    requires
        items@.len() == keys@.len(),
    ensures
        is_stable_sort(r@, items@, keys.deep_view()),
        is_stable_sort(r.deep_view(), items.deep_view(), keys.deep_view()),
{
    let ghost orig = items@;
    let ghost ks = keys.deep_view();
    let n = items.len();
    let mut rest = items;
    let mut rest_keys = keys;
    let mut out: Vec<T> = Vec::new();
    let mut out_keys: Vec<Vec<Vec<char>>> = Vec::new();
    let ghost mut order: Seq<int> = seq![];
    while rest.len() > 0
        invariant
            n == orig.len(),
            ks.len() == n,
            rest@.len() == rest_keys@.len(),
            rest@.len() <= n,
            rest@ == orig.take(rest@.len() as int),
            rest_keys.deep_view() == ks.take(rest@.len() as int),
            out@.len() == n - rest@.len(),
            out_keys@.len() == out@.len(),
            order.len() == out@.len(),
            forall|q: int| 0 <= q < order.len() ==> rest@.len() <= #[trigger] order[q] < n,
            forall|q: int| 0 <= q < order.len() ==> #[trigger] out@[q] == orig[order[q]],
            forall|q: int| 0 <= q < order.len() ==> #[trigger] out_keys.deep_view()[q] == ks[order[q]],
            forall|q1: int, q2: int|
                0 <= q1 < q2 < order.len() ==> {
                    ||| key_lt(ks[#[trigger] order[q1]], ks[#[trigger] order[q2]])
                    ||| (ks[order[q1]] == ks[order[q2]] && order[q1] < order[q2])
                },
        decreases rest@.len(),
    {
        let m = rest.len() - 1;
        let item = rest.pop().unwrap();
        let key = rest_keys.pop().unwrap();
        let ghost kv = key.deep_view();
        proof {
            assert(orig[m as int] == item);
            assert(ks[m as int] == kv) by {
                assert(ks.take(m + 1)[m as int] == ks[m as int]);
            }
            assert(rest@ == orig.take(m as int));
            assert(rest_keys.deep_view() =~= ks.take(m as int));
        }
        let mut pos: usize = 0;
        while pos < out_keys.len() && key_less(&out_keys[pos], &key)
            invariant
                pos <= out_keys@.len(),
                kv == key.deep_view(),
                forall|q: int| 0 <= q < pos ==> key_lt(#[trigger] out_keys.deep_view()[q], kv),
            decreases out_keys@.len() - pos,
        {
            pos = pos + 1;
        }
        let ghost old_order = order;
        let ghost old_keys = out_keys.deep_view();
        let ghost old_out = out@;
        proof {
            assert forall|q: int| pos <= q < old_order.len() implies key_le(kv, #[trigger] old_keys[q]) by {
                lemma_key_lt_total(old_keys[pos as int], kv);
                if q > pos {
                    let a = old_keys[pos as int];
                    let b = old_keys[q];
                    assert(a == ks[old_order[pos as int]]);
                    assert(b == ks[old_order[q]]);
                    if key_lt(kv, a) && key_lt(a, b) {
                        lemma_key_lt_trans(kv, a, b);
                    }
                }
            }
        }
        out.insert(pos, item);
        out_keys.insert(pos, key);
        proof {
            order = old_order.insert(pos as int, m as int);
            assert(out_keys.deep_view() =~= old_keys.insert(pos as int, kv));
            assert forall|q1: int, q2: int| 0 <= q1 < q2 < order.len() implies {
                ||| key_lt(ks[#[trigger] order[q1]], ks[#[trigger] order[q2]])
                ||| (ks[order[q1]] == ks[order[q2]] && order[q1] < order[q2])
            } by {
                if q1 < pos && q2 == pos {
                    assert(order[q1] == old_order[q1]);
                    assert(old_keys[q1] == ks[old_order[q1]]);
                } else if q1 == pos {
                    assert(order[q2] == old_order[q2 - 1]);
                    assert(key_le(kv, old_keys[q2 - 1]));
                    assert(old_keys[q2 - 1] == ks[old_order[q2 - 1]]);
                } else if q2 < pos {
                    assert(order[q1] == old_order[q1] && order[q2] == old_order[q2]);
                } else if q1 < pos {
                    assert(order[q1] == old_order[q1] && order[q2] == old_order[q2 - 1]);
                } else {
                    assert(order[q1] == old_order[q1 - 1] && order[q2] == old_order[q2 - 1]);
                }
            }
            assert(out@ == old_out.insert(pos as int, item));
            assert forall|q: int| 0 <= q < order.len() implies #[trigger] out@[q] == orig[order[q]] by {
                if q < pos {
                    assert(out@[q] == old_out[q] && order[q] == old_order[q]);
                } else if q == pos {
                } else {
                    assert(out@[q] == old_out[q - 1] && order[q] == old_order[q - 1]);
                }
            }
            assert forall|q: int| 0 <= q < order.len() implies #[trigger] out_keys.deep_view()[q] == ks[order[q]] by {
                if q < pos {
                    assert(order[q] == old_order[q]);
                } else if q == pos {
                } else {
                    assert(order[q] == old_order[q - 1]);
                }
            }
        }
    }
    proof {
        assert(is_stable_order(order, ks));
        let ov = out.deep_view();
        let iv = items.deep_view();
        assert forall|q: int| 0 <= q < ov.len() implies #[trigger] ov[q] == iv[order[q]] by {
            assert(out@[q] == orig[order[q]]);
        }
    }
    out
}

} // verus!
