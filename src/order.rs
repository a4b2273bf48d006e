//! Lexicographic order on text, and sorting of the input list by it.
use vstd::prelude::*;
use vstd::relations::{sorted_by, total_ordering};
use crate::text::{lemma_views_insert, views};

verus! {

/// `a` comes no later than `b` when compared character by character, a
/// proper prefix first.
pub open spec fn lex_le(a: Seq<char>, b: Seq<char>) -> bool
    decreases a.len(),
{
    if a.len() == 0 {
        true
    } else if b.len() == 0 {
        false
    } else if a[0] != b[0] {
        a[0] < b[0]
    } else {
        lex_le(a.drop_first(), b.drop_first())
    }
}

pub open spec fn lex_leq() -> spec_fn(Seq<char>, Seq<char>) -> bool {
    |a: Seq<char>, b: Seq<char>| lex_le(a, b)
}

proof fn lemma_lex_total(a: Seq<char>, b: Seq<char>)
    ensures
        lex_le(a, b) || lex_le(b, a),
    decreases a.len(),
{
    if a.len() > 0 && b.len() > 0 && a[0] == b[0] {
        lemma_lex_total(a.drop_first(), b.drop_first());
    }
}

proof fn lemma_lex_antisym(a: Seq<char>, b: Seq<char>)
    requires
        lex_le(a, b),
        lex_le(b, a),
    ensures
        a == b,
    decreases a.len(),
{
    if a.len() > 0 && b.len() > 0 {
        lemma_lex_antisym(a.drop_first(), b.drop_first());
        assert(a =~= seq![a[0]] + a.drop_first());
        assert(b =~= seq![b[0]] + b.drop_first());
    } else {
        assert(a =~= b);
    }
}

proof fn lemma_lex_trans(a: Seq<char>, b: Seq<char>, c: Seq<char>)
    requires
        lex_le(a, b),
        lex_le(b, c),
    ensures
        lex_le(a, c),
    decreases a.len(),
{
    if a.len() > 0 && b.len() > 0 && c.len() > 0 && a[0] == b[0] && b[0] == c[0] {
        lemma_lex_trans(a.drop_first(), b.drop_first(), c.drop_first());
    }
}

proof fn lemma_lex_refl(a: Seq<char>)
    ensures
        lex_le(a, a),
    decreases a.len(),
{
    if a.len() > 0 {
        lemma_lex_refl(a.drop_first());
    }
}

/// The lexicographic order is a total order.
pub proof fn lemma_lex_total_ordering()
    ensures
        total_ordering(lex_leq()),
{
    assert forall|a: Seq<char>| #[trigger] lex_leq()(a, a) by {
        lemma_lex_refl(a);
    }
    assert forall|a: Seq<char>, b: Seq<char>|
        #[trigger] lex_leq()(a, b) && #[trigger] lex_leq()(b, a) implies a == b by {
        lemma_lex_antisym(a, b);
    }
    assert forall|a: Seq<char>, b: Seq<char>, c: Seq<char>|
        #[trigger] lex_leq()(a, b) && #[trigger] lex_leq()(b, c) implies lex_leq()(a, c) by {
        lemma_lex_trans(a, b, c);
    }
    assert forall|a: Seq<char>, b: Seq<char>|
        #[trigger] lex_leq()(a, b) || #[trigger] lex_leq()(b, a) by {
        lemma_lex_total(a, b);
    }
}

/// Whether `a` comes no later than `b`.
pub fn text_le(a: &str, b: &str) -> (r: bool)
    ensures
        r == lex_le(a@, b@),
{
    let n = a.unicode_len();
    let m = b.unicode_len();
    let mut i: usize = 0;
    assert(a@.skip(0) =~= a@);
    assert(b@.skip(0) =~= b@);
    while i < n && i < m
        invariant
            n == a@.len(),
            m == b@.len(),
            i <= n,
            i <= m,
            lex_le(a@, b@) == lex_le(a@.skip(i as int), b@.skip(i as int)),
        decreases n - i,
    {
        let x = a.get_char(i);
        let y = b.get_char(i);
        if x != y {
            return x < y;
        }
        assert(a@.skip(i as int).drop_first() =~= a@.skip(i + 1));
        assert(b@.skip(i as int).drop_first() =~= b@.skip(i + 1));
        i = i + 1;
    }
    i == n
}

/// The same texts, in lexicographic order.
pub fn sort_texts(items: Vec<String>) -> (r: Vec<String>)
    ensures
        sorted_by(views(r@), lex_leq()),
        views(r@).to_multiset() == views(items@).to_multiset(),
{
    proof {
        lemma_lex_total_ordering();
    }
    let mut out: Vec<String> = Vec::new();
    let mut i: usize = 0;
    assert(views(out@) =~= views(items@).take(0));
    while i < items.len()
        invariant
            total_ordering(lex_leq()),
            i <= items@.len(),
            sorted_by(views(out@), lex_leq()),
            views(out@).to_multiset() == views(items@).take(i as int).to_multiset(),
        decreases items@.len() - i,
    {
        let x = items[i].clone();
        let mut p: usize = 0;
        while p < out.len() && text_le(out[p].as_str(), x.as_str())
            invariant
                p <= out@.len(),
                forall|j: int| 0 <= j < p ==> lex_le(#[trigger] views(out@)[j], x@),
            decreases out@.len() - p,
        {
            p = p + 1;
        }
        let ghost before = out@;
        proof {
            if p < out@.len() {
                lemma_lex_total(views(out@)[p as int], x@);
            }
            assert forall|j: int| p <= j < out@.len() implies lex_le(
                x@,
                #[trigger] views(out@)[j],
            ) by {
                if j > p {
                    assert(lex_leq()(views(out@)[p as int], views(out@)[j]));
                    lemma_lex_trans(x@, views(out@)[p as int], views(out@)[j]);
                }
            }
        }
        out.insert(p, x);
        proof {
            lemma_views_insert(before, p as int, x);
            assert(views(items@).take(i + 1) =~= views(items@).take(i as int).push(x@));
            vstd::seq_lib::to_multiset_build(views(items@).take(i as int), x@);
            vstd::seq_lib::to_multiset_insert(views(before), p as int, x@);
            assert(views(items@).take(i + 1).to_multiset() == views(items@).take(
                i as int,
            ).to_multiset().insert(x@));
            assert(views(before).insert(p as int, x@).to_multiset() == views(
                before,
            ).to_multiset().insert(x@));
            assert forall|a: int, b: int| 0 <= a < b < views(out@).len() implies #[trigger] lex_leq()(
                views(out@)[a],
                views(out@)[b],
            ) by {
                let v = views(before);
                if b < p {
                    assert(lex_leq()(v[a], v[b]));
                } else if b == p {
                } else if a < p {
                    lemma_lex_trans(v[a], x@, v[b - 1]);
                } else if a == p {
                } else {
                    assert(lex_leq()(v[a - 1], v[b - 1]));
                }
            }
        }
        i = i + 1;
    }
    assert(views(items@).take(i as int) =~= views(items@));
    out
}

/// Two lists that hold the same texts, in any order, sort to the same list.
pub proof fn lemma_sorted_order_unique(x: Seq<Seq<char>>, y: Seq<Seq<char>>)
    requires
        sorted_by(x, lex_leq()),
        sorted_by(y, lex_leq()),
        x.to_multiset() == y.to_multiset(),
    ensures
        x == y,
{
    lemma_lex_total_ordering();
    vstd::seq_lib::lemma_sorted_unique(x, y, lex_leq());
}

} // verus!
