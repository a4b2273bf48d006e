//! Splitting an ordered sequence into contiguous groups of near-equal size.
use vstd::prelude::*;
use vstd::slice::slice_subrange;

verus! {

/// Length of group `g` when `n` items are split into `k` groups: the first
/// `n % k` groups take one item more than the rest.
pub open spec fn group_size(n: int, k: int, g: int) -> int {
    if g < n % k {
        n / k + 1
    } else {
        n / k
    }
}

/// Index of the first item of group `g`.
pub open spec fn group_start(n: int, k: int, g: int) -> int {
    g * (n / k) + if g < n % k {
        g
    } else {
        n % k
    }
}

/// The `k` groups of `items`, in order.
pub open spec fn groups_of<T>(items: Seq<T>, k: int) -> Seq<Seq<T>> {
    Seq::new(
        k as nat,
        |g: int|
            items.subrange(
                group_start(items.len() as int, k, g),
                group_start(items.len() as int, k, g) + group_size(items.len() as int, k, g),
            ),
    )
}

pub proof fn lemma_group_step(n: int, k: int, g: int)
    requires
        n >= 0,
        k >= 1,
        0 <= g < k,
    ensures
        group_start(n, k, g) + group_size(n, k, g) == group_start(n, k, g + 1),
        0 <= group_start(n, k, g),
        group_start(n, k, g + 1) <= n,
{
    let b = n / k;
    let r = n % k;
    vstd::arithmetic::div_mod::lemma_fundamental_div_mod(n, k);
    assert((g + 1) * b == g * b + b) by (nonlinear_arith);
    assert(b >= 0 && 0 <= r < k);
    assert((g + 1) * b <= k * b) by (nonlinear_arith)
        requires
            g + 1 <= k,
            b >= 0,
    ;
    assert(0 <= g * b) by (nonlinear_arith)
        requires
            g >= 0,
            b >= 0,
    ;
}

proof fn lemma_groups_end(n: int, k: int)
    requires
        n >= 0,
        k >= 1,
    ensures
        group_start(n, k, k) == n,
{
    vstd::arithmetic::div_mod::lemma_fundamental_div_mod(n, k);
    assert(k * (n / k) == (n / k) * k) by (nonlinear_arith);
}

/// Splits `items` into `groups` contiguous slices: with `n` items, the first
/// `n % groups` slices hold `n / groups + 1` items and the rest `n / groups`.
pub fn split_evenly<T>(items: &[T], groups: usize) -> (out: Vec<&[T]>)
    requires
        groups >= 1,
    ensures
        out@.len() == groups,
        forall|g: int|
            0 <= g < groups ==> (#[trigger] out@[g])@ == groups_of(items@, groups as int)[g],
{
    let n = items.len();
    let base = n / groups;
    let remainder = n % groups;
    let mut out: Vec<&[T]> = Vec::new();
    let mut start: usize = 0;
    let mut i: usize = 0;
    while i < groups
        invariant
            n == items@.len(),
            groups >= 1,
            base == n / groups,
            remainder == n % groups,
            i <= groups,
            start == group_start(n as int, groups as int, i as int),
            start <= n,
            out@.len() == i,
            forall|g: int|
                0 <= g < i ==> (#[trigger] out@[g])@ == groups_of(items@, groups as int)[g],
        decreases groups - i,
    {
        proof {
            lemma_group_step(n as int, groups as int, i as int);
        }
        let size = if i < remainder {
            base + 1
        } else {
            base
        };
        let end = start + size;
        out.push(slice_subrange(items, start, end));
        start = end;
        i = i + 1;
    }
    out
}

proof fn lemma_flatten_from<T>(items: Seq<T>, k: int, g: int)
    requires
        k >= 1,
        0 <= g <= k,
    ensures
        groups_of(items, k).subrange(g, k).flatten() == items.subrange(
            group_start(items.len() as int, k, g),
            items.len() as int,
        ),
    decreases k - g,
{
    let n = items.len() as int;
    let gs = groups_of(items, k);
    if g == k {
        lemma_groups_end(n, k);
        assert(gs.subrange(g, k) =~= Seq::<Seq<T>>::empty());
        assert(items.subrange(n, n) =~= Seq::<T>::empty());
    } else {
        lemma_group_step(n, k, g);
        lemma_flatten_from(items, k, g + 1);
        lemma_groups_end(n, k);
        let s = gs.subrange(g, k);
        assert(s.drop_first() =~= gs.subrange(g + 1, k));
        assert(s.first() == gs[g]);
        assert(items.subrange(group_start(n, k, g), n) =~= gs[g] + items.subrange(
            group_start(n, k, g + 1),
            n,
        ));
    }
}

/// Splitting `n >= 1` items into `m = min(k, n)` groups gives group sizes
/// that differ by at most one, none empty, and the groups taken in order give
/// back the items.
pub proof fn lemma_split_balanced<T>(items: Seq<T>, k: int, m: int)
    requires
        items.len() >= 1,
        k >= 1,
        m == if k < items.len() {
            k
        } else {
            items.len() as int
        },
    ensures
        groups_of(items, m).len() == m,
        forall|g1: int, g2: int|
            0 <= g1 < m && 0 <= g2 < m ==> #[trigger] groups_of(items, m)[g1].len()
                <= #[trigger] groups_of(items, m)[g2].len() + 1,
        forall|g: int| 0 <= g < m ==> #[trigger] groups_of(items, m)[g].len() >= 1,
        groups_of(items, m).flatten() == items,
{
    let n = items.len() as int;
    assert forall|g: int| 0 <= g < m implies #[trigger] groups_of(items, m)[g].len() == group_size(
        n,
        m,
        g,
    ) by {
        lemma_group_step(n, m, g);
    }
    assert(n / m >= 1) by {
        vstd::arithmetic::div_mod::lemma_div_is_ordered(m, n, m);
        vstd::arithmetic::div_mod::lemma_div_basics(m);
    }
    lemma_flatten_from(items, m, 0);
    assert(groups_of(items, m).subrange(0, m) =~= groups_of(items, m));
    assert(items.subrange(0, n) =~= items);
}

} // verus!
