//! Stable ordering of the positions of a list.

use vstd::prelude::*;

verus! {

/// `order` with `x` put in after the last position that `x` does not come
/// before.
pub open spec fn inserted(order: Seq<int>, x: int, before: spec_fn(int, int) -> bool) -> Seq<int>
    decreases order.len(),
{
    if order.len() > 0 && before(x, order.last()) {
        inserted(order.drop_last(), x, before).push(order.last())
    } else {
        order.push(x)
    }
}

/// The positions `0 .. n` in stable order under `before`.
pub open spec fn stable_order(n: nat, before: spec_fn(int, int) -> bool) -> Seq<int>
    decreases n,
{
    if n == 0 {
        Seq::empty()
    } else {
        inserted(stable_order((n - 1) as nat, before), n - 1, before)
    }
}

/// The elements of `s` at the positions `order`.
pub open spec fn arranged<T>(s: Seq<T>, order: Seq<int>) -> Seq<T> {
    order.map_values(|i: int| s[i])
}

/// `before` orders the positions `0 .. n` up to ties.
pub open spec fn weak_order(n: int, before: spec_fn(int, int) -> bool) -> bool {
    &&& forall|a: int, b: int|
        0 <= a < n && 0 <= b < n && #[trigger] before(a, b) ==> !before(b, a)
    &&& forall|a: int, b: int, c: int|
        #![trigger before(a, b), before(b, c)]
        0 <= a < n && 0 <= b < n && 0 <= c < n && !before(a, b) && !before(b, c) ==> !before(a, c)
}

/// Each position `0 .. n` stands once in `order`.
pub open spec fn each_once(order: Seq<int>, n: int) -> bool {
    &&& order.len() == n
    &&& order.no_duplicates()
    &&& forall|i: int| 0 <= i < order.len() ==> 0 <= #[trigger] order[i] < n
    &&& forall|x: int| 0 <= x < n ==> #[trigger] order.contains(x)
}

/// Nothing stands after what it comes before, and ties keep their order.
pub open spec fn in_order(order: Seq<int>, before: spec_fn(int, int) -> bool) -> bool {
    forall|i: int, j: int|
        #![trigger order[i], order[j]]
        0 <= i < j < order.len() ==> !before(order[j], order[i]) && (before(order[i], order[j])
            || order[i] < order[j])
}

proof fn lemma_inserted_members(order: Seq<int>, x: int, before: spec_fn(int, int) -> bool)
    requires
        order.no_duplicates(),
        !order.contains(x),
    ensures
        inserted(order, x, before).len() == order.len() + 1,
        inserted(order, x, before).no_duplicates(),
        forall|y: int|
            #[trigger] inserted(order, x, before).contains(y) <==> y == x || order.contains(y),
    decreases order.len(),
{
    let result = inserted(order, x, before);
    if order.len() > 0 && before(x, order.last()) {
        let rest = order.drop_last();
        assert(!rest.contains(x)) by {
            if rest.contains(x) {
                let k = choose|k: int| 0 <= k < rest.len() && rest[k] == x;
                assert(order[k] == x);
            }
        }
        lemma_inserted_members(rest, x, before);
        let part = inserted(rest, x, before);
        assert(result == part.push(order.last()));
        assert(!rest.contains(order.last()));
        assert(order.contains(order.last()));
        assert(!part.contains(order.last()));
        assert forall|y: int| #[trigger] result.contains(y) <==> y == x || order.contains(y) by {
            if result.contains(y) {
                let k = choose|k: int| 0 <= k < result.len() && result[k] == y;
                if k < part.len() {
                    assert(part[k] == y);
                    assert(part.contains(y));
                    if rest.contains(y) {
                        let m = choose|m: int| 0 <= m < rest.len() && rest[m] == y;
                        assert(order[m] == y);
                    }
                }
            }
            if y == x || order.contains(y) {
                if order.contains(y) && y != order.last() {
                    let m = choose|m: int| 0 <= m < order.len() && order[m] == y;
                    assert(rest[m] == y);
                    assert(rest.contains(y));
                }
                if y == order.last() {
                    assert(result[part.len() as int] == y);
                } else {
                    assert(part.contains(y));
                    let k = choose|k: int| 0 <= k < part.len() && part[k] == y;
                    assert(result[k] == y);
                }
            }
        }
        assert forall|a: int, b: int|
            0 <= a < result.len() && 0 <= b < result.len() && a != b implies result[a]
            != result[b] by {
            if a < part.len() && b < part.len() {
                assert(part[a] != part[b]);
            } else if a < part.len() {
                assert(part.contains(part[a]));
            } else {
                assert(part.contains(part[b]));
            }
        }
    } else {
        assert(result == order.push(x));
        assert forall|y: int| #[trigger] result.contains(y) <==> y == x || order.contains(y) by {
            if order.contains(y) {
                let m = choose|m: int| 0 <= m < order.len() && order[m] == y;
                assert(result[m] == y);
            }
            if y == x {
                assert(result[order.len() as int] == y);
            }
            if result.contains(y) {
                let k = choose|k: int| 0 <= k < result.len() && result[k] == y;
                if k < order.len() {
                    assert(order[k] == y);
                }
            }
        }
        assert forall|a: int, b: int|
            0 <= a < result.len() && 0 <= b < result.len() && a != b implies result[a]
            != result[b] by {
            if a < order.len() {
                assert(order.contains(order[a]));
            }
            if b < order.len() {
                assert(order.contains(order[b]));
            }
        }
    }
}

proof fn lemma_inserted_in_order(
    order: Seq<int>,
    x: int,
    before: spec_fn(int, int) -> bool,
    n: int,
)
    requires
        weak_order(n, before),
        in_order(order, before),
        order.no_duplicates(),
        0 <= x < n,
        forall|i: int| 0 <= i < order.len() ==> 0 <= #[trigger] order[i] < x,
    ensures
        in_order(inserted(order, x, before), before),
    decreases order.len(),
{
    let result = inserted(order, x, before);
    if order.len() > 0 && before(x, order.last()) {
        let rest = order.drop_last();
        let part = inserted(rest, x, before);
        let last = order.last();
        assert(in_order(rest, before)) by {
            assert forall|i: int, j: int|
                #![trigger rest[i], rest[j]]
                0 <= i < j < rest.len() implies !before(rest[j], rest[i]) && (before(
                rest[i],
                rest[j],
            ) || rest[i] < rest[j]) by {
                assert(order[i] == rest[i] && order[j] == rest[j]);
            }
        }
        lemma_inserted_in_order(rest, x, before, n);
        assert(!rest.contains(x)) by {
            if rest.contains(x) {
                let k = choose|k: int| 0 <= k < rest.len() && rest[k] == x;
                assert(order[k] == x);
            }
        }
        lemma_inserted_members(rest, x, before);
        assert forall|i: int, j: int|
            #![trigger result[i], result[j]]
            0 <= i < j < result.len() implies !before(result[j], result[i]) && (before(
            result[i],
            result[j],
        ) || result[i] < result[j]) by {
            if j < part.len() {
                assert(part[i] == result[i] && part[j] == result[j]);
            } else {
                assert(result[j] == last);
                assert(part.contains(part[i]));
                if part[i] != x {
                    let m = choose|m: int| 0 <= m < rest.len() && rest[m] == part[i];
                    assert(order[m] == part[i]);
                    assert(order[order.len() - 1] == last);
                }
            }
        }
    } else {
        assert(result == order.push(x));
        assert forall|i: int, j: int|
            #![trigger result[i], result[j]]
            0 <= i < j < result.len() implies !before(result[j], result[i]) && (before(
            result[i],
            result[j],
        ) || result[i] < result[j]) by {
            if j < order.len() {
                assert(order[i] == result[i] && order[j] == result[j]);
            } else {
                assert(order[i] == result[i]);
                let last = order[order.len() - 1];
                assert(!before(x, last));
                if i < order.len() - 1 {
                    assert(!before(last, order[i]));
                }
            }
        }
    }
}

/// Ordering arranges every position once, so that nothing stands after what
/// it comes before and ties stay as they were.
pub proof fn stable_order_is_stable(n: nat, before: spec_fn(int, int) -> bool)
    requires
        weak_order(n as int, before),
    ensures
        each_once(stable_order(n, before), n as int),
        in_order(stable_order(n, before), before),
    decreases n,
{
    if n > 0 {
        let rest = stable_order((n - 1) as nat, before);
        let x = n - 1;
        stable_order_is_stable((n - 1) as nat, before);
        assert(!rest.contains(x));
        lemma_inserted_members(rest, x, before);
        lemma_inserted_in_order(rest, x, before, n as int);
        let result = stable_order(n, before);
        assert forall|i: int| 0 <= i < result.len() implies 0 <= #[trigger] result[i] < n by {
            assert(result.contains(result[i]));
        }
    }
}

/// Every position is below `n`, whatever `before` is.
pub proof fn lemma_stable_order_range(n: nat, before: spec_fn(int, int) -> bool)
    ensures
        each_once(stable_order(n, before), n as int),
    decreases n,
{
    if n > 0 {
        let rest = stable_order((n - 1) as nat, before);
        lemma_stable_order_range((n - 1) as nat, before);
        assert(!rest.contains(n - 1));
        lemma_inserted_members(rest, n - 1, before);
        let result = stable_order(n, before);
        assert forall|i: int| 0 <= i < result.len() implies 0 <= #[trigger] result[i] < n by {
            assert(result.contains(result[i]));
        }
    }
}

proof fn lemma_inserted_at(order: Seq<int>, x: int, before: spec_fn(int, int) -> bool, at: int)
    requires
        0 <= at <= order.len(),
        at == 0 || !before(x, order[at - 1]),
        forall|k: int| at <= k < order.len() ==> before(x, #[trigger] order[k]),
    ensures
        inserted(order, x, before) == order.insert(at, x),
    decreases order.len(),
{
    if at < order.len() {
        let rest = order.drop_last();
        lemma_inserted_at(rest, x, before, at);
        assert(inserted(order, x, before) =~= order.insert(at, x));
    } else {
        assert(order.insert(at, x) =~= order.push(x));
    }
}

/// The positions `0 .. n` in stable order, by insertion.
pub(crate) fn order_positions<F: Fn(usize, usize) -> bool>(
    n: usize,
    comes_before: F,
    Ghost(before): Ghost<spec_fn(int, int) -> bool>,
) -> (order: Vec<usize>)
    requires
        forall|a: usize, b: usize| a < n && b < n ==> comes_before.requires((a, b)),
        forall|a: usize, b: usize, r: bool|
            a < n && b < n && comes_before.ensures((a, b), r) ==> r == before(a as int, b as int),
    ensures
        order@.map_values(|i: usize| i as int) == stable_order(n as nat, before),
        forall|i: int| 0 <= i < order@.len() ==> #[trigger] order@[i] < n,
        order@.len() == n,
{
    let mut order: Vec<usize> = Vec::new();
    assert(order@.map_values(|i: usize| i as int) =~= stable_order(0, before));
    for x in 0..n
        invariant
            forall|a: usize, b: usize| a < n && b < n ==> comes_before.requires((a, b)),
            forall|a: usize, b: usize, r: bool|
                a < n && b < n && comes_before.ensures((a, b), r) ==> r == before(
                    a as int,
                    b as int,
                ),
            order@.map_values(|i: usize| i as int) == stable_order(x as nat, before),
            forall|i: int| 0 <= i < order@.len() ==> #[trigger] order@[i] < n,
            order@.len() == x,
    {
        let ghost ints = order@.map_values(|i: usize| i as int);
        let mut at: usize = order.len();
        while at > 0 && comes_before(x, order[at - 1])
            invariant
                forall|a: usize, b: usize| a < n && b < n ==> comes_before.requires((a, b)),
                forall|a: usize, b: usize, r: bool|
                    a < n && b < n && comes_before.ensures((a, b), r) ==> r == before(
                        a as int,
                        b as int,
                    ),
                x < n,
                forall|i: int| 0 <= i < order@.len() ==> #[trigger] order@[i] < n,
                at <= order.len(),
                ints == order@.map_values(|i: usize| i as int),
                forall|k: int| at <= k < order@.len() ==> before(x as int, #[trigger] ints[k]),
            decreases at,
        {
            at -= 1;
            assert(ints[at as int] == order@[at as int]);
        }
        proof {
            if at > 0 {
                assert(ints[at - 1] == order@[at - 1]);
            }
            lemma_inserted_at(ints, x as int, before, at as int);
        }
        let ghost old_order = order@;
        order.insert(at, x);
        assert(order@.map_values(|i: usize| i as int) =~= ints.insert(at as int, x as int));
        assert forall|i: int| 0 <= i < order@.len() implies #[trigger] order@[i] < n by {
            if i < at {
                assert(order@[i] == old_order[i]);
            } else if i > at {
                assert(order@[i] == old_order[i - 1]);
            }
        }
    }
    order
}

/// The positions rise and lie below `n`.
pub open spec fn rising(at: Seq<int>, n: int) -> bool {
    &&& forall|i: int| 0 <= i < at.len() ==> 0 <= #[trigger] at[i] < n
    &&& forall|i: int, j: int| 0 <= i < j < at.len() ==> #[trigger] at[i] < #[trigger] at[j]
}

/// A position above them all can be put behind positions that rise.
pub proof fn lemma_rising_push(at: Seq<int>, n: int)
    requires
        rising(at, n),
        0 <= n,
    ensures
        rising(at, n + 1),
        rising(at.push(n), n + 1),
        forall|i: int| #[trigger] at.push(n).contains(i) <==> i == n || at.contains(i),
{
    let more = at.push(n);
    assert forall|i: int, j: int| 0 <= i < j < more.len() implies #[trigger] more[i]
        < #[trigger] more[j] by {
        if j < at.len() {
            assert(at[i] < at[j]);
        } else {
            assert(at[i] < n);
        }
    }
    assert forall|i: int| #[trigger] more.contains(i) <==> i == n || at.contains(i) by {
        if more.contains(i) {
            let k = choose|k: int| 0 <= k < more.len() && more[k] == i;
            if k < at.len() {
                assert(at[k] == i);
            }
        }
        if at.contains(i) {
            let k = choose|k: int| 0 <= k < at.len() && at[k] == i;
            assert(more[k] == i);
        }
        if i == n {
            assert(more[at.len() as int] == n);
        }
    }
}

} // verus!
