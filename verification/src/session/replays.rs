//! Finding the rows of a conversation that are replays of what follows them.
//!
//! A conversation that was inserted again on every turn appears as a series
//! of nested prefixes, `B1 B2 ... Bk`, where every block opens with the one
//! before it and the last block is the conversation as it finally stood. The
//! signature that leaves is a chunk immediately followed by an identical
//! chunk.

use vstd::prelude::*;

verus! {

// ---------------------------------------------------------------------
// One pass
// ---------------------------------------------------------------------

/// The chunk of `len` keys at `at` is immediately followed by a copy of
/// itself. A single repeated message is far more likely to be something the
/// user actually said twice, so only chunks of two or more count.
pub open spec fn repeats(keys: Seq<u64>, at: int, len: int) -> bool {
    &&& 0 <= at
    &&& 2 <= len
    &&& at + 2 * len <= keys.len()
    &&& keys.subrange(at, at + len) == keys.subrange(at + len, at + 2 * len)
}

/// The largest `len <= bound` for which the chunk at `at` repeats.
pub open spec fn longest_within(keys: Seq<u64>, at: int, bound: int) -> Option<int>
    decreases bound,
{
    if bound < 2 {
        None
    } else if repeats(keys, at, bound) {
        Some(bound)
    } else {
        longest_within(keys, at, bound - 1)
    }
}

/// The length of the longest chunk at `at` that repeats.
pub open spec fn longest_replay(keys: Seq<u64>, at: int) -> Option<int> {
    longest_within(keys, at, (keys.len() - at) / 2)
}

proof fn lemma_longest_within(keys: Seq<u64>, at: int, bound: int)
    ensures
        match longest_within(keys, at, bound) {
            Some(len) => {
                &&& repeats(keys, at, len)
                &&& len <= bound
                &&& forall|other: int|
                    other <= bound && #[trigger] repeats(keys, at, other) ==> other <= len
            },
            None => forall|other: int| other <= bound ==> !#[trigger] repeats(keys, at, other),
        },
    decreases bound,
{
    if bound >= 2 && !repeats(keys, at, bound) {
        lemma_longest_within(keys, at, bound - 1);
    }
}

/// What `longest_replay` means: a chunk of that length repeats, and no longer
/// one does.
pub proof fn lemma_longest_replay(keys: Seq<u64>, at: int)
    ensures
        match longest_replay(keys, at) {
            Some(len) => {
                &&& repeats(keys, at, len)
                &&& forall|other: int| #[trigger] repeats(keys, at, other) ==> other <= len
            },
            None => forall|other: int| !#[trigger] repeats(keys, at, other),
        },
{
    lemma_longest_within(keys, at, (keys.len() - at) / 2);
    assert forall|other: int| #[trigger] repeats(keys, at, other) implies other <= (keys.len() - at)
        / 2 by {}
}

/// The positions from `at` on that one pass keeps.
pub open spec fn kept_from(keys: Seq<u64>, at: int) -> Seq<int>
    decreases keys.len() - at,
    via kept_from_decreases
{
    if at >= keys.len() {
        Seq::empty()
    } else {
        match longest_replay(keys, at) {
            Some(len) => kept_from(keys, at + len),
            None => seq![at] + kept_from(keys, at + 1),
        }
    }
}

#[via_fn]
proof fn kept_from_decreases(keys: Seq<u64>, at: int) {
    lemma_longest_replay(keys, at);
}

/// The positions one pass over `keys` keeps.
pub open spec fn stripped(keys: Seq<u64>) -> Seq<int> {
    kept_from(keys, 0)
}

fn chunk_repeats(keys: &Vec<u64>, at: usize, len: usize) -> (r: bool)
    requires
        2 <= len,
        at + 2 * len <= keys.len(),
    ensures
        r == repeats(keys@, at as int, len as int),
{
    for k in 0..len
        invariant
            2 <= len,
            at + 2 * len <= keys.len(),
            keys@.subrange(at as int, at + k) == keys@.subrange(at + len, at + len + k),
    {
        if keys[at + k] != keys[at + len + k] {
            assert(keys@.subrange(at as int, at + len)[k as int] != keys@.subrange(
                at + len,
                at + 2 * len,
            )[k as int]);
            return false;
        }
        assert(keys@.subrange(at as int, at + k + 1) =~= keys@.subrange(at as int, at + k).push(
            keys@[at + k],
        ));
        assert(keys@.subrange(at + len, at + len + k + 1) =~= keys@.subrange(
            at + len,
            at + len + k,
        ).push(keys@[at + len + k]));
    }
    assert(keys@.subrange(at as int, at + len) =~= keys@.subrange(at + len, at + 2 * len));
    true
}

fn find_longest_replay(keys: &Vec<u64>, at: usize) -> (r: Option<usize>)
    requires
        at < keys.len(),
    ensures
        match r {
            Some(len) => longest_replay(keys@, at as int) == Some(len as int),
            None => longest_replay(keys@, at as int) is None,
        },
{
    let mut len: usize = (keys.len() - at) / 2;
    while len >= 2
        invariant
            at < keys.len(),
            2 * len <= keys.len() - at,
            longest_replay(keys@, at as int) == longest_within(keys@, at as int, len as int),
        decreases len,
    {
        if chunk_repeats(keys, at, len) {
            return Some(len);
        }
        len -= 1;
    }
    None
}

/// The positions in a list, as integers.
pub open spec fn positions(list: Seq<usize>) -> Seq<int> {
    list.map_values(|i: usize| i as int)
}

/// One pass: drop every chunk that is immediately followed by a copy of
/// itself, longest chunk first.
pub fn strip_adjacent_replays(keys: &Vec<u64>) -> (keep: Vec<usize>)
    ensures
        positions(keep@) == stripped(keys@),
{
    let total = keys.len();
    let mut keep: Vec<usize> = Vec::new();
    let mut cursor: usize = 0;
    assert(positions(keep@) + kept_from(keys@, 0) =~= stripped(keys@));
    while cursor < total
        invariant
            total == keys.len(),
            cursor <= total,
            positions(keep@) + kept_from(keys@, cursor as int) == stripped(keys@),
        decreases total - cursor,
    {
        proof {
            lemma_longest_replay(keys@, cursor as int);
        }
        match find_longest_replay(keys, cursor) {
            Some(len) => {
                cursor += len;
            },
            None => {
                let ghost before = positions(keep@);
                keep.push(cursor);
                cursor += 1;
                assert(positions(keep@) =~= before.push(cursor - 1));
                assert(positions(keep@) + kept_from(keys@, cursor as int) =~= before + kept_from(
                    keys@,
                    cursor - 1,
                ));
            },
        }
    }
    assert(positions(keep@) =~= stripped(keys@));
    keep
}

// ---------------------------------------------------------------------
// Repeated passes
// ---------------------------------------------------------------------

/// The keys at the given positions.
pub open spec fn keys_at(keys: Seq<u64>, at: Seq<int>) -> Seq<u64> {
    at.map_values(|i: int| keys[i])
}

/// What is left of `at` once passes are repeated until one drops nothing.
pub open spec fn surviving(keys: Seq<u64>, at: Seq<int>) -> Seq<int>
    decreases at.len(),
{
    let pass = stripped(keys_at(keys, at));
    if pass.len() >= at.len() {
        at
    } else {
        surviving(keys, pass.map_values(|j: int| at[j]))
    }
}

/// The positions `0 .. n`.
pub open spec fn all_positions(n: int) -> Seq<int> {
    Seq::new(n as nat, |i: int| i)
}

/// The positions of a conversation's keys that are not replays.
pub open spec fn survivors(keys: Seq<u64>) -> Seq<int> {
    surviving(keys, all_positions(keys.len() as int))
}

/// Repeat the pass until it finds nothing. Sessions resumed many times
/// interleave several runs' replays, and removing one round can bring the
/// next pair of copies together.
pub fn strip_replays(keys: &Vec<u64>) -> (keep: Vec<usize>)
    ensures
        positions(keep@) == survivors(keys@),
{
    let mut keep: Vec<usize> = Vec::new();
    for i in 0..keys.len()
        invariant
            positions(keep@) == all_positions(i as int),
    {
        let ghost before = keep@;
        keep.push(i);
        assert(positions(keep@) =~= positions(before).push(i as int));
        assert(all_positions(i + 1) =~= all_positions(i as int).push(i as int));
    }
    proof {
        assert forall|i: int| 0 <= i < keep@.len() implies #[trigger] keep@[i] < keys.len() by {
            assert(positions(keep@)[i] == all_positions(keys.len() as int)[i]);
        }
    }
    loop
        invariant
            forall|i: int| 0 <= i < keep@.len() ==> #[trigger] keep@[i] < keys.len(),
            surviving(keys@, positions(keep@)) == survivors(keys@),
        decreases keep.len(),
    {
        let mut live: Vec<u64> = Vec::new();
        for i in 0..keep.len()
            invariant
                forall|j: int| 0 <= j < keep@.len() ==> #[trigger] keep@[j] < keys.len(),
                live@ == keys_at(keys@, positions(keep@)).take(i as int),
        {
            let ghost want = keys_at(keys@, positions(keep@));
            live.push(keys[keep[i]]);
            assert(want.take(i + 1) =~= want.take(i as int).push(want[i as int]));
        }
        assert(live@ =~= keys_at(keys@, positions(keep@)));
        let pass = strip_adjacent_replays(&live);
        proof {
            lemma_kept_from(live@, 0);
        }
        assert(positions(pass@).len() == pass@.len());
        if pass.len() >= keep.len() {
            return keep;
        }
        let ghost next = stripped(live@).map_values(|j: int| positions(keep@)[j]);
        let mut shorter: Vec<usize> = Vec::new();
        for i in 0..pass.len()
            invariant
                forall|j: int| 0 <= j < keep@.len() ==> #[trigger] keep@[j] < keys.len(),
                positions(pass@) == stripped(live@),
                live@.len() == keep@.len(),
                forall|j: int|
                    0 <= j < stripped(live@).len() ==> 0 <= #[trigger] stripped(live@)[j]
                        < live@.len(),
                next == stripped(live@).map_values(|j: int| positions(keep@)[j]),
                positions(shorter@) == next.take(i as int),
                forall|j: int| 0 <= j < shorter@.len() ==> #[trigger] shorter@[j] < keys.len(),
        {
            assert(positions(pass@)[i as int] == pass@[i as int]);
            let ghost before = shorter@;
            shorter.push(keep[pass[i]]);
            assert(positions(shorter@) =~= positions(before).push(next[i as int]));
            assert(next.take(i + 1) =~= next.take(i as int).push(next[i as int]));
        }
        assert(next.take(pass@.len() as int) =~= next);
        keep = shorter;
    }
}

// ---------------------------------------------------------------------
// What a pass keeps
// ---------------------------------------------------------------------

/// The kept positions are in order, without repetition, and in range.
pub open spec fn ascending_within(at: Seq<int>, low: int, high: int) -> bool {
    &&& forall|i: int| 0 <= i < at.len() ==> low <= #[trigger] at[i] < high
    &&& forall|i: int, j: int| 0 <= i < j < at.len() ==> #[trigger] at[i] < #[trigger] at[j]
}

proof fn lemma_ascending_len(at: Seq<int>, low: int, high: int)
    requires
        ascending_within(at, low, high),
        low <= high,
    ensures
        at.len() <= high - low,
        at.len() == high - low ==> at =~= Seq::new((high - low) as nat, |i: int| low + i),
    decreases high - low,
{
    if at.len() > 0 {
        if low == high {
            assert(low <= at[0] < high);
        } else if at.last() < high - 1 {
            assert(ascending_within(at, low, high - 1)) by {
                assert forall|i: int| 0 <= i < at.len() implies low <= #[trigger] at[i] < high
                    - 1 by {
                    if i < at.len() - 1 {
                        assert(at[i] < at[at.len() - 1]);
                    }
                }
            }
            lemma_ascending_len(at, low, high - 1);
        } else {
            let rest = at.drop_last();
            assert(ascending_within(rest, low, high - 1)) by {
                assert forall|i: int| 0 <= i < rest.len() implies low <= #[trigger] rest[i] < high
                    - 1 by {
                    assert(at[i] < at[at.len() - 1]);
                }
                assert forall|i: int, j: int| 0 <= i < j < rest.len() implies #[trigger] rest[i]
                    < #[trigger] rest[j] by {
                    assert(at[i] < at[j]);
                }
            }
            lemma_ascending_len(rest, low, high - 1);
            if at.len() == high - low {
                assert forall|i: int| 0 <= i < at.len() implies at[i] == low + i by {
                    if i < rest.len() {
                        assert(at[i] == rest[i]);
                    }
                }
            }
        }
    }
}

/// `key` stands at one of the positions `at`.
pub open spec fn stands(keys: Seq<u64>, at: Seq<int>, key: u64) -> bool {
    exists|j: int| 0 <= j < at.len() && keys[#[trigger] at[j]] == key
}

/// A pass keeps positions in order, and loses no key: whatever stands from
/// `at` on still stands at some kept position.
pub proof fn lemma_kept_from(keys: Seq<u64>, at: int)
    requires
        0 <= at,
    ensures
        ascending_within(kept_from(keys, at), at, keys.len() as int),
        forall|p: int|
            at <= p < keys.len() ==> stands(keys, kept_from(keys, at), #[trigger] keys[p]),
    decreases keys.len() - at,
{
    let kept = kept_from(keys, at);
    if at < keys.len() {
        lemma_longest_replay(keys, at);
        match longest_replay(keys, at) {
            Some(len) => {
                lemma_kept_from(keys, at + len);
                assert forall|p: int| at <= p < keys.len() implies stands(
                    keys,
                    kept,
                    #[trigger] keys[p],
                ) by {
                    if p < at + len {
                        assert(keys.subrange(at, at + len)[p - at] == keys.subrange(
                            at + len,
                            at + 2 * len,
                        )[p - at]);
                        assert(keys[p] == keys[p + len]);
                    }
                }
            },
            None => {
                let rest = kept_from(keys, at + 1);
                lemma_kept_from(keys, at + 1);
                assert(kept[0] == at);
                assert(forall|j: int| 0 < j < kept.len() ==> #[trigger] kept[j] == rest[j - 1]);
                assert forall|p: int| at <= p < keys.len() implies stands(
                    keys,
                    kept,
                    #[trigger] keys[p],
                ) by {
                    if p > at {
                        let j = choose|j: int|
                            0 <= j < rest.len() && keys[#[trigger] rest[j]] == keys[p];
                        assert(kept[j + 1] == rest[j]);
                    }
                }
            },
        }
    }
}

proof fn lemma_nothing_dropped(keys: Seq<u64>, at: int)
    requires
        0 <= at <= keys.len(),
        kept_from(keys, at).len() >= keys.len() - at,
    ensures
        forall|p: int, len: int| at <= p ==> !#[trigger] repeats(keys, p, len),
    decreases keys.len() - at,
{
    if at < keys.len() {
        lemma_longest_replay(keys, at);
        match longest_replay(keys, at) {
            Some(len) => {
                lemma_kept_from(keys, at + len);
                lemma_ascending_len(kept_from(keys, at + len), at + len, keys.len() as int);
            },
            None => {
                lemma_nothing_dropped(keys, at + 1);
            },
        }
    }
}

proof fn lemma_nothing_to_drop(keys: Seq<u64>, at: int)
    requires
        0 <= at <= keys.len(),
        forall|p: int, len: int| at <= p ==> !#[trigger] repeats(keys, p, len),
    ensures
        kept_from(keys, at) =~= Seq::new((keys.len() - at) as nat, |i: int| at + i),
    decreases keys.len() - at,
{
    if at < keys.len() {
        lemma_longest_replay(keys, at);
        lemma_nothing_to_drop(keys, at + 1);
    }
}

// ---------------------------------------------------------------------
// Laws of the survivors
// ---------------------------------------------------------------------

proof fn lemma_surviving(keys: Seq<u64>, at: Seq<int>)
    requires
        ascending_within(at, 0, keys.len() as int),
    ensures
        ascending_within(surviving(keys, at), 0, keys.len() as int),
        forall|p: int, len: int|
            !#[trigger] repeats(keys_at(keys, surviving(keys, at)), p, len),
        forall|i: int|
            0 <= i < at.len() ==> stands(keys, surviving(keys, at), keys[#[trigger] at[i]]),
        forall|j: int|
            0 <= j < surviving(keys, at).len() ==> at.contains(#[trigger] surviving(keys, at)[j]),
    decreases at.len(),
{
    let live = keys_at(keys, at);
    let pass = stripped(live);
    lemma_kept_from(live, 0);
    if pass.len() >= at.len() {
        lemma_nothing_dropped(live, 0);
        assert forall|p: int, len: int| !#[trigger] repeats(live, p, len) by {
            if p < 0 {
                assert(!repeats(live, p, len));
            }
        }
        assert forall|j: int| 0 <= j < at.len() implies at.contains(#[trigger] at[j]) by {}
    } else {
        let next = pass.map_values(|j: int| at[j]);
        assert(ascending_within(next, 0, keys.len() as int)) by {
            assert forall|i: int, j: int| 0 <= i < j < next.len() implies #[trigger] next[i]
                < #[trigger] next[j] by {
                assert(pass[i] < pass[j]);
            }
            assert forall|i: int| 0 <= i < next.len() implies 0 <= #[trigger] next[i]
                < keys.len() by {
                assert(0 <= pass[i] < at.len());
            }
        }
        lemma_surviving(keys, next);
        let end = surviving(keys, at);
        assert(end == surviving(keys, next));
        assert forall|i: int| 0 <= i < at.len() implies stands(
            keys,
            end,
            keys[#[trigger] at[i]],
        ) by {
            assert(live[i] == keys[at[i]]);
            assert(stands(live, pass, live[i]));
            let k = choose|k: int| 0 <= k < pass.len() && live[#[trigger] pass[k]] == live[i];
            assert(keys[next[k]] == live[pass[k]]);
        }
        assert forall|j: int| 0 <= j < end.len() implies at.contains(#[trigger] end[j]) by {
            assert(next.contains(end[j]));
            let k = choose|k: int| 0 <= k < next.len() && next[k] == end[j];
            assert(at[pass[k]] == end[j]);
        }
    }
}

/// The rows that survive keep their order, and each stands once.
pub proof fn survivors_keep_their_order(keys: Seq<u64>)
    ensures
        ascending_within(survivors(keys), 0, keys.len() as int),
{
    lemma_surviving(keys, all_positions(keys.len() as int));
}

/// Among the survivors no chunk of two or more is followed by a copy of
/// itself: the result does not depend on how often the conversation was
/// reopened.
pub proof fn survivors_hold_no_replay(keys: Seq<u64>, at: int, len: int)
    ensures
        !repeats(keys_at(keys, survivors(keys)), at, len),
{
    lemma_surviving(keys, all_positions(keys.len() as int));
}

/// Nothing that was said is lost: every key of the conversation still stands
/// at some surviving row.
pub proof fn survivors_lose_nothing(keys: Seq<u64>, i: int)
    requires
        0 <= i < keys.len(),
    ensures
        keys_at(keys, survivors(keys)).contains(keys[i]),
{
    let all = all_positions(keys.len() as int);
    lemma_surviving(keys, all);
    assert(all[i] == i);
    let j = choose|j: int|
        0 <= j < survivors(keys).len() && keys[#[trigger] survivors(keys)[j]] == keys[all[i]];
    assert(keys_at(keys, survivors(keys))[j] == keys[i]);
}

/// At `p` or behind it a kept position has the key of `p`.
spec fn kept_at_or_after(keys: Seq<u64>, kept: Seq<int>, p: int) -> bool {
    exists|j: int| 0 <= j < kept.len() && p <= #[trigger] kept[j] && keys[kept[j]] == keys[p]
}

proof fn lemma_kept_later(keys: Seq<u64>, at: int)
    requires
        0 <= at,
    ensures
        forall|p: int| at <= p < keys.len() ==> #[trigger] kept_at_or_after(
            keys,
            kept_from(keys, at),
            p,
        ),
        forall|p: int|
            at <= p < keys.len() && keys.len() - 2 <= p ==> #[trigger] kept_from(
                keys,
                at,
            ).contains(p),
    decreases keys.len() - at,
{
    let kept = kept_from(keys, at);
    if at < keys.len() {
        lemma_longest_replay(keys, at);
        match longest_replay(keys, at) {
            Some(len) => {
                lemma_kept_later(keys, at + len);
                let rest = kept_from(keys, at + len);
                assert(kept == rest);
                assert forall|p: int| at <= p < keys.len() implies #[trigger] kept_at_or_after(
                    keys,
                    kept,
                    p,
                ) by {
                    if p < at + len {
                        assert(keys.subrange(at, at + len)[p - at] == keys.subrange(
                            at + len,
                            at + 2 * len,
                        )[p - at]);
                        assert(keys[p] == keys[p + len]);
                        assert(kept_at_or_after(keys, rest, p + len));
                        let j = choose|j: int|
                            0 <= j < kept.len() && p + len <= #[trigger] kept[j] && keys[kept[j]]
                                == keys[p + len];
                        assert(p <= kept[j] && keys[kept[j]] == keys[p]);
                    } else {
                        assert(kept_at_or_after(keys, rest, p));
                    }
                }
            },
            None => {
                let rest = kept_from(keys, at + 1);
                lemma_kept_later(keys, at + 1);
                assert(kept[0] == at);
                assert(forall|j: int| 0 < j < kept.len() ==> #[trigger] kept[j] == rest[j - 1]);
                assert forall|p: int| at <= p < keys.len() implies #[trigger] kept_at_or_after(
                    keys,
                    kept,
                    p,
                ) by {
                    if p > at {
                        assert(kept_at_or_after(keys, rest, p));
                        let j = choose|j: int|
                            0 <= j < rest.len() && p <= #[trigger] rest[j] && keys[rest[j]]
                                == keys[p];
                        assert(kept[j + 1] == rest[j]);
                    }
                }
                assert forall|p: int|
                    at <= p < keys.len() && keys.len() - 2 <= p implies #[trigger] kept.contains(
                    p,
                ) by {
                    if p > at {
                        assert(rest.contains(p));
                        let j = choose|j: int| 0 <= j < rest.len() && rest[j] == p;
                        assert(kept[j + 1] == p);
                    }
                }
            },
        }
    }
}

proof fn lemma_surviving_later(keys: Seq<u64>, at: Seq<int>)
    requires
        ascending_within(at, 0, keys.len() as int),
    ensures
        forall|i: int|
            0 <= i < at.len() ==> kept_at_or_after(keys, surviving(keys, at), #[trigger] at[i]),
        forall|i: int|
            0 <= i < at.len() && at.len() - 2 <= i ==> surviving(keys, at).contains(
                #[trigger] at[i],
            ),
    decreases at.len(),
{
    let live = keys_at(keys, at);
    let pass = stripped(live);
    lemma_kept_from(live, 0);
    lemma_kept_later(live, 0);
    let end = surviving(keys, at);
    if pass.len() < at.len() {
        let next = pass.map_values(|j: int| at[j]);
        assert(ascending_within(next, 0, keys.len() as int)) by {
            assert forall|i: int, j: int| 0 <= i < j < next.len() implies #[trigger] next[i]
                < #[trigger] next[j] by {
                assert(pass[i] < pass[j]);
            }
            assert forall|i: int| 0 <= i < next.len() implies 0 <= #[trigger] next[i]
                < keys.len() by {
                assert(0 <= pass[i] < at.len());
            }
        }
        lemma_surviving_later(keys, next);
        assert forall|i: int| 0 <= i < at.len() implies kept_at_or_after(
            keys,
            end,
            #[trigger] at[i],
        ) by {
            assert(kept_at_or_after(live, pass, i));
            let k = choose|k: int|
                0 <= k < pass.len() && i <= #[trigger] pass[k] && live[pass[k]] == live[i];
            assert(0 <= pass[k] < at.len());
            if i < pass[k] {
                assert(at[i] < at[pass[k]]);
            }
            assert(kept_at_or_after(keys, end, next[k]));
            let j = choose|j: int|
                0 <= j < end.len() && next[k] <= #[trigger] end[j] && keys[end[j]] == keys[next[k]];
            assert(at[i] <= end[j] && keys[end[j]] == keys[at[i]]);
        }
        assert forall|i: int| 0 <= i < at.len() && at.len() - 2 <= i implies end.contains(
            #[trigger] at[i],
        ) by {
            assert(pass.contains(i));
            let k = choose|k: int| 0 <= k < pass.len() && pass[k] == i;
            if k < pass.len() - 2 {
                assert(pass[k] < pass[k + 1]);
                assert(pass[k + 1] < pass[k + 2]);
                assert(pass[k + 2] < at.len());
            }
            assert(next[k] == at[i]);
        }
    } else {
        assert forall|i: int| 0 <= i < at.len() implies kept_at_or_after(
            keys,
            end,
            #[trigger] at[i],
        ) by {
            assert(at[i] <= end[i]);
        }
    }
}

/// A row that is dropped is a replay of one that follows it: a surviving row
/// behind it has its key.
pub proof fn a_dropped_row_has_a_surviving_copy_behind_it(keys: Seq<u64>, i: int)
    requires
        0 <= i < keys.len(),
        !survivors(keys).contains(i),
    ensures
        exists|j: int|
            0 <= j < survivors(keys).len() && i < #[trigger] survivors(keys)[j]
                && keys[survivors(keys)[j]] == keys[i],
{
    let all = all_positions(keys.len() as int);
    let end = survivors(keys);
    lemma_surviving_later(keys, all);
    assert(kept_at_or_after(keys, end, all[i]));
    let j = choose|j: int|
        0 <= j < end.len() && i <= #[trigger] end[j] && keys[end[j]] == keys[i];
    assert(end[j] != i);
}

/// The last two rows of a conversation always survive.
pub proof fn the_last_two_rows_survive(keys: Seq<u64>, i: int)
    requires
        0 <= i < keys.len(),
        keys.len() - 2 <= i,
    ensures
        survivors(keys).contains(i),
{
    let all = all_positions(keys.len() as int);
    lemma_surviving_later(keys, all);
    assert(survivors(keys).contains(all[i]));
}

/// A conversation without replays is left alone.
pub proof fn a_clean_conversation_survives_whole(keys: Seq<u64>)
    requires
        forall|at: int, len: int| !#[trigger] repeats(keys, at, len),
    ensures
        survivors(keys) == all_positions(keys.len() as int),
{
    let all = all_positions(keys.len() as int);
    assert(keys_at(keys, all) =~= keys);
    lemma_nothing_to_drop(keys, 0);
}

/// Searching the survivors again finds nothing more to drop.
pub proof fn stripping_twice_changes_nothing(keys: Seq<u64>)
    ensures
        survivors(keys_at(keys, survivors(keys))) == all_positions(survivors(keys).len() as int),
{
    let live = keys_at(keys, survivors(keys));
    assert forall|at: int, len: int| !#[trigger] repeats(live, at, len) by {
        survivors_hold_no_replay(keys, at, len);
    }
    a_clean_conversation_survives_whole(live);
}

// ---------------------------------------------------------------------
// A replayed conversation
// ---------------------------------------------------------------------

/// The rows left behind when every save inserts the whole conversation so
/// far: one block per save, each the opening `lens[i]` messages.
pub open spec fn replayed(conversation: Seq<u64>, lens: Seq<int>) -> Seq<u64>
    decreases lens.len(),
{
    if lens.len() == 0 {
        Seq::empty()
    } else {
        conversation.take(lens[0]) + replayed(conversation, lens.skip(1))
    }
}

/// A history of saves of a growing conversation, the last of them complete.
pub open spec fn saves_of(conversation: Seq<u64>, lens: Seq<int>) -> bool {
    &&& lens.len() > 0
    &&& lens.last() == conversation.len()
    &&& forall|i: int| 0 <= i < lens.len() ==> 2 <= #[trigger] lens[i] <= conversation.len()
    &&& forall|i: int, j: int| 0 <= i <= j < lens.len() ==> #[trigger] lens[i] <= #[trigger] lens[j]
}

proof fn lemma_later_saves(conversation: Seq<u64>, lens: Seq<int>, j: int)
    requires
        saves_of(conversation, lens),
        0 <= j < lens.len(),
    ensures
        saves_of(conversation, lens.skip(j)),
{
    assert forall|a: int, b: int| 0 <= a <= b < lens.skip(j).len() implies #[trigger] lens.skip(
        j,
    )[a] <= #[trigger] lens.skip(j)[b] by {
        assert(lens[a + j] <= lens[b + j]);
    }
}

/// Where the opening message of a conversation of distinct messages stands,
/// a block begins.
proof fn lemma_block_start(
    before: Seq<u64>,
    conversation: Seq<u64>,
    lens: Seq<int>,
    q: int,
) -> (j: int)
    requires
        saves_of(conversation, lens),
        conversation.no_duplicates(),
        before.len() <= q < before.len() + replayed(conversation, lens).len(),
        (before + replayed(conversation, lens))[q] == conversation[0],
    ensures
        0 <= j < lens.len(),
        before + replayed(conversation, lens) == (before + replayed(conversation, lens)).take(q)
            + replayed(conversation, lens.skip(j)),
        j == 0 ==> q == before.len(),
    decreases lens.len(),
{
    let table = before + replayed(conversation, lens);
    let n = lens[0];
    let rest = replayed(conversation, lens.skip(1));
    assert(replayed(conversation, lens) == conversation.take(n) + rest);
    if q < before.len() + n {
        assert(table[q] == conversation[q - before.len()]);
        assert(q == before.len());
        assert(lens.skip(0) =~= lens);
        assert(table.take(q) =~= before);
        0
    } else {
        let more = before + conversation.take(n);
        assert(table =~= more + rest);
        if lens.len() == 1 {
            assert(lens.skip(1).len() == 0);
        }
        lemma_later_saves(conversation, lens, 1);
        let k = lemma_block_start(more, conversation, lens.skip(1), q);
        assert(lens.skip(1).skip(k) =~= lens.skip(k + 1));
        k + 1
    }
}

proof fn lemma_replayed_kept(before: Seq<u64>, conversation: Seq<u64>, lens: Seq<int>)
    requires
        saves_of(conversation, lens),
        conversation.no_duplicates(),
    ensures
        ({
            let table = before + replayed(conversation, lens);
            let first = table.len() - conversation.len();
            &&& before.len() <= first
            &&& table.skip(first) == conversation
            &&& kept_from(table, before.len() as int) == Seq::new(
                conversation.len(),
                |i: int| first + i,
            )
        }),
    decreases lens.len(),
{
    let table = before + replayed(conversation, lens);
    let at = before.len() as int;
    let n = lens[0];
    let later = replayed(conversation, lens.skip(1));
    assert(replayed(conversation, lens) == conversation.take(n) + later);
    if lens.len() == 1 {
        assert(lens.skip(1).len() == 0);
        assert(conversation.take(n) =~= conversation);
        assert(table =~= before + conversation);
        assert forall|p: int, len: int| at <= p implies !#[trigger] repeats(table, p, len) by {
            if repeats(table, p, len) {
                assert(table.subrange(p, p + len)[0] == table.subrange(p + len, p + 2 * len)[0]);
                assert(conversation[p - at] == conversation[p + len - at]);
            }
        }
        lemma_nothing_to_drop(table, at);
        assert(table.skip(at) =~= conversation);
    } else {
        let m = lens[1];
        let last = replayed(conversation, lens.skip(1).skip(1));
        assert(lens.skip(1)[0] == m);
        assert(later == conversation.take(m) + last);
        assert(table.subrange(at, at + n) =~= conversation.take(n));
        assert(table.subrange(at + n, at + 2 * n) =~= conversation.take(n));
        assert(repeats(table, at, n));
        lemma_longest_replay(table, at);
        let len = longest_replay(table, at)->0;
        assert(table.subrange(at, at + len)[0] == table.subrange(at + len, at + 2 * len)[0]);
        assert(table[at] == conversation[0]);
        let j = lemma_block_start(before, conversation, lens, at + len);
        lemma_later_saves(conversation, lens, j);
        lemma_replayed_kept(table.take(at + len), conversation, lens.skip(j));
    }
}

/// A conversation of distinct messages that was inserted again on every save
/// is reduced to what was actually said, however many messages each turn
/// added.
pub proof fn a_replayed_conversation_is_rebuilt(conversation: Seq<u64>, lens: Seq<int>)
    requires
        saves_of(conversation, lens),
        conversation.no_duplicates(),
    ensures
        keys_at(
            replayed(conversation, lens),
            survivors(replayed(conversation, lens)),
        ) == conversation,
{
    let table = replayed(conversation, lens);
    let none = Seq::<u64>::empty();
    assert(none + table =~= table);
    lemma_replayed_kept(none, conversation, lens);
    let all = all_positions(table.len() as int);
    assert(keys_at(table, all) =~= table);
    let pass = stripped(table);
    let next = pass.map_values(|j: int| all[j]);
    assert(next =~= pass);
    let live = keys_at(table, pass);
    assert(live =~= conversation) by {
        assert forall|i: int| 0 <= i < conversation.len() implies live[i] == conversation[i] by {
            let first = table.len() - conversation.len();
            assert(table.skip(first)[i] == table[first + i]);
        }
    }
    if pass.len() < all.len() {
        assert forall|p: int, len: int| 0 <= p implies !#[trigger] repeats(live, p, len) by {
            if repeats(live, p, len) {
                assert(live.subrange(p, p + len)[0] == live.subrange(p + len, p + 2 * len)[0]);
                assert(conversation[p] == conversation[p + len]);
            }
        }
        lemma_nothing_to_drop(live, 0);
        assert(surviving(table, pass) == pass);
        assert(survivors(table) == pass);
    } else {
        assert(survivors(table) == all);
        lemma_kept_from(table, 0);
        lemma_ascending_len(pass, 0, table.len() as int);
        assert(pass =~= all);
    }
}

} // verus!
