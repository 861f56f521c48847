//! Names that a mistyped one may have been meant to be.

use crate::order::order_positions;
#[allow(unused_imports)]
use crate::order::{arranged, stable_order, stable_order_is_stable, weak_order};
use crate::text::{byte_length, chars_of, contains, is_before, to_lowercase};
#[allow(unused_imports)]
use crate::text::{
    byte_len, has_part, lemma_text_before_chain, lemma_text_before_one_way,
    lemma_text_before_total, lowercase, lowers_plainly, text_before, texts,
};
#[allow(unused_imports)]
use crate::text_laws::{
    a_part_stands_at_some_position, texts_are_ordered_by_their_first_difference,
};
use vstd::prelude::*;
#[allow(unused_imports)]
use vstd::utf8::encode_utf8;

verus! {

// ---------------------------------------------------------------------
// Edit distance
// ---------------------------------------------------------------------

/// The smallest of three numbers.
pub open spec fn least(a: nat, b: nat, c: nat) -> nat {
    if a <= b && a <= c {
        a
    } else if b <= c {
        b
    } else {
        c
    }
}

/// The Levenshtein distance: how many characters have to be put in, taken out
/// or replaced to turn one text into the other.
pub open spec fn distance(left: Seq<char>, right: Seq<char>) -> nat
    decreases left.len() + right.len(),
{
    if left.len() == 0 {
        right.len()
    } else if right.len() == 0 {
        left.len()
    } else {
        least(
            distance(left.drop_last(), right.drop_last()) + if left.last() == right.last() {
                0nat
            } else {
                1
            },
            distance(left.drop_last(), right) + 1,
            distance(left, right.drop_last()) + 1,
        )
    }
}

/// No distance is longer than the longer of the texts.
pub proof fn distance_is_at_most_the_longer_length(left: Seq<char>, right: Seq<char>)
    ensures
        distance(left, right) <= left.len() || distance(left, right) <= right.len(),
    decreases left.len() + right.len(),
{
    if left.len() > 0 && right.len() > 0 {
        distance_is_at_most_the_longer_length(left.drop_last(), right.drop_last());
    }
}

/// The distance is zero between equal texts and between no others.
pub proof fn distance_is_zero_between_equal_texts(left: Seq<char>, right: Seq<char>)
    ensures
        distance(left, right) == 0 <==> left == right,
    decreases left.len() + right.len(),
{
    if left.len() > 0 && right.len() > 0 {
        distance_is_zero_between_equal_texts(left.drop_last(), right.drop_last());
        if distance(left, right) == 0 {
            assert(left =~= left.drop_last().push(left.last()));
            assert(right =~= right.drop_last().push(right.last()));
        }
    } else if distance(left, right) == 0 {
        assert(left =~= right);
    }
}

/// The distance does not depend on the direction.
pub proof fn distance_is_symmetric(left: Seq<char>, right: Seq<char>)
    ensures
        distance(left, right) == distance(right, left),
    decreases left.len() + right.len(),
{
    if left.len() > 0 && right.len() > 0 {
        distance_is_symmetric(left.drop_last(), right.drop_last());
        distance_is_symmetric(left.drop_last(), right);
        distance_is_symmetric(left, right.drop_last());
    }
}

proof fn lemma_distance_and_lengths(left: Seq<char>, right: Seq<char>)
    ensures
        left.len() <= right.len() + distance(left, right),
        right.len() <= left.len() + distance(left, right),
        distance(left, right) <= left.len() + right.len(),
    decreases left.len() + right.len(),
{
    if left.len() > 0 && right.len() > 0 {
        lemma_distance_and_lengths(left.drop_last(), right.drop_last());
        lemma_distance_and_lengths(left.drop_last(), right);
        lemma_distance_and_lengths(left, right.drop_last());
    }
}

/// A detour is no shorter than the direct way.
pub proof fn distance_obeys_the_triangle_inequality(a: Seq<char>, b: Seq<char>, c: Seq<char>)
    ensures
        distance(a, c) <= distance(a, b) + distance(b, c),
    decreases a.len() + b.len() + c.len(),
{
    lemma_distance_and_lengths(a, b);
    lemma_distance_and_lengths(b, c);
    lemma_distance_and_lengths(a, c);
    if a.len() > 0 && b.len() > 0 && c.len() > 0 {
        let x = a.drop_last();
        let y = b.drop_last();
        let z = c.drop_last();
        distance_obeys_the_triangle_inequality(x, b, c);
        distance_obeys_the_triangle_inequality(a, b, z);
        distance_obeys_the_triangle_inequality(x, y, z);
        distance_obeys_the_triangle_inequality(a, y, c);
        distance_obeys_the_triangle_inequality(x, y, c);
        distance_obeys_the_triangle_inequality(a, y, z);
    }
}

/// The one text becomes the other by putting in, taking out or replacing the
/// character at `k`.
pub open spec fn edited_at(before: Seq<char>, after: Seq<char>, k: int) -> bool {
    ||| 0 <= k < after.len() && after.remove(k) == before
    ||| 0 <= k < before.len() && before.remove(k) == after
    ||| 0 <= k < before.len() && before.len() == after.len() && before.update(k, after[k]) == after
}

/// The one text becomes the other by one edit.
pub open spec fn one_edit(before: Seq<char>, after: Seq<char>) -> bool {
    exists|k: int| #[trigger] edited_at(before, after, k)
}

/// The list leads from the one text to the other, one edit at a time.
pub open spec fn leads(left: Seq<char>, right: Seq<char>, list: Seq<Seq<char>>) -> bool {
    &&& list.len() > 0
    &&& list[0] == left
    &&& list.last() == right
    &&& forall|i: int| 0 <= i < list.len() - 1 ==> #[trigger] one_edit(list[i], list[i + 1])
}

proof fn lemma_same_ending(a: Seq<char>, b: Seq<char>, end: Seq<char>)
    ensures
        distance(a + end, b + end) <= distance(a, b),
    decreases end.len(),
{
    if end.len() == 0 {
        assert(a + end =~= a);
        assert(b + end =~= b);
    } else {
        lemma_same_ending(a, b, end.drop_last());
        assert((a + end).drop_last() =~= a + end.drop_last());
        assert((b + end).drop_last() =~= b + end.drop_last());
    }
}

proof fn lemma_one_inserted(after: Seq<char>, k: int)
    requires
        0 <= k < after.len(),
    ensures
        distance(after.remove(k), after) <= 1,
{
    let start = after.take(k);
    let more = after.take(k + 1);
    let end = after.skip(k + 1);
    assert(more.drop_last() =~= start);
    distance_is_zero_between_equal_texts(start, start);
    assert(distance(start, more) <= 1);
    assert(start + end =~= after.remove(k));
    assert(more + end =~= after);
    lemma_same_ending(start, more, end);
}

proof fn lemma_one_edit_is_near(before: Seq<char>, after: Seq<char>)
    requires
        one_edit(before, after),
    ensures
        distance(before, after) <= 1,
{
    let k = choose|k: int| #[trigger] edited_at(before, after, k);
    if 0 <= k < after.len() && after.remove(k) == before {
        lemma_one_inserted(after, k);
    } else if 0 <= k < before.len() && before.remove(k) == after {
        lemma_one_inserted(before, k);
        distance_is_symmetric(before, after);
    } else {
        let old_start = before.take(k + 1);
        let new_start = after.take(k + 1);
        let end = after.skip(k + 1);
        assert(old_start.drop_last() =~= new_start.drop_last());
        distance_is_zero_between_equal_texts(old_start.drop_last(), new_start.drop_last());
        assert(distance(old_start, new_start) <= 1);
        assert(old_start + end =~= before);
        assert(new_start + end =~= after);
        lemma_same_ending(old_start, new_start, end);
    }
}

/// No list of edits that leads from the one text to the other is shorter than
/// their distance.
pub proof fn no_edits_are_fewer_than_the_distance(
    left: Seq<char>,
    right: Seq<char>,
    list: Seq<Seq<char>>,
)
    requires
        leads(left, right, list),
    ensures
        distance(left, right) <= list.len() - 1,
    decreases list.len(),
{
    if list.len() == 1 {
        distance_is_zero_between_equal_texts(left, right);
    } else {
        let n = list.len() - 1;
        let rest = list.drop_last();
        let last = rest.last();
        assert(leads(left, last, rest)) by {
            assert forall|i: int| 0 <= i < rest.len() - 1 implies #[trigger] one_edit(
                rest[i],
                rest[i + 1],
            ) by {
                assert(one_edit(list[i], list[i + 1]));
            }
        }
        no_edits_are_fewer_than_the_distance(left, last, rest);
        assert(one_edit(list[n - 1], list[n - 1 + 1]));
        lemma_one_edit_is_near(last, right);
        distance_obeys_the_triangle_inequality(left, last, right);
    }
}

proof fn lemma_leads_further(
    left: Seq<char>,
    middle: Seq<char>,
    right: Seq<char>,
    list: Seq<Seq<char>>,
)
    requires
        leads(left, middle, list),
        one_edit(middle, right),
    ensures
        leads(left, right, list.push(right)),
{
    let more = list.push(right);
    assert forall|i: int| 0 <= i < more.len() - 1 implies #[trigger] one_edit(
        more[i],
        more[i + 1],
    ) by {
        if i < list.len() - 1 {
            assert(one_edit(list[i], list[i + 1]));
        }
    }
}

proof fn lemma_leads_from(
    left: Seq<char>,
    middle: Seq<char>,
    right: Seq<char>,
    list: Seq<Seq<char>>,
)
    requires
        one_edit(left, middle),
        leads(middle, right, list),
    ensures
        leads(left, right, seq![left] + list),
{
    let more = seq![left] + list;
    assert forall|i: int| 0 <= i < more.len() - 1 implies #[trigger] one_edit(
        more[i],
        more[i + 1],
    ) by {
        if i > 0 {
            assert(one_edit(list[i - 1], list[i - 1 + 1]));
        }
    }
    assert(more.last() == list.last());
}

proof fn lemma_leads_with(left: Seq<char>, right: Seq<char>, list: Seq<Seq<char>>, c: char)
    requires
        leads(left, right, list),
    ensures
        leads(left.push(c), right.push(c), list.map_values(|s: Seq<char>| s.push(c))),
{
    let more = list.map_values(|s: Seq<char>| s.push(c));
    assert forall|i: int| 0 <= i < more.len() - 1 implies #[trigger] one_edit(
        more[i],
        more[i + 1],
    ) by {
        assert(one_edit(list[i], list[i + 1]));
        let a = list[i];
        let b = list[i + 1];
        let k = choose|k: int| #[trigger] edited_at(a, b, k);
        if 0 <= k < b.len() && b.remove(k) == a {
            assert(b.push(c).remove(k) =~= a.push(c));
        } else if 0 <= k < a.len() && a.remove(k) == b {
            assert(a.push(c).remove(k) =~= b.push(c));
        } else {
            assert(a.push(c).update(k, b.push(c)[k]) =~= b.push(c));
        }
        assert(edited_at(more[i], more[i + 1], k));
    }
}

proof fn lemma_fewest_edits(left: Seq<char>, right: Seq<char>) -> (list: Seq<Seq<char>>)
    ensures
        leads(left, right, list),
        list.len() == distance(left, right) + 1,
    decreases left.len() + right.len(),
{
    if left.len() == 0 && right.len() == 0 {
        assert(left =~= right);
        seq![left]
    } else if left.len() == 0 || (right.len() > 0 && distance(left, right) == distance(
        left,
        right.drop_last(),
    ) + 1) {
        let rest = lemma_fewest_edits(left, right.drop_last());
        assert(right.remove(right.len() - 1) =~= right.drop_last());
        assert(edited_at(right.drop_last(), right, right.len() - 1));
        lemma_leads_further(left, right.drop_last(), right, rest);
        rest.push(right)
    } else if right.len() == 0 || distance(left, right) == distance(left.drop_last(), right) + 1 {
        let rest = lemma_fewest_edits(left.drop_last(), right);
        assert(left.remove(left.len() - 1) =~= left.drop_last());
        assert(edited_at(left, left.drop_last(), left.len() - 1));
        lemma_leads_from(left, left.drop_last(), right, rest);
        seq![left] + rest
    } else {
        let c = left.last();
        let rest = lemma_fewest_edits(left.drop_last(), right.drop_last());
        let list = rest.map_values(|s: Seq<char>| s.push(c));
        lemma_leads_with(left.drop_last(), right.drop_last(), rest, c);
        assert(left.drop_last().push(c) =~= left);
        if right.last() == c {
            assert(right.drop_last().push(c) =~= right);
            list
        } else {
            let middle = right.drop_last().push(c);
            let k = right.len() - 1;
            assert(middle.update(k, right[k]) =~= right);
            assert(edited_at(middle, right, k));
            lemma_leads_further(left, middle, right, list);
            list.push(right)
        }
    }
}

/// As many edits as the distance says are enough to turn the one text into
/// the other.
pub proof fn as_many_edits_as_the_distance_are_enough(left: Seq<char>, right: Seq<char>)
    ensures
        exists|list: Seq<Seq<char>>| #[trigger]
            leads(left, right, list) && list.len() == distance(left, right) + 1,
{
    let list = lemma_fewest_edits(left, right);
    assert(leads(left, right, list));
}

/// One row of the table: the distances of `left` to the beginnings of
/// `right`.
spec fn row_of(left: Seq<char>, right: Seq<char>, row: Seq<u128>) -> bool {
    &&& row.len() == right.len() + 1
    &&& forall|j: int|
        0 <= j <= right.len() ==> #[trigger] row[j] == distance(left, right.take(j))
}

proof fn lemma_row_bound(left: Seq<char>, right: Seq<char>, row: Seq<u128>)
    requires
        row_of(left, right, row),
    ensures
        forall|j: int|
            0 <= j <= right.len() ==> #[trigger] row[j] <= left.len() || row[j] <= right.len(),
{
    assert forall|j: int| 0 <= j <= right.len() implies #[trigger] row[j] <= left.len() || row[j]
        <= right.len() by {
        distance_is_at_most_the_longer_length(left, right.take(j));
    }
}

/// Levenshtein distance, two rows at a time.
pub fn edit_distance(left: &str, right: &str) -> (r: usize)
    ensures
        r == distance(left@, right@),
{
    let left_chars = chars_of(left);
    let right_chars = chars_of(right);
    let n = right_chars.len();
    let mut previous: Vec<u128> = Vec::new();
    previous.push(0);
    for j in 0..n
        invariant
            previous@.len() == j + 1,
            forall|k: int| 0 <= k <= j ==> #[trigger] previous@[k] == k,
    {
        previous.push(j as u128 + 1);
    }
    proof {
        assert(left@.take(0) =~= Seq::<char>::empty());
        assert forall|j: int| 0 <= j <= n implies #[trigger] previous@[j] == distance(
            left@.take(0),
            right@.take(j),
        ) by {}
    }
    for i in 0..left_chars.len()
        invariant
            left_chars@ == left@,
            right_chars@ == right@,
            n == right@.len(),
            row_of(left@.take(i as int), right@, previous@),
    {
        let ghost here = left@.take(i + 1);
        let ghost above = left@.take(i as int);
        assert(here.drop_last() =~= above);
        assert(here.last() == left@[i as int]);
        proof {
            lemma_row_bound(above, right@, previous@);
        }
        let mut current: Vec<u128> = Vec::new();
        current.push(i as u128 + 1);
        assert(right@.take(0) =~= Seq::<char>::empty());
        assert(current@[0] == distance(here, right@.take(0)));
        for j in 0..n
            invariant
                left_chars@ == left@,
                right_chars@ == right@,
                n == right@.len(),
                i < left@.len(),
                here == left@.take(i + 1),
                above == left@.take(i as int),
                here.drop_last() == above,
                row_of(above, right@, previous@),
                forall|k: int|
                    0 <= k <= right@.len() ==> #[trigger] previous@[k] <= above.len()
                        || previous@[k] <= right@.len(),
                current@.len() == j + 1,
                forall|k: int|
                    0 <= k <= j ==> #[trigger] current@[k] == distance(here, right@.take(k)),
        {
            let ghost column = right@.take(j + 1);
            proof {
                assert(column.drop_last() =~= right@.take(j as int));
                distance_is_at_most_the_longer_length(here, right@.take(j as int));
            }
            let cost: u128 = if left_chars[i] == right_chars[j] {
                0
            } else {
                1
            };
            let substitution: u128 = previous[j] + cost;
            let removal: u128 = previous[j + 1] + 1;
            let insertion: u128 = current[j] + 1;
            let mut best = substitution;
            if removal < best {
                best = removal;
            }
            if insertion < best {
                best = insertion;
            }
            assert(best == distance(here, column));
            current.push(best);
        }
        previous = current;
    }
    proof {
        assert(left@.take(left@.len() as int) =~= left@);
        assert(right@.take(right@.len() as int) =~= right@);
        lemma_row_bound(left@, right@, previous@);
    }
    previous[n] as usize
}

// ---------------------------------------------------------------------
// Suggestions
// ---------------------------------------------------------------------

/// The most names that are suggested.
pub const MOST_SUGGESTIONS: usize = 3;

/// How far a candidate is from what was typed, both in lowercase, when it is
/// close enough: one contains the other, or there is at most one typo and
/// another for every four bytes of the candidate.
pub open spec fn score(needle: Seq<char>, candidate: Seq<char>) -> Option<nat> {
    if has_part(candidate, needle) || has_part(needle, candidate) {
        Some(0)
    } else if distance(needle, candidate) <= 1 + byte_len(candidate) / 4 {
        Some(distance(needle, candidate))
    } else {
        None
    }
}

/// The names that are close enough, each with its distance.
pub open spec fn scored(names: Seq<Seq<char>>, needle: Seq<char>) -> Seq<(nat, Seq<char>)>
    decreases names.len(),
{
    if names.len() == 0 {
        Seq::empty()
    } else {
        let rest = scored(names.drop_last(), needle);
        match score(needle, lowercase(names.last())) {
            Some(n) => rest.push((n, names.last())),
            None => rest,
        }
    }
}

/// The nearer of two scored names, and of equally near ones the first in the
/// order of strings.
pub open spec fn nearer(a: (nat, Seq<char>), b: (nat, Seq<char>)) -> bool {
    a.0 < b.0 || (a.0 == b.0 && text_before(a.1, b.1))
}

/// The scored names, the nearest first.
pub open spec fn nearest_first(list: Seq<(nat, Seq<char>)>) -> Seq<(nat, Seq<char>)> {
    arranged(list, stable_order(list.len(), |a: int, b: int| nearer(list[a], list[b])))
}

/// The names that are suggested.
pub open spec fn suggestions(names: Seq<Seq<char>>, name: Seq<char>) -> Seq<Seq<char>> {
    let list = nearest_first(scored(names, lowercase(name)));
    let shown = if list.len() <= MOST_SUGGESTIONS {
        list
    } else {
        list.take(MOST_SUGGESTIONS as int)
    };
    shown.map_values(|s: (nat, Seq<char>)| s.1)
}

fn score_of(needle: &str, candidate: &str) -> (r: Option<usize>)
    ensures
        match r {
            Some(n) => score(needle@, candidate@) == Some(n as nat),
            None => score(needle@, candidate@) is None,
        },
{
    if contains(candidate, needle) || contains(needle, candidate) {
        return Some(0);
    }
    let d = edit_distance(needle, candidate);
    if d <= 1 + byte_length(candidate) / 4 {
        Some(d)
    } else {
        None
    }
}

/// The pairs of two lists.
spec fn pairs(scores: Seq<usize>, names: Seq<String>) -> Seq<(nat, Seq<char>)> {
    Seq::new(names.len(), |i: int| (scores[i] as nat, names[i]@))
}

/// Existing names close enough to be what the user meant.
///
/// `chat --session <typo>` silently created a brand-new empty session, so a
/// mistyped name looked exactly like a lost conversation.
pub fn suggest_similar_sessions(names: &Vec<String>, name: &str) -> (r: Vec<String>)
    ensures
        texts(r@) == suggestions(texts(names@), name@),
        lowers_plainly(name@),
        forall|i: int| 0 <= i < names@.len() ==> lowers_plainly((#[trigger] names@[i])@),
{
    let needle = to_lowercase(name);
    let ghost all = texts(names@);
    let mut scores: Vec<usize> = Vec::new();
    let mut close: Vec<String> = Vec::new();
    assert(pairs(scores@, close@) =~= scored(all.take(0), needle@));
    for i in 0..names.len()
        invariant
            all == texts(names@),
            scores@.len() == close@.len(),
            pairs(scores@, close@) == scored(all.take(i as int), needle@),
            forall|k: int| 0 <= k < i ==> lowers_plainly((#[trigger] names@[k])@),
    {
        assert(all.take(i + 1).drop_last() =~= all.take(i as int));
        let candidate = to_lowercase(names[i].as_str());
        let ghost before = pairs(scores@, close@);
        if let Some(n) = score_of(needle.as_str(), candidate.as_str()) {
            scores.push(n);
            close.push(names[i].clone());
            assert(pairs(scores@, close@) =~= before.push((n as nat, all[i as int])));
        }
    }
    assert(all.take(all.len() as int) =~= all);
    let ghost list = scored(all, needle@);
    let ghost before = |a: int, b: int| nearer(list[a], list[b]);
    let first = |a: usize, b: usize| -> (r: bool)
        requires
            a < close.len(),
            b < close.len(),
            scores@.len() == close@.len(),
        ensures
            r == nearer(
                (scores@[a as int] as nat, close@[a as int]@),
                (scores@[b as int] as nat, close@[b as int]@),
            ),
        {
            if scores[a] < scores[b] {
                true
            } else if scores[b] < scores[a] {
                false
            } else {
                is_before(close[a].as_str(), close[b].as_str())
            }
        };
    assert(forall|i: int| 0 <= i < list.len() ==> #[trigger] list[i] == (scores@[i] as nat, close@[i]@));
    let order = order_positions(close.len(), first, Ghost(before));
    let ghost ints = order@.map_values(|i: usize| i as int);
    let ghost sorted = nearest_first(list);
    let ghost want = suggestions(all, name@);
    let shown: usize = if order.len() <= MOST_SUGGESTIONS {
        order.len()
    } else {
        MOST_SUGGESTIONS
    };
    let mut r: Vec<String> = Vec::new();
    assert(texts(r@) =~= want.take(0));
    for i in 0..shown
        invariant
            shown <= order@.len(),
            shown == want.len(),
            forall|k: int| 0 <= k < order@.len() ==> #[trigger] order@[k] < close@.len(),
            forall|k: int| 0 <= k < shown ==> #[trigger] want[k] == close@[order@[k] as int]@,
            texts(r@) == want.take(i as int),
    {
        let ghost earlier = r@;
        r.push(close[order[i]].clone());
        assert(texts(r@) =~= texts(earlier).push(want[i as int]));
        assert(want.take(i + 1) =~= want.take(i as int).push(want[i as int]));
    }
    assert(want.take(shown as int) =~= want);
    r
}

/// At most three names are suggested, and each is the name of a session.
pub proof fn suggestions_are_few_and_exist(names: Seq<Seq<char>>, name: Seq<char>)
    ensures
        suggestions(names, name).len() <= MOST_SUGGESTIONS,
        forall|i: int|
            0 <= i < suggestions(names, name).len() ==> names.contains(
                #[trigger] suggestions(names, name)[i],
            ),
{
    let list = scored(names, lowercase(name));
    let before = |a: int, b: int| nearer(list[a], list[b]);
    crate::order::lemma_stable_order_range(list.len(), before);
    lemma_scored_exist(names, lowercase(name));
    let sorted = nearest_first(list);
    assert forall|i: int| 0 <= i < suggestions(names, name).len() implies names.contains(
        #[trigger] suggestions(names, name)[i],
    ) by {
        let at = stable_order(list.len(), before)[i];
        assert(sorted[i] == list[at]);
        assert(names.contains(list[at].1));
    }
}

proof fn lemma_scored_exist(names: Seq<Seq<char>>, needle: Seq<char>)
    ensures
        forall|i: int|
            0 <= i < scored(names, needle).len() ==> names.contains(
                (#[trigger] scored(names, needle)[i]).1,
            ),
    decreases names.len(),
{
    if names.len() > 0 {
        let rest = names.drop_last();
        lemma_scored_exist(rest, needle);
        let list = scored(names, needle);
        assert forall|i: int| 0 <= i < list.len() implies names.contains(
            (#[trigger] list[i]).1,
        ) by {
            if i < scored(rest, needle).len() {
                assert(list[i] == scored(rest, needle)[i]);
                let k = choose|k: int| 0 <= k < rest.len() && rest[k] == list[i].1;
                assert(names[k] == list[i].1);
            } else {
                assert(names[names.len() - 1] == list[i].1);
            }
        }
    }
}

// ---------------------------------------------------------------------
// Laws of suggestions
// ---------------------------------------------------------------------

/// The one text stands in the other, side by side from some position on.
pub open spec fn stands_in(part: Seq<char>, whole: Seq<char>) -> bool {
    exists|k: int|
        0 <= k <= whole.len() - part.len() && #[trigger] whole.subrange(k, k + part.len()) == part
}

/// The name is close to the text, both in lowercase: one stands in the other,
/// or there are at most one edit and another for every four bytes of the name
/// between them.
pub open spec fn close_to(text: Seq<char>, name: Seq<char>) -> bool {
    ||| stands_in(lowercase(text), lowercase(name))
    ||| stands_in(lowercase(name), lowercase(text))
    ||| distance(lowercase(text), lowercase(name)) <= 1 + encode_utf8(lowercase(name)).len() / 4
}

/// A name that contains the text, or that the text contains, has no distance;
/// any other has that of the edits between them, when these are few.
pub proof fn a_name_is_scored_by_how_close_it_is(text: Seq<char>, name: Seq<char>)
    ensures
        score(lowercase(text), lowercase(name)) is Some <==> close_to(text, name),
        stands_in(lowercase(text), lowercase(name)) || stands_in(lowercase(name), lowercase(text))
            ==> score(lowercase(text), lowercase(name)) == Some(0nat),
        !stands_in(lowercase(text), lowercase(name)) && !stands_in(
            lowercase(name),
            lowercase(text),
        ) && close_to(text, name) ==> score(lowercase(text), lowercase(name)) == Some(
            distance(lowercase(text), lowercase(name)),
        ),
{
    a_part_stands_at_some_position(lowercase(name), lowercase(text));
    a_part_stands_at_some_position(lowercase(text), lowercase(name));
}

/// What has to be edited to get from the text to the name: nothing where one
/// stands in the other.
pub open spec fn edits_to(text: Seq<char>, name: Seq<char>) -> nat {
    if stands_in(lowercase(text), lowercase(name)) || stands_in(lowercase(name), lowercase(text)) {
        0
    } else {
        distance(lowercase(text), lowercase(name))
    }
}

/// Names are scored one by one and in order: those of two lists are those of
/// the one followed by those of the other.
pub proof fn names_are_scored_one_by_one(
    a: Seq<Seq<char>>,
    b: Seq<Seq<char>>,
    text: Seq<char>,
    name: Seq<char>,
)
    ensures
        scored(Seq::<Seq<char>>::empty(), lowercase(text)).len() == 0,
        scored(a + b, lowercase(text)) == scored(a, lowercase(text)) + scored(b, lowercase(text)),
        close_to(text, name) ==> scored(seq![name], lowercase(text)) == seq![
            (edits_to(text, name), name),
        ],
        !close_to(text, name) ==> scored(seq![name], lowercase(text)).len() == 0,
    decreases b.len(),
{
    let needle = lowercase(text);
    let none = Seq::<Seq<char>>::empty();
    a_name_is_scored_by_how_close_it_is(text, name);
    assert(scored(none, needle).len() == 0);
    assert(seq![name].drop_last() =~= none);
    if close_to(text, name) {
        assert(scored(seq![name], needle) =~= seq![(edits_to(text, name), name)]);
    }
    if b.len() == 0 {
        assert(a + b =~= a);
        assert(scored(a + b, needle) =~= scored(a, needle) + scored(b, needle));
    } else {
        names_are_scored_one_by_one(a, b.drop_last(), text, name);
        assert((a + b).drop_last() =~= a + b.drop_last());
        assert((a + b).last() == b.last());
        assert(scored(a + b, needle) =~= scored(a, needle) + scored(b, needle));
    }
}

proof fn lemma_scored(names: Seq<Seq<char>>, text: Seq<char>)
    ensures
        forall|i: int|
            0 <= i < scored(names, lowercase(text)).len() ==> {
                let s = #[trigger] scored(names, lowercase(text))[i];
                close_to(text, s.1) && s.0 == edits_to(text, s.1) && names.contains(s.1)
            },
        forall|n: int|
            0 <= n < names.len() && close_to(text, #[trigger] names[n]) ==> scored(
                names,
                lowercase(text),
            ).contains((edits_to(text, names[n]), names[n])),
    decreases names.len(),
{
    let list = scored(names, lowercase(text));
    if names.len() > 0 {
        let before = names.drop_last();
        let rest = scored(before, lowercase(text));
        let last = names.len() - 1;
        lemma_scored(before, text);
        a_name_is_scored_by_how_close_it_is(text, names.last());
        assert forall|i: int| 0 <= i < list.len() implies {
            let s = #[trigger] list[i];
            close_to(text, s.1) && s.0 == edits_to(text, s.1) && names.contains(s.1)
        } by {
            if i < rest.len() {
                assert(list[i] == rest[i]);
                let k = choose|k: int| 0 <= k < before.len() && before[k] == list[i].1;
                assert(names[k] == list[i].1);
            } else {
                assert(names[last] == list[i].1);
            }
        }
        assert forall|n: int| 0 <= n < names.len() && close_to(
            text,
            #[trigger] names[n],
        ) implies list.contains((edits_to(text, names[n]), names[n])) by {
            if n < last {
                assert(before[n] == names[n]);
                let k = choose|k: int|
                    0 <= k < rest.len() && rest[k] == (edits_to(text, names[n]), names[n]);
                assert(list[k] == (edits_to(text, names[n]), names[n]));
            } else {
                assert(list[list.len() - 1] == (edits_to(text, names[n]), names[n]));
            }
        }
    }
}

proof fn lemma_nearer(list: Seq<(nat, Seq<char>)>)
    ensures
        weak_order(list.len() as int, |a: int, b: int| nearer(list[a], list[b])),
{
    let before = |a: int, b: int| nearer(list[a], list[b]);
    assert forall|a: int, b: int|
        0 <= a < list.len() && 0 <= b < list.len() && #[trigger] before(a, b) implies !before(
        b,
        a,
    ) by {
        lemma_text_before_one_way(list[a].1, list[b].1);
    }
    assert forall|a: int, b: int, c: int|
        #![trigger before(a, b), before(b, c)]
        0 <= a < list.len() && 0 <= b < list.len() && 0 <= c < list.len() && !before(a, b)
            && !before(b, c) implies !before(a, c) by {
        if list[a].0 == list[b].0 && list[b].0 == list[c].0 {
            lemma_text_before_chain(list[a].1, list[b].1, list[c].1);
        }
    }
}

/// Every name that is suggested is that of a session and close to the text,
/// and no name that is farther from it stands before one that is nearer; of
/// names at one distance the first in the order of strings stands first.
pub proof fn suggestions_are_close_and_the_nearest_first(
    names: Seq<Seq<char>>,
    text: Seq<char>,
    i: int,
    j: int,
)
    requires
        0 <= i < j < suggestions(names, text).len(),
    ensures
        names.contains(suggestions(names, text)[i]),
        close_to(text, suggestions(names, text)[i]),
        close_to(text, suggestions(names, text)[j]),
        edits_to(text, suggestions(names, text)[i]) <= edits_to(text, suggestions(names, text)[j]),
        edits_to(text, suggestions(names, text)[i]) == edits_to(text, suggestions(names, text)[j])
            ==> suggestions(names, text)[i] == suggestions(names, text)[j] || exists|k: int|
            0 <= k <= suggestions(names, text)[i].len() && k < suggestions(names, text)[j].len()
                && #[trigger] suggestions(names, text)[i].take(k) == suggestions(
                names,
                text,
            )[j].take(k) && (k == suggestions(names, text)[i].len() || suggestions(names, text)[i][k]
                < suggestions(names, text)[j][k]),
{
    let list = scored(names, lowercase(text));
    let before = |a: int, b: int| nearer(list[a], list[b]);
    let order = stable_order(list.len(), before);
    lemma_scored(names, text);
    lemma_nearer(list);
    stable_order_is_stable(list.len(), before);
    let a = list[order[i]];
    let b = list[order[j]];
    assert(nearest_first(list)[i] == a && nearest_first(list)[j] == b);
    assert(!before(order[j], order[i]));
    lemma_text_before_total(a.1, b.1);
    texts_are_ordered_by_their_first_difference(a.1, b.1);
}

/// When at most three names are close, a name is suggested exactly when it is
/// close; when more are, three are suggested.
pub proof fn the_close_names_are_suggested(names: Seq<Seq<char>>, text: Seq<char>, name: Seq<char>)
    ensures
        suggestions(names, text).contains(name) ==> names.contains(name) && close_to(text, name),
        scored(names, lowercase(text)).len() <= 3 ==> (suggestions(names, text).contains(name)
            <==> names.contains(name) && close_to(text, name)),
        scored(names, lowercase(text)).len() > 3 ==> suggestions(names, text).len() == 3,
{
    let list = scored(names, lowercase(text));
    let before = |a: int, b: int| nearer(list[a], list[b]);
    let order = stable_order(list.len(), before);
    let shown = suggestions(names, text);
    lemma_scored(names, text);
    lemma_nearer(list);
    stable_order_is_stable(list.len(), before);
    if shown.contains(name) {
        let i = choose|i: int| 0 <= i < shown.len() && shown[i] == name;
        assert(nearest_first(list)[i] == list[order[i]]);
        assert(list[order[i]].1 == name);
    }
    if list.len() <= 3 && names.contains(name) && close_to(text, name) {
        let n = choose|n: int| 0 <= n < names.len() && names[n] == name;
        assert(close_to(text, names[n]));
        let at = choose|at: int|
            0 <= at < list.len() && list[at] == (edits_to(text, names[n]), names[n]);
        assert(order.contains(at));
        let i = choose|i: int| 0 <= i < order.len() && order[i] == at;
        assert(nearest_first(list)[i] == list[at]);
        assert(shown[i] == name);
    }
}

/// A name that is left out is no nearer than any that is suggested.
pub proof fn what_is_left_out_is_no_nearer(
    names: Seq<Seq<char>>,
    text: Seq<char>,
    i: int,
    name: Seq<char>,
)
    requires
        0 <= i < suggestions(names, text).len(),
        names.contains(name),
        close_to(text, name),
        !suggestions(names, text).contains(name),
    ensures
        edits_to(text, suggestions(names, text)[i]) <= edits_to(text, name),
{
    let list = scored(names, lowercase(text));
    let before = |a: int, b: int| nearer(list[a], list[b]);
    let order = stable_order(list.len(), before);
    let shown = suggestions(names, text);
    lemma_scored(names, text);
    lemma_nearer(list);
    stable_order_is_stable(list.len(), before);
    let n = choose|n: int| 0 <= n < names.len() && names[n] == name;
    assert(close_to(text, names[n]));
    let at = choose|at: int|
        0 <= at < list.len() && list[at] == (edits_to(text, names[n]), names[n]);
    assert(order.contains(at));
    let k = choose|k: int| 0 <= k < order.len() && order[k] == at;
    assert(nearest_first(list)[k] == list[at]);
    assert(nearest_first(list)[i] == list[order[i]]);
    if k < shown.len() {
        assert(shown[k] == name);
    }
    assert(i < k);
    assert(!before(order[k], order[i]));
}

} // verus!
