//! What a listing and a search show, session by session and line by line.

#[allow(unused_imports)]
use crate::order::{in_order, stable_order, stable_order_is_stable};
#[allow(unused_imports)]
use crate::session::entity::SessionEntity;
#[allow(unused_imports)]
use crate::session::listing::{
    a_filter_shows_exactly_what_mentions_it, age_width, all_hits, filter_text, first_nonblank,
    lemma_all_hits, lemma_listed_before, limited, line_of, listed_before, longest_age, longest_name,
    matching, mentions, name_width, search_report, session_table, sorted, summaries, table_row,
    views, SessionSortOrder, SessionSummary, Summary,
};
#[allow(unused_imports)]
use crate::session::message_repository::MessageMatch;
#[allow(unused_imports)]
use crate::text::{
    decimal, lemma_text_before_total, lines_of, lowercase, signed_decimal, trimmed, truncated,
};
#[allow(unused_imports)]
use crate::text_laws::{
    a_column_is_filled_with_spaces, a_part_stands_at_some_position,
    a_text_that_is_cut_ends_in_an_ellipsis, stripped_to,
    texts_are_ordered_by_their_first_difference, trimming_takes_off_the_white_space_at_the_ends,
};
#[allow(unused_imports)]
use crate::time::{age_at, Timestamp};
use vstd::prelude::*;

verus! {

// ---------------------------------------------------------------------
// Filtering
// ---------------------------------------------------------------------

/// A session is listed under a filter exactly when some position of its name
/// or of its preview, in lowercase, holds the text of the filter, in
/// lowercase.
pub proof fn a_listed_session_holds_the_text_of_the_filter(
    list: Seq<Summary>,
    text: Seq<char>,
    sort: SessionSortOrder,
    s: Summary,
)
    ensures
        sorted(matching(list, Some(text)), sort).contains(s) <==> list.contains(s) && ((exists|
            i: int,
        |
            0 <= i <= lowercase(s.name).len() - lowercase(text).len() && #[trigger] lowercase(
                s.name,
            ).subrange(i, i + lowercase(text).len()) == lowercase(text)) || (exists|i: int|
            0 <= i <= lowercase(s.preview).len() - lowercase(text).len() && #[trigger] lowercase(
                s.preview,
            ).subrange(i, i + lowercase(text).len()) == lowercase(text))),
{
    a_filter_shows_exactly_what_mentions_it(list, text, sort, s);
    a_part_stands_at_some_position(lowercase(s.name), lowercase(text));
    a_part_stands_at_some_position(lowercase(s.preview), lowercase(text));
}

/// A filter decides on each session by itself and keeps the order: the listing
/// of two lists is that of the one followed by that of the other. Without a
/// filter, every session passes.
pub proof fn a_filter_goes_session_by_session(
    a: Seq<Summary>,
    b: Seq<Summary>,
    filter: Option<Seq<char>>,
)
    ensures
        matching(a + b, filter) == matching(a, filter) + matching(b, filter),
        matching(Seq::<Summary>::empty(), filter).len() == 0,
        matching(a, None) == a,
    decreases b.len(),
{
    lemma_unfiltered(a);
    if b.len() == 0 {
        assert(a + b =~= a);
        assert(matching(a + b, filter) =~= matching(a, filter) + matching(b, filter));
    } else {
        a_filter_goes_session_by_session(a, b.drop_last(), filter);
        assert((a + b).drop_last() =~= a + b.drop_last());
        assert((a + b).last() == b.last());
        assert(matching(a + b, filter) =~= matching(a, filter) + matching(b, filter));
    }
}

proof fn lemma_unfiltered(list: Seq<Summary>)
    ensures
        matching(list, None) == list,
    decreases list.len(),
{
    if list.len() > 0 {
        lemma_unfiltered(list.drop_last());
        assert(list.drop_last().push(list.last()) =~= list);
    } else {
        assert(matching(list, None) =~= list);
    }
}

/// Of a list of one session, a filter leaves that session or nothing.
pub proof fn a_filter_takes_or_leaves_a_session(s: Summary, text: Seq<char>)
    ensures
        matching(seq![s], Some(text)) == if (exists|i: int|
            0 <= i <= lowercase(s.name).len() - lowercase(text).len() && #[trigger] lowercase(
                s.name,
            ).subrange(i, i + lowercase(text).len()) == lowercase(text)) || (exists|i: int|
            0 <= i <= lowercase(s.preview).len() - lowercase(text).len() && #[trigger] lowercase(
                s.preview,
            ).subrange(i, i + lowercase(text).len()) == lowercase(text)) {
            seq![s]
        } else {
            Seq::empty()
        },
{
    a_part_stands_at_some_position(lowercase(s.name), lowercase(text));
    a_part_stands_at_some_position(lowercase(s.preview), lowercase(text));
    let one = seq![s];
    assert(one.drop_last() =~= Seq::<Summary>::empty());
    assert(matching(one.drop_last(), Some(text)) =~= Seq::<Summary>::empty());
    assert(one.last() == s);
    assert(Seq::<Summary>::empty().push(s) =~= one);
}

/// The text of a filter is what was given.
pub proof fn a_filter_is_what_was_given(text: &str)
    ensures
        filter_text(Some(text)) == Some(text@),
        filter_text(None) is None,
{
}

// ---------------------------------------------------------------------
// Order and limit
// ---------------------------------------------------------------------

/// `to` holds what `from` holds, each once, with `to[i]` from the position
/// `order[i]`.
pub open spec fn arranges<T>(order: Seq<int>, from: Seq<T>, to: Seq<T>) -> bool {
    &&& order.len() == from.len()
    &&& to.len() == from.len()
    &&& forall|i: int| 0 <= i < order.len() ==> 0 <= #[trigger] order[i] < from.len()
    &&& forall|i: int, j: int|
        0 <= i < j < order.len() ==> #[trigger] order[i] != #[trigger] order[j]
    &&& forall|i: int| 0 <= i < to.len() ==> #[trigger] to[i] == from[order[i]]
}

proof fn lemma_sorted(list: Seq<Summary>, sort: SessionSortOrder) -> (order: Seq<int>)
    ensures
        arranges(order, list, sorted(list, sort)),
        in_order(order, |a: int, b: int| listed_before(list[a], list[b], sort)),
{
    let before = |a: int, b: int| listed_before(list[a], list[b], sort);
    lemma_listed_before(list, sort);
    stable_order_is_stable(list.len(), before);
    stable_order(list.len(), before)
}

/// A listing by name shows each session once, with the names in the order of
/// their first difference; sessions of one name keep their order.
pub proof fn a_listing_by_name_is_in_the_order_of_the_names(list: Seq<Summary>)
    ensures
        exists|order: Seq<int>| #[trigger]
            arranges(order, list, sorted(list, SessionSortOrder::Name)) && forall|i: int, j: int|
                #![trigger order[i], order[j]]
                0 <= i < j < order.len() ==> (list[order[i]].name == list[order[j]].name
                    && order[i] < order[j]) || exists|k: int|
                    0 <= k <= list[order[i]].name.len() && k < list[order[j]].name.len()
                        && #[trigger] list[order[i]].name.take(k) == list[order[j]].name.take(k)
                        && (k == list[order[i]].name.len() || list[order[i]].name[k]
                        < list[order[j]].name[k]),
{
    let sort = SessionSortOrder::Name;
    let order = lemma_sorted(list, sort);
    let before = |a: int, b: int| listed_before(list[a], list[b], sort);
    assert forall|i: int, j: int|
        #![trigger order[i], order[j]]
        0 <= i < j < order.len() implies (list[order[i]].name == list[order[j]].name && order[i]
        < order[j]) || exists|k: int|
        0 <= k <= list[order[i]].name.len() && k < list[order[j]].name.len()
            && #[trigger] list[order[i]].name.take(k) == list[order[j]].name.take(k) && (k
            == list[order[i]].name.len() || list[order[i]].name[k] < list[order[j]].name[k]) by {
        let a = list[order[i]].name;
        let b = list[order[j]].name;
        assert(!before(order[j], order[i]) && (before(order[i], order[j]) || order[i] < order[j]));
        lemma_text_before_total(a, b);
        texts_are_ordered_by_their_first_difference(a, b);
    }
    assert(arranges(order, list, sorted(list, sort)));
}

/// A listing by date shows each session once, the most recently used first;
/// sessions that were used at the same time keep their order.
pub proof fn a_listing_by_date_has_the_latest_first(list: Seq<Summary>)
    ensures
        exists|order: Seq<int>| #[trigger]
            arranges(order, list, sorted(list, SessionSortOrder::Date)) && forall|i: int, j: int|
                #![trigger order[i], order[j]]
                0 <= i < j < order.len() ==> {
                    let a = list[order[i]].last_used_at;
                    let b = list[order[j]].last_used_at;
                    ||| a.seconds > b.seconds
                    ||| a.seconds == b.seconds && a.nanos > b.nanos
                    ||| a.seconds == b.seconds && a.nanos == b.nanos && order[i] < order[j]
                },
{
    let sort = SessionSortOrder::Date;
    let order = lemma_sorted(list, sort);
    let before = |a: int, b: int| listed_before(list[a], list[b], sort);
    assert forall|i: int, j: int|
        #![trigger order[i], order[j]]
        0 <= i < j < order.len() implies {
        let a = list[order[i]].last_used_at;
        let b = list[order[j]].last_used_at;
        ||| a.seconds > b.seconds
        ||| a.seconds == b.seconds && a.nanos > b.nanos
        ||| a.seconds == b.seconds && a.nanos == b.nanos && order[i] < order[j]
    } by {
        assert(!before(order[j], order[i]) && (before(order[i], order[j]) || order[i] < order[j]));
    }
    assert(arranges(order, list, sorted(list, sort)));
}

/// A listing by messages shows each session once, the one with the most
/// messages first; sessions with as many keep their order.
pub proof fn a_listing_by_messages_has_the_most_first(list: Seq<Summary>)
    ensures
        exists|order: Seq<int>| #[trigger]
            arranges(order, list, sorted(list, SessionSortOrder::Messages)) && forall|
                i: int,
                j: int,
            |
                #![trigger order[i], order[j]]
                0 <= i < j < order.len() ==> list[order[i]].message_count
                    > list[order[j]].message_count || (list[order[i]].message_count
                    == list[order[j]].message_count && order[i] < order[j]),
{
    let sort = SessionSortOrder::Messages;
    let order = lemma_sorted(list, sort);
    let before = |a: int, b: int| listed_before(list[a], list[b], sort);
    assert forall|i: int, j: int|
        #![trigger order[i], order[j]]
        0 <= i < j < order.len() implies list[order[i]].message_count
        > list[order[j]].message_count || (list[order[i]].message_count
        == list[order[j]].message_count && order[i] < order[j]) by {
        assert(!before(order[j], order[i]) && (before(order[i], order[j]) || order[i] < order[j]));
    }
    assert(arranges(order, list, sorted(list, sort)));
}

/// A limit shows the first sessions of a listing and leaves the others out;
/// without one, all are shown.
pub proof fn a_limit_leaves_out_only_the_last(list: Seq<Summary>, limit: usize)
    ensures
        limited(list, None) == list,
        list.len() <= limit ==> limited(list, Some(limit)) == list,
        list.len() > limit ==> limited(list, Some(limit)).len() == limit,
        forall|i: int|
            0 <= i < limited(list, Some(limit)).len() ==> #[trigger] limited(list, Some(limit))[i]
                == list[i],
{
}

// ---------------------------------------------------------------------
// Summaries
// ---------------------------------------------------------------------

/// Each session has one summary, at its place: its name and when it was last
/// used, whether it is the current one, how many messages it has, and a line
/// of its first prompt. What could not be read counts as none.
pub proof fn a_summary_is_of_its_session(
    rows: Seq<SessionEntity>,
    counts: Seq<Option<i64>>,
    prompts: Seq<Option<String>>,
    i: int,
)
    requires
        0 <= i < rows.len(),
        counts.len() == rows.len(),
        prompts.len() == rows.len(),
    ensures
        summaries(rows, counts, prompts).len() == rows.len(),
        summaries(rows, counts, prompts)[i].name == rows[i].name@,
        summaries(rows, counts, prompts)[i].current <==> rows[i].current != 0,
        summaries(rows, counts, prompts)[i].last_used_at == rows[i].last_used_at,
        counts[i] matches Some(n) ==> summaries(rows, counts, prompts)[i].message_count == n,
        counts[i] is None ==> summaries(rows, counts, prompts)[i].message_count == 0,
        prompts[i] matches Some(p) ==> summaries(rows, counts, prompts)[i].preview == line_of(p@),
        prompts[i] is None ==> summaries(rows, counts, prompts)[i].preview.len() == 0,
{
    reveal_strlit("");
}

proof fn lemma_first_nonblank(list: Seq<Seq<char>>, k: int)
    requires
        0 <= k < list.len(),
        forall|i: int| 0 <= i < k ==> trimmed(#[trigger] list[i]).len() == 0,
        trimmed(list[k]).len() > 0,
    ensures
        first_nonblank(list) == trimmed(list[k]),
    decreases list.len(),
{
    if k > 0 {
        let rest = list.skip(1);
        assert(trimmed(list[0]).len() == 0);
        assert forall|i: int| 0 <= i < k - 1 implies trimmed(#[trigger] rest[i]).len() == 0 by {
            assert(rest[i] == list[i + 1]);
        }
        assert(rest[k - 1] == list[k]);
        lemma_first_nonblank(rest, k - 1);
    }
}

/// What is shown of a prompt is its first line that holds more than white
/// space, without the white space at its ends, and at most two hundred
/// characters of that.
pub proof fn a_prompt_is_shown_by_its_first_line_with_words(
    content: Seq<char>,
    k: int,
    from: int,
    to: int,
)
    requires
        0 <= k < lines_of(content).len(),
        forall|i: int, j: int|
            0 <= i < k && 0 <= j < lines_of(content)[i].len() ==> crate::text::white_space(
                #[trigger] lines_of(content)[i][j],
            ),
        stripped_to(lines_of(content)[k], from, to),
        from < to,
    ensures
        to - from <= 200 ==> line_of(content) == lines_of(content)[k].subrange(from, to),
        to - from > 200 ==> line_of(content) == lines_of(content)[k].subrange(from, from + 200),
{
    let list = lines_of(content);
    assert forall|i: int| 0 <= i < k implies trimmed(#[trigger] list[i]).len() == 0 by {
        trimming_takes_off_the_white_space_at_the_ends(list[i]);
        let (a, b) = choose|a: int, b: int| #[trigger]
            stripped_to(list[i], a, b) && trimmed(list[i]) == list[i].subrange(a, b);
        if a < b {
            assert(crate::text::white_space(lines_of(content)[i][a]));
        }
    }
    let line = list[k];
    trimming_takes_off_the_white_space_at_the_ends(line);
    let (a, b) = choose|a: int, b: int| #[trigger]
        stripped_to(line, a, b) && trimmed(line) == line.subrange(a, b);
    assert(a <= from) by {
        if a > from {
            assert(crate::text::white_space(line[from]));
        }
    }
    assert(b >= to) by {
        if b < to {
            assert(crate::text::white_space(line[to - 1]));
        }
    }
    assert(a == from) by {
        if a < from {
            assert(crate::text::white_space(line[a]));
        }
    }
    assert(b == to) by {
        if b > to {
            assert(crate::text::white_space(line[b - 1]));
        }
    }
    lemma_first_nonblank(list, k);
    if to - from > 200 {
        assert(line.subrange(from, to).take(200) =~= line.subrange(from, from + 200));
    }
}

/// Nothing is shown of a prompt that is all white space.
pub proof fn a_blank_prompt_shows_nothing(content: Seq<char>)
    requires
        forall|i: int, j: int|
            0 <= i < lines_of(content).len() && 0 <= j < lines_of(content)[i].len()
                ==> crate::text::white_space(#[trigger] lines_of(content)[i][j]),
    ensures
        line_of(content).len() == 0,
{
    let list = lines_of(content);
    assert forall|i: int| 0 <= i < list.len() implies trimmed(#[trigger] list[i]).len() == 0 by {
        trimming_takes_off_the_white_space_at_the_ends(list[i]);
        let (a, b) = choose|a: int, b: int| #[trigger]
            stripped_to(list[i], a, b) && trimmed(list[i]) == list[i].subrange(a, b);
        if a < b {
            assert(crate::text::white_space(lines_of(content)[i][a]));
        }
    }
    lemma_all_blank(list);
}

proof fn lemma_all_blank(list: Seq<Seq<char>>)
    requires
        forall|i: int| 0 <= i < list.len() ==> trimmed(#[trigger] list[i]).len() == 0,
    ensures
        first_nonblank(list).len() == 0,
    decreases list.len(),
{
    if list.len() > 0 {
        let rest = list.skip(1);
        assert(trimmed(list[0]).len() == 0);
        assert forall|i: int| 0 <= i < rest.len() implies trimmed(#[trigger] rest[i]).len() == 0 by {
            assert(rest[i] == list[i + 1]);
        }
        lemma_all_blank(rest);
    }
}

// ---------------------------------------------------------------------
// The table
// ---------------------------------------------------------------------

proof fn lemma_longest_name(list: Seq<Summary>)
    ensures
        forall|i: int| 0 <= i < list.len() ==> (#[trigger] list[i]).name.len() <= longest_name(list),
        list.len() > 0 ==> exists|i: int|
            0 <= i < list.len() && (#[trigger] list[i]).name.len() == longest_name(list),
    decreases list.len(),
{
    if list.len() > 0 {
        let before = list.drop_last();
        lemma_longest_name(before);
        assert forall|i: int| 0 <= i < list.len() implies (#[trigger] list[i]).name.len()
            <= longest_name(list) by {
            if i < before.len() {
                assert(before[i] == list[i]);
            }
        }
        if list.last().name.len() >= longest_name(list) {
            assert(list[list.len() - 1].name.len() == longest_name(list));
        } else {
            let i = choose|i: int|
                0 <= i < before.len() && (#[trigger] before[i]).name.len() == longest_name(before);
            assert(list[i] == before[i]);
        }
    }
}

proof fn lemma_longest_age(list: Seq<Summary>, now: Timestamp)
    ensures
        forall|i: int|
            0 <= i < list.len() ==> age_at((#[trigger] list[i]).last_used_at, now).len()
                <= longest_age(list, now),
        list.len() > 0 ==> exists|i: int|
            0 <= i < list.len() && age_at((#[trigger] list[i]).last_used_at, now).len()
                == longest_age(list, now),
    decreases list.len(),
{
    if list.len() > 0 {
        let before = list.drop_last();
        lemma_longest_age(before, now);
        assert forall|i: int| 0 <= i < list.len() implies age_at(
            (#[trigger] list[i]).last_used_at,
            now,
        ).len() <= longest_age(list, now) by {
            if i < before.len() {
                assert(before[i] == list[i]);
            }
        }
        if age_at(list.last().last_used_at, now).len() >= longest_age(list, now) {
            assert(age_at(list[list.len() - 1].last_used_at, now).len() == longest_age(list, now));
        } else {
            let i = choose|i: int|
                0 <= i < before.len() && age_at((#[trigger] before[i]).last_used_at, now).len()
                    == longest_age(before, now);
            assert(list[i] == before[i]);
        }
    }
}

/// The column of names is as wide as the longest name, but never narrower than
/// four characters nor wider than forty; that of ages is as wide as the
/// longest age, but never narrower than nine.
pub proof fn the_columns_fit_what_they_hold(list: Seq<Summary>, now: Timestamp)
    requires
        list.len() > 0,
    ensures
        4 <= name_width(list) <= 40,
        forall|i: int|
            0 <= i < list.len() ==> (#[trigger] list[i]).name.len() <= name_width(list)
                || name_width(list) == 40,
        name_width(list) > 4 ==> exists|i: int|
            0 <= i < list.len() && (#[trigger] list[i]).name.len() >= name_width(list),
        9 <= age_width(list, now),
        forall|i: int|
            0 <= i < list.len() ==> age_at((#[trigger] list[i]).last_used_at, now).len()
                <= age_width(list, now),
        age_width(list, now) > 9 ==> exists|i: int|
            0 <= i < list.len() && age_at((#[trigger] list[i]).last_used_at, now).len()
                == age_width(list, now),
{
    lemma_longest_name(list);
    lemma_longest_age(list, now);
    let n = choose|i: int|
        0 <= i < list.len() && (#[trigger] list[i]).name.len() == longest_name(list);
    assert(list[n].name.len() == longest_name(list));
}

/// A listing has a line for each session that is listed, in order, between two
/// lines of heading and four below. The line marks the current session, and
/// holds the name, the age, the number of messages and the preview, each
/// whole where its column has room.
pub proof fn each_listed_session_has_its_line(list: Seq<Summary>, now: Timestamp, k: int)
    requires
        0 <= k < list.len(),
    ensures
        session_table(list, now).len() == list.len() + 6,
        session_table(list, now)[2 + k].len() == 9,
        session_table(list, now)[2 + k][0].text == if list[k].current {
            "*"@
        } else {
            " "@
        },
        ({
            let name = session_table(list, now)[2 + k][2].text;
            &&& name.len() == name_width(list)
            &&& list[k].name.len() <= name.len() ==> name.take(list[k].name.len() as int)
                == list[k].name && forall|i: int|
                list[k].name.len() <= i < name.len() ==> #[trigger] name[i] == ' '
            &&& list[k].name.len() > name.len() ==> name.last() == '\u{2026}' && name.drop_last()
                == list[k].name.take(name.len() - 1)
        }),
        ({
            let age = session_table(list, now)[2 + k][4].text;
            let said = age_at(list[k].last_used_at, now);
            &&& age.len() == age_width(list, now)
            &&& age.take(said.len() as int) == said
            &&& forall|i: int| said.len() <= i < age.len() ==> #[trigger] age[i] == ' '
        }),
        ({
            let count = session_table(list, now)[2 + k][6].text;
            let number = signed_decimal(list[k].message_count);
            &&& count.len() == if number.len() < 4 {
                4
            } else {
                number.len()
            }
            &&& count.skip(count.len() - number.len()) == number
            &&& forall|i: int| 0 <= i < count.len() - number.len() ==> #[trigger] count[i] == ' '
        }),
        ({
            let preview = session_table(list, now)[2 + k][8].text;
            &&& list[k].preview.len() == 0 ==> preview == "—"@
            &&& 0 < list[k].preview.len() <= 48 ==> preview == list[k].preview
            &&& list[k].preview.len() > 48 ==> preview.len() == 48 && preview.last() == '\u{2026}'
                && preview.drop_last() == list[k].preview.take(47)
        }),
{
    let names = name_width(list);
    let ages = age_width(list, now);
    let table = session_table(list, now);
    let line = table_row(list[k], now, names, ages);
    assert(table[2 + k] == line);
    the_columns_fit_what_they_hold(list, now);
    let shown = truncated(list[k].name, names);
    a_text_that_is_cut_ends_in_an_ellipsis(list[k].name, names);
    a_column_is_filled_with_spaces(shown, names);
    assert(line[2].text.take(shown.len() as int) =~= shown);
    if list[k].name.len() > names {
        assert(line[2].text =~= shown);
        assert(shown.drop_last() =~= list[k].name.take(names - 1));
    }
    let said = age_at(list[k].last_used_at, now);
    a_column_is_filled_with_spaces(said, ages);
    assert(line[4].text.take(said.len() as int) =~= said);
    a_column_is_filled_with_spaces(signed_decimal(list[k].message_count), 4);
    a_text_that_is_cut_ends_in_an_ellipsis(list[k].preview, 48);
    if list[k].preview.len() > 48 {
        assert(line[8].text.drop_last() =~= list[k].preview.take(47));
    }
}

// ---------------------------------------------------------------------
// Searching
// ---------------------------------------------------------------------

/// The report of a search has three lines for every hit, in order: one that
/// names the session and who spoke, one with the first line of what was said,
/// and an empty one.
pub proof fn a_search_shows_every_hit(hits: Seq<MessageMatch>, query: Seq<char>, i: int)
    requires
        0 <= i < hits.len(),
    ensures
        search_report(hits, query).len() == 3 + 3 * hits.len() + 2,
        search_report(hits, query)[3 + 3 * i].len() == 4,
        search_report(hits, query)[3 + 3 * i][1].text == hits[i].session_name@,
        search_report(hits, query)[3 + 3 * i][3].text == seq!['('] + hits[i].role@ + seq![')'],
        search_report(hits, query)[4 + 3 * i].len() == 2,
        line_of(hits[i].content@).len() <= 100 ==> search_report(hits, query)[4 + 3 * i][1].text
            == line_of(hits[i].content@),
        line_of(hits[i].content@).len() > 100 ==> {
            let said = search_report(hits, query)[4 + 3 * i][1].text;
            &&& said.len() == 100
            &&& said.last() == '\u{2026}'
            &&& said.drop_last() == line_of(hits[i].content@).take(99)
        },
        search_report(hits, query)[5 + 3 * i].len() == 0,
{
    let page = search_report(hits, query);
    lemma_all_hits(hits);
    reveal_strlit("(");
    reveal_strlit(")");
    assert("("@ =~= seq!['(']);
    assert(")"@ =~= seq![')']);
    assert(page[3 + 3 * i] == all_hits(hits)[3 * i]);
    assert(page[4 + 3 * i] == all_hits(hits)[3 * i + 1]);
    assert(page[5 + 3 * i] == all_hits(hits)[3 * i + 2]);
    let line = line_of(hits[i].content@);
    a_text_that_is_cut_ends_in_an_ellipsis(line, 100);
    if line.len() > 100 {
        assert(truncated(line, 100).drop_last() =~= line.take(99));
    }
}

/// Above the hits stand three lines, of which the second says how many there
/// are and for what; below them stand two.
pub proof fn a_search_counts_its_hits(hits: Seq<MessageMatch>, query: Seq<char>)
    requires
        hits.len() > 0,
    ensures
        search_report(hits, query)[0].len() == 0,
        search_report(hits, query)[1].len() == 6,
        search_report(hits, query)[1][1].text == decimal(hits.len()),
        search_report(hits, query)[1][3].text == if hits.len() == 1 {
            "match"@
        } else {
            "matches"@
        },
        search_report(hits, query)[1][5].text == query,
        search_report(hits, query)[2].len() == 0,
        search_report(hits, query)[3 + 3 * hits.len() as int].last().text
            == "termai chat --session <name>"@,
        search_report(hits, query).last().len() == 0,
{
    lemma_all_hits(hits);
}

/// A search without a hit says so, and for what.
pub proof fn a_search_without_hits_says_so(query: Seq<char>)
    ensures
        search_report(Seq::<MessageMatch>::empty(), query).len() == 3,
        search_report(Seq::<MessageMatch>::empty(), query)[1].len() == 3,
        search_report(Seq::<MessageMatch>::empty(), query)[1][0].text
            == "  No conversation mentions "@,
        search_report(Seq::<MessageMatch>::empty(), query)[1][1].text == query,
{
}

// ---------------------------------------------------------------------
// What stands around the lines
// ---------------------------------------------------------------------

/// Above the sessions stand an empty line and the headings of the four
/// columns, each as wide as its column where it fits; below them it is told
/// how to resume and how to search.
pub proof fn a_listing_has_its_headings(list: Seq<Summary>, now: Timestamp)
    requires
        list.len() > 0,
    ensures
        session_table(list, now)[0].len() == 0,
        session_table(list, now)[1].len() == 8,
        session_table(list, now)[1][1].text.take(7) == "SESSION"@,
        name_width(list) >= 7 ==> session_table(list, now)[1][1].text.len() == name_width(list),
        session_table(list, now)[1][3].text.take(9) == "LAST USED"@,
        session_table(list, now)[1][3].text.len() == age_width(list, now),
        session_table(list, now)[1][5].text == "MSGS"@,
        session_table(list, now)[1][7].text == "STARTED WITH"@,
        ({
            let page = session_table(list, now);
            let n = list.len() as int;
            &&& page[2 + n].len() == 0
            &&& page[3 + n][1].text == "Resume:"@
            &&& page[3 + n][3].text == "termai chat --session <name>"@
            &&& page[4 + n][1].text == "Search: "@
            &&& page[4 + n][3].text == "termai sessions find \"<text>\""@
            &&& page[5 + n].len() == 0
        }),
{
    reveal_strlit("SESSION");
    reveal_strlit("LAST USED");
    reveal_strlit("MSGS");
    let page = session_table(list, now);
    the_columns_fit_what_they_hold(list, now);
    a_column_is_filled_with_spaces("SESSION"@, name_width(list));
    a_column_is_filled_with_spaces("LAST USED"@, age_width(list, now));
    a_column_is_filled_with_spaces("MSGS"@, 4);
    assert(page[1][1].text.take(7) =~= "SESSION"@);
    assert(page[1][3].text.take(9) =~= "LAST USED"@);
    assert(page[1][5].text =~= "MSGS"@);
}

/// Without sessions it is told that there are none yet.
pub proof fn an_empty_listing_says_so(now: Timestamp)
    ensures
        session_table(Seq::<Summary>::empty(), now).len() == 5,
        session_table(Seq::<Summary>::empty(), now)[1].len() == 1,
        session_table(Seq::<Summary>::empty(), now)[1][0].text == "  No sessions yet."@,
        session_table(Seq::<Summary>::empty(), now)[3].len() == 2,
{
}

/// The mark of the current session, the name and the preview stand out by
/// their styles; the age and the count do not.
pub proof fn a_line_has_its_styles(list: Seq<Summary>, now: Timestamp, k: int)
    requires
        0 <= k < list.len(),
    ensures
        session_table(list, now)[2 + k][0].style is BrightGreen,
        session_table(list, now)[2 + k][2].style is BrightCyan,
        session_table(list, now)[2 + k][4].style is Plain,
        session_table(list, now)[2 + k][6].style is Plain,
        session_table(list, now)[2 + k][8].style is Dimmed,
{
    assert(session_table(list, now)[2 + k] == table_row(
        list[k],
        now,
        name_width(list),
        age_width(list, now),
    ));
}

/// A summary is seen as what it holds, at its place.
pub proof fn each_summary_is_seen_as_it_is(list: Seq<SessionSummary>, i: int)
    requires
        0 <= i < list.len(),
    ensures
        views(list).len() == list.len(),
        views(list)[i].name == list[i].name@,
        views(list)[i].current == list[i].current,
        views(list)[i].last_used_at == list[i].last_used_at,
        views(list)[i].message_count == list[i].message_count,
        views(list)[i].preview == list[i].preview@,
{
}

} // verus!
