//! Conversations as they are listed and searched.

use crate::order::order_positions;
#[allow(unused_imports)]
use crate::order::{
    arranged, lemma_stable_order_range, stable_order, stable_order_is_stable, weak_order,
};
use crate::screen::{Line, Page, Style};
#[allow(unused_imports)]
use crate::screen::{empty_line, plain, styled, Run};
use crate::session::entity::SessionEntity;
use crate::session::message_repository::MessageMatch;
use crate::text::{
    align_left, align_right, concat, contains, decimal_text, is_before, lines, signed_text,
    take_chars, to_lowercase, trim, truncate,
};
#[allow(unused_imports)]
use crate::text::{
    decimal, first_chars, has_part, left_aligned, lemma_text_before_chain,
    lemma_text_before_one_way, lines_of, lowercase, lowers_plainly, right_aligned,
    signed_decimal, text_before, texts, trimmed, truncated,
};
#[allow(unused_imports)]
use crate::time::age_at;
use crate::time::{humanise_age, Timestamp};
use vstd::prelude::*;

verus! {

// ---------------------------------------------------------------------
// Summaries
// ---------------------------------------------------------------------

/// The most characters of a prompt that a listing reads.
pub const PREVIEW_CHARS: usize = 200;

/// The first of the lines that is not blank, trimmed.
pub open spec fn first_nonblank(list: Seq<Seq<char>>) -> Seq<char>
    decreases list.len(),
{
    if list.len() == 0 {
        Seq::empty()
    } else if trimmed(list[0]).len() > 0 {
        trimmed(list[0])
    } else {
        first_nonblank(list.skip(1))
    }
}

/// A prompt as a single readable line.
pub open spec fn line_of(content: Seq<char>) -> Seq<char> {
    first_chars(first_nonblank(lines_of(content)), PREVIEW_CHARS as int)
}

/// Collapse a prompt to a single readable line for the listing.
pub fn first_line(content: &str) -> (r: String)
    ensures
        r@ == line_of(content@),
{
    let list = lines(content);
    let ghost all = texts(list@);
    assert(all.skip(0) =~= all);
    for i in 0..list.len()
        invariant
            all == texts(list@),
            all == lines_of(content@),
            first_nonblank(all) == first_nonblank(all.skip(i as int)),
    {
        assert(all.skip(i as int)[0] == list@[i as int]@);
        assert(all.skip(i as int).skip(1) =~= all.skip(i + 1));
        let line = trim(list[i].as_str());
        if !line.as_str().is_empty() {
            return take_chars(line.as_str(), PREVIEW_CHARS);
        }
    }
    proof {
        reveal_strlit("");
        assert(first_nonblank(all) =~= ""@);
    }
    take_chars("", PREVIEW_CHARS)
}

/// A session row as the listing needs it: no message bodies, just the counts
/// and the one line of context that makes it recognisable.
#[derive(Debug)]
pub struct SessionSummary {
    pub name: String,
    pub current: bool,
    pub last_used_at: Timestamp,
    pub message_count: i64,
    pub preview: String,
}

/// A summary, by its texts.
pub struct Summary {
    pub name: Seq<char>,
    pub current: bool,
    pub last_used_at: Timestamp,
    pub message_count: int,
    pub preview: Seq<char>,
}

impl View for SessionSummary {
    type V = Summary;

    open spec fn view(&self) -> Summary {
        Summary {
            name: self.name@,
            current: self.current,
            last_used_at: self.last_used_at,
            message_count: self.message_count as int,
            preview: self.preview@,
        }
    }
}

impl Clone for SessionSummary {
    fn clone(&self) -> (r: SessionSummary)
        ensures
            r == *self,
    {
        SessionSummary {
            name: self.name.clone(),
            current: self.current,
            last_used_at: self.last_used_at,
            message_count: self.message_count,
            preview: self.preview.clone(),
        }
    }
}

/// The summaries of a list.
pub open spec fn views(list: Seq<SessionSummary>) -> Seq<Summary> {
    list.map_values(|s: SessionSummary| s@)
}

/// The summary of a session, of how many messages it has and of its first
/// prompt, as far as these could be read.
pub open spec fn summary_of(
    session: SessionEntity,
    count: Option<i64>,
    prompt: Option<String>,
) -> Summary {
    Summary {
        name: session.name@,
        current: session.current != 0,
        last_used_at: session.last_used_at,
        message_count: match count {
            Some(n) => n as int,
            None => 0,
        },
        preview: match prompt {
            Some(content) => line_of(content@),
            None => ""@,
        },
    }
}

pub fn summarise(session: &SessionEntity, count: Option<i64>, prompt: &Option<String>) -> (r:
    SessionSummary)
    ensures
        r@ == summary_of(*session, count, *prompt),
{
    SessionSummary {
        name: session.name.clone(),
        current: session.current != 0,
        last_used_at: session.last_used_at,
        message_count: match count {
            Some(n) => n,
            None => 0,
        },
        preview: match prompt {
            Some(content) => first_line(content.as_str()),
            None => "".to_owned(),
        },
    }
}

// ---------------------------------------------------------------------
// The table
// ---------------------------------------------------------------------

/// The length of the longest name.
pub open spec fn longest_name(list: Seq<Summary>) -> nat
    decreases list.len(),
{
    if list.len() == 0 {
        0
    } else {
        let rest = longest_name(list.drop_last());
        let len = list.last().name.len();
        if len > rest {
            len
        } else {
            rest
        }
    }
}

/// The length of the longest age.
pub open spec fn longest_age(list: Seq<Summary>, now: Timestamp) -> nat
    decreases list.len(),
{
    if list.len() == 0 {
        0
    } else {
        let rest = longest_age(list.drop_last(), now);
        let len = age_at(list.last().last_used_at, now).len();
        if len > rest {
            len
        } else {
            rest
        }
    }
}

/// The width of the column of names: as wide as the longest, within bounds.
pub open spec fn name_width(list: Seq<Summary>) -> int {
    let len = longest_name(list);
    if len < 4 {
        4
    } else if len > 40 {
        40
    } else {
        len as int
    }
}

/// The width of the column of ages: at least that of its heading.
pub open spec fn age_width(list: Seq<Summary>, now: Timestamp) -> int {
    let len = longest_age(list, now);
    if len < 9 {
        9
    } else {
        len as int
    }
}

/// The heading of the table.
pub open spec fn table_heading(names: int, ages: int) -> Seq<Run> {
    seq![
        plain("  "@),
        styled(left_aligned("SESSION"@, names), Style::Bold),
        plain("  "@),
        styled(left_aligned("LAST USED"@, ages), Style::Bold),
        plain("  "@),
        styled(right_aligned("MSGS"@, 4), Style::Bold),
        plain("  "@),
        styled("STARTED WITH"@, Style::Bold),
    ]
}

/// The line of the table for one session.
pub open spec fn table_row(s: Summary, now: Timestamp, names: int, ages: int) -> Seq<Run> {
    seq![
        styled(
            if s.current {
                "*"@
            } else {
                " "@
            },
            Style::BrightGreen,
        ),
        plain(" "@),
        styled(left_aligned(truncated(s.name, names), names), Style::BrightCyan),
        plain("  "@),
        plain(left_aligned(age_at(s.last_used_at, now), ages)),
        plain("  "@),
        plain(right_aligned(signed_decimal(s.message_count), 4)),
        plain("  "@),
        styled(
            if s.preview.len() == 0 {
                "—"@
            } else {
                truncated(s.preview, 48)
            },
            Style::Dimmed,
        ),
    ]
}

/// How to resume a session.
pub open spec fn resume_line() -> Seq<Run> {
    seq![
        plain("  "@),
        styled("Resume:"@, Style::Dimmed),
        plain(" "@),
        styled("termai chat --session <name>"@, Style::BrightCyan),
    ]
}

/// The whole table.
pub open spec fn session_table(list: Seq<Summary>, now: Timestamp) -> Seq<Seq<Run>> {
    if list.len() == 0 {
        seq![
            empty_line(),
            seq![plain("  No sessions yet."@)],
            empty_line(),
            seq![
                plain("  "@),
                styled(
                    "Every chat is saved automatically — run `termai chat` to start one."@,
                    Style::Dimmed,
                ),
            ],
            empty_line(),
        ]
    } else {
        let names = name_width(list);
        let ages = age_width(list, now);
        seq![empty_line(), table_heading(names, ages)] + list.map_values(
            |s: Summary| table_row(s, now, names, ages),
        ) + seq![
            empty_line(),
            resume_line(),
            seq![
                plain("  "@),
                styled("Search: "@, Style::Dimmed),
                plain(" "@),
                styled("termai sessions find \"<text>\""@, Style::BrightCyan),
            ],
            empty_line(),
        ]
    }
}

fn resume_text() -> (line: Line)
    ensures
        line@ == resume_line(),
{
    let line = Line::new().text("  ").with("Resume:", Style::Dimmed).text(" ").with(
        "termai chat --session <name>",
        Style::BrightCyan,
    );
    assert(line@ =~= resume_line());
    line
}

fn heading(names: usize, ages: usize) -> (line: Line)
    ensures
        line@ == table_heading(names as int, ages as int),
{
    let line = Line::new().text("  ").with(align_left("SESSION", names).as_str(), Style::Bold).text(
        "  ",
    ).with(align_left("LAST USED", ages).as_str(), Style::Bold).text("  ").with(
        align_right("MSGS", 4).as_str(),
        Style::Bold,
    ).text("  ").with("STARTED WITH", Style::Bold);
    assert(line@ =~= table_heading(names as int, ages as int));
    line
}

fn row(summary: &SessionSummary, now: Timestamp, names: usize, ages: usize) -> (line: Line)
    requires
        summary.last_used_at.valid(),
        now.valid(),
    ensures
        line@ == table_row(summary@, now, names as int, ages as int),
{
    let marker = if summary.current {
        "*"
    } else {
        " "
    };
    let preview = if summary.preview.as_str().is_empty() {
        "—".to_owned()
    } else {
        truncate(summary.preview.as_str(), 48)
    };
    let name = align_left(truncate(summary.name.as_str(), names).as_str(), names);
    let age = align_left(humanise_age(summary.last_used_at, now).as_str(), ages);
    let count = align_right(signed_text(summary.message_count).as_str(), 4);
    let line = Line::new().with(marker, Style::BrightGreen).text(" ").with(
        name.as_str(),
        Style::BrightCyan,
    ).text("  ").text(age.as_str()).text("  ").text(count.as_str()).text("  ").with(
        preview.as_str(),
        Style::Dimmed,
    );
    assert(line@ =~= table_row(summary@, now, names as int, ages as int));
    line
}

fn empty_table() -> (page: Page)
    ensures
        forall|now: Timestamp| page@ == #[trigger] session_table(Seq::<Summary>::empty(), now),
{
    let mut page = Page::new();
    page.add_blank();
    page.add_line(Line::new().text("  No sessions yet."));
    page.add_blank();
    page.add_line(
        Line::new().text("  ").with(
            "Every chat is saved automatically — run `termai chat` to start one.",
            Style::Dimmed,
        ),
    );
    page.add_blank();
    assert forall|now: Timestamp| page@ == #[trigger] session_table(
        Seq::<Summary>::empty(),
        now,
    ) by {
        assert(page@ =~~= session_table(Seq::<Summary>::empty(), now));
    }
    page
}

pub fn print_session_table(summaries: &Vec<SessionSummary>, now: Timestamp) -> (page: Page)
    requires
        now.valid(),
        forall|i: int|
            0 <= i < summaries@.len() ==> (#[trigger] summaries@[i]).last_used_at.valid(),
    ensures
        page@ == session_table(views(summaries@), now),
{
    let ghost all = views(summaries@);
    if summaries.len() == 0 {
        assert(all =~= Seq::<Summary>::empty());
        return empty_table();
    }
    let mut longest: usize = 0;
    let mut oldest: usize = 0;
    for i in 0..summaries.len()
        invariant
            now.valid(),
            forall|k: int|
                0 <= k < summaries@.len() ==> (#[trigger] summaries@[k]).last_used_at.valid(),
            all == views(summaries@),
            longest == longest_name(all.take(i as int)),
            oldest == longest_age(all.take(i as int), now),
    {
        assert(all.take(i + 1).drop_last() =~= all.take(i as int));
        let name_len = summaries[i].name.as_str().unicode_len();
        if name_len > longest {
            longest = name_len;
        }
        let age = humanise_age(summaries[i].last_used_at, now);
        let age_len = age.as_str().unicode_len();
        if age_len > oldest {
            oldest = age_len;
        }
    }
    assert(all.take(all.len() as int) =~= all);
    let names: usize = if longest < 4 {
        4
    } else if longest > 40 {
        40
    } else {
        longest
    };
    let ages: usize = if oldest < 9 {
        9
    } else {
        oldest
    };
    let mut page = Page::new();
    page.add_blank();
    page.add_line(heading(names, ages));
    let ghost head = page@;
    let ghost rows = all.map_values(|s: Summary| table_row(s, now, names as int, ages as int));
    assert(page@ =~= head + rows.take(0));
    for i in 0..summaries.len()
        invariant
            now.valid(),
            forall|k: int|
                0 <= k < summaries@.len() ==> (#[trigger] summaries@[k]).last_used_at.valid(),
            all == views(summaries@),
            rows == all.map_values(|s: Summary| table_row(s, now, names as int, ages as int)),
            page@ == head + rows.take(i as int),
    {
        page.add_line(row(&summaries[i], now, names, ages));
        assert(rows.take(i + 1) =~= rows.take(i as int).push(rows[i as int]));
        assert(page@ =~= head + rows.take(i + 1));
    }
    assert(rows.take(all.len() as int) =~= rows);
    page.add_blank();
    page.add_line(resume_text());
    page.add_line(
        Line::new().text("  ").with("Search: ", Style::Dimmed).text(" ").with(
            "termai sessions find \"<text>\"",
            Style::BrightCyan,
        ),
    );
    page.add_blank();
    assert(page@ =~~= session_table(all, now));
    page
}

// ---------------------------------------------------------------------
// Listing
// ---------------------------------------------------------------------

/// What a listing is ordered by.
#[derive(Debug, Clone, Copy, PartialEq, Eq, Structural)]
pub enum SessionSortOrder {
    Name,
    Date,
    Messages,
}

/// The summary mentions the text, in its name or its preview, in any case. A
/// month later the name is rarely what the user remembers about a
/// conversation.
pub open spec fn mentions(s: Summary, needle: Seq<char>) -> bool {
    has_part(lowercase(s.name), needle) || has_part(lowercase(s.preview), needle)
}

/// The summaries that a filter lets through.
pub open spec fn matching(list: Seq<Summary>, filter: Option<Seq<char>>) -> Seq<Summary>
    decreases list.len(),
{
    if list.len() == 0 {
        Seq::empty()
    } else {
        let rest = matching(list.drop_last(), filter);
        if filter matches Some(text) ==> mentions(list.last(), lowercase(text)) {
            rest.push(list.last())
        } else {
            rest
        }
    }
}

/// The first of two summaries in an order.
pub open spec fn listed_before(a: Summary, b: Summary, sort: SessionSortOrder) -> bool {
    match sort {
        SessionSortOrder::Name => text_before(a.name, b.name),
        SessionSortOrder::Date => a.last_used_at.after(b.last_used_at),
        SessionSortOrder::Messages => a.message_count > b.message_count,
    }
}

/// The summaries in an order; equal ones keep their order.
pub open spec fn sorted(list: Seq<Summary>, sort: SessionSortOrder) -> Seq<Summary> {
    arranged(
        list,
        stable_order(list.len(), |a: int, b: int| listed_before(list[a], list[b], sort)),
    )
}

/// The first summaries, up to a limit.
pub open spec fn limited(list: Seq<Summary>, limit: Option<usize>) -> Seq<Summary> {
    match limit {
        Some(n) => if n < list.len() {
            list.take(n as int)
        } else {
            list
        },
        None => list,
    }
}

/// The summaries of the sessions.
pub open spec fn summaries(
    rows: Seq<SessionEntity>,
    counts: Seq<Option<i64>>,
    prompts: Seq<Option<String>>,
) -> Seq<Summary> {
    Seq::new(rows.len(), |i: int| summary_of(rows[i], counts[i], prompts[i]))
}

/// What a filter of a listing says.
pub open spec fn filter_text(filter: Option<&str>) -> Option<Seq<char>> {
    match filter {
        Some(text) => Some(text@),
        None => None,
    }
}

/// What is compared of a summary and a filter is, where it is ASCII, the text
/// with its letters in lowercase.
pub open spec fn compared_plainly(s: Summary, text: Seq<char>) -> bool {
    lowers_plainly(text) && lowers_plainly(s.name) && lowers_plainly(s.preview)
}

fn passes(summary: &SessionSummary, filter: Option<&str>) -> (r: bool)
    ensures
        r == (filter_text(filter) matches Some(text) ==> mentions(summary@, lowercase(text))),
        filter_text(filter) matches Some(text) ==> compared_plainly(summary@, text),
{
    match filter {
        Some(text) => {
            let needle = to_lowercase(text);
            let name = to_lowercase(summary.name.as_str());
            let preview = to_lowercase(summary.preview.as_str());
            contains(name.as_str(), needle.as_str()) || contains(preview.as_str(), needle.as_str())
        },
        None => true,
    }
}

fn goes_first(a: &SessionSummary, b: &SessionSummary, sort: SessionSortOrder) -> (r: bool)
    ensures
        r == listed_before(a@, b@, sort),
{
    match sort {
        SessionSortOrder::Name => is_before(a.name.as_str(), b.name.as_str()),
        SessionSortOrder::Date => a.last_used_at.is_after(b.last_used_at),
        SessionSortOrder::Messages => a.message_count > b.message_count,
    }
}

fn sort_summaries(list: &Vec<SessionSummary>, sort: SessionSortOrder, limit: Option<usize>) -> (r:
    Vec<SessionSummary>)
    requires
        forall|i: int| 0 <= i < list@.len() ==> (#[trigger] list@[i]).last_used_at.valid(),
    ensures
        views(r@) == limited(sorted(views(list@), sort), limit),
        forall|i: int| 0 <= i < r@.len() ==> (#[trigger] r@[i]).last_used_at.valid(),
{
    let ghost all = views(list@);
    let ghost before = |a: int, b: int| listed_before(all[a], all[b], sort);
    let first = |a: usize, b: usize| -> (r: bool)
        requires
            a < list.len(),
            b < list.len(),
        ensures
            r == listed_before(list@[a as int]@, list@[b as int]@, sort),
        { goes_first(&list[a], &list[b], sort) };
    assert(forall|i: int| 0 <= i < list@.len() ==> #[trigger] all[i] == list@[i]@);
    let order = order_positions(list.len(), first, Ghost(before));
    let ghost ints = order@.map_values(|i: usize| i as int);
    let ghost want = sorted(all, sort);
    let shown: usize = match limit {
        Some(n) => if n < order.len() {
            n
        } else {
            order.len()
        },
        None => order.len(),
    };
    let mut r: Vec<SessionSummary> = Vec::new();
    assert(views(r@) =~= want.take(0));
    for i in 0..shown
        invariant
            shown <= order@.len(),
            order@.len() == want.len(),
            forall|k: int| 0 <= k < list@.len() ==> (#[trigger] list@[k]).last_used_at.valid(),
            forall|k: int| 0 <= k < order@.len() ==> #[trigger] order@[k] < list@.len(),
            forall|k: int| 0 <= k < order@.len() ==> #[trigger] want[k] == list@[order@[k] as int]@,
            views(r@) == want.take(i as int),
            forall|k: int| 0 <= k < r@.len() ==> (#[trigger] r@[k]).last_used_at.valid(),
    {
        let ghost earlier = r@;
        r.push(list[order[i]].clone());
        assert(views(r@) =~= views(earlier).push(want[i as int]));
        assert(want.take(i + 1) =~= want.take(i as int).push(want[i as int]));
    }
    assert(views(r@) =~= limited(want, limit));
    r
}

/// List sessions applying the `sessions list` flags: `--filter` (name or
/// preview substring), `--sort` (name | date | messages) and `--limit` (row
/// cap). `counts[i]` and `prompts[i]` are what could be read of `rows[i]`.
pub fn fetch_sessions_with_options(
    rows: &Vec<SessionEntity>,
    counts: &Vec<Option<i64>>,
    prompts: &Vec<Option<String>>,
    filter: Option<&str>,
    limit: Option<usize>,
    sort: SessionSortOrder,
    now: Timestamp,
) -> (page: Page)
    requires
        counts@.len() == rows@.len(),
        prompts@.len() == rows@.len(),
        now.valid(),
        forall|i: int| 0 <= i < rows@.len() ==> (#[trigger] rows@[i]).last_used_at.valid(),
    ensures
        page@ == session_table(
            limited(
                sorted(
                    matching(summaries(rows@, counts@, prompts@), filter_text(filter)),
                    sort,
                ),
                limit,
            ),
            now,
        ),
        filter_text(filter) matches Some(text) ==> forall|i: int|
            0 <= i < rows@.len() ==> compared_plainly(
                #[trigger] summaries(rows@, counts@, prompts@)[i],
                text,
            ),
{
    let ghost all = summaries(rows@, counts@, prompts@);
    let ghost wanted = filter_text(filter);
    let mut kept: Vec<SessionSummary> = Vec::new();
    assert(views(kept@) =~= matching(all.take(0), wanted));
    for i in 0..rows.len()
        invariant
            counts@.len() == rows@.len(),
            prompts@.len() == rows@.len(),
            forall|k: int| 0 <= k < rows@.len() ==> (#[trigger] rows@[k]).last_used_at.valid(),
            all == summaries(rows@, counts@, prompts@),
            wanted == filter_text(filter),
            views(kept@) == matching(all.take(i as int), wanted),
            wanted matches Some(text) ==> forall|k: int|
                0 <= k < i ==> compared_plainly(#[trigger] all[k], text),
            forall|k: int| 0 <= k < kept@.len() ==> (#[trigger] kept@[k]).last_used_at.valid(),
    {
        assert(all.take(i + 1).drop_last() =~= all.take(i as int));
        let summary = summarise(&rows[i], counts[i], &prompts[i]);
        if passes(&summary, filter) {
            let ghost before = kept@;
            kept.push(summary);
            assert(views(kept@) =~= views(before).push(all[i as int]));
        }
    }
    assert(all.take(all.len() as int) =~= all);
    let shown = sort_summaries(&kept, sort, limit);
    print_session_table(&shown, now)
}

/// List all sessions, most recently used first.
pub fn fetch_all_sessions(
    rows: &Vec<SessionEntity>,
    counts: &Vec<Option<i64>>,
    prompts: &Vec<Option<String>>,
    now: Timestamp,
) -> (page: Page)
    requires
        counts@.len() == rows@.len(),
        prompts@.len() == rows@.len(),
        now.valid(),
        forall|i: int| 0 <= i < rows@.len() ==> (#[trigger] rows@[i]).last_used_at.valid(),
    ensures
        page@ == session_table(
            sorted(
                matching(summaries(rows@, counts@, prompts@), None),
                SessionSortOrder::Date,
            ),
            now,
        ),
{
    fetch_sessions_with_options(rows, counts, prompts, None, None, SessionSortOrder::Date, now)
}

// ---------------------------------------------------------------------
// Searching
// ---------------------------------------------------------------------

/// The lines for one hit.
pub open spec fn hit_lines(hit: MessageMatch) -> Seq<Seq<Run>> {
    seq![
        seq![
            plain("  "@),
            styled(hit.session_name@, Style::BrightCyanBold),
            plain(" "@),
            styled("("@ + hit.role@ + ")"@, Style::Dimmed),
        ],
        seq![plain("    "@), styled(truncated(line_of(hit.content@), 100), Style::Dimmed)],
        empty_line(),
    ]
}

/// The lines for the hits, one after the other.
pub open spec fn all_hits(hits: Seq<MessageMatch>) -> Seq<Seq<Run>>
    decreases hits.len(),
{
    if hits.len() == 0 {
        Seq::empty()
    } else {
        all_hits(hits.drop_last()) + hit_lines(hits.last())
    }
}

/// Each hit has three lines, at three times its place.
pub proof fn lemma_all_hits(hits: Seq<MessageMatch>)
    ensures
        all_hits(hits).len() == 3 * hits.len(),
        forall|i: int|
            0 <= i < hits.len() ==> all_hits(hits)[3 * i] == hit_lines(#[trigger] hits[i])[0]
                && all_hits(hits)[3 * i + 1] == hit_lines(hits[i])[1] && all_hits(hits)[3 * i + 2]
                == hit_lines(hits[i])[2],
    decreases hits.len(),
{
    if hits.len() > 0 {
        let before = hits.drop_last();
        lemma_all_hits(before);
        assert forall|i: int| 0 <= i < hits.len() implies all_hits(hits)[3 * i] == hit_lines(
            #[trigger] hits[i],
        )[0] && all_hits(hits)[3 * i + 1] == hit_lines(hits[i])[1] && all_hits(hits)[3 * i + 2]
            == hit_lines(hits[i])[2] by {
            if i < before.len() {
                assert(before[i] == hits[i]);
            }
        }
    }
}

/// The report of a search.
pub open spec fn search_report(hits: Seq<MessageMatch>, query: Seq<char>) -> Seq<Seq<Run>> {
    if hits.len() == 0 {
        seq![
            empty_line(),
            seq![
                plain("  No conversation mentions "@),
                styled(query, Style::BrightYellow),
                plain("."@),
            ],
            empty_line(),
        ]
    } else {
        seq![
            empty_line(),
            seq![
                plain("  "@),
                styled(decimal(hits.len()), Style::BrightYellow),
                plain(" "@),
                plain(
                    if hits.len() == 1 {
                        "match"@
                    } else {
                        "matches"@
                    },
                ),
                plain(" for "@),
                styled(query, Style::BrightYellow),
            ],
            empty_line(),
        ] + all_hits(hits) + seq![resume_line(), empty_line()]
    }
}

fn add_hit(page: &mut Page, hit: &MessageMatch)
    ensures
        final(page)@ == old(page)@ + hit_lines(*hit),
{
    let role = concat(concat("(", hit.role.as_str()).as_str(), ")");
    page.add_line(
        Line::new().text("  ").with(hit.session_name.as_str(), Style::BrightCyanBold).text(
            " ",
        ).with(role.as_str(), Style::Dimmed),
    );
    let said = truncate(first_line(hit.content.as_str()).as_str(), 100);
    page.add_line(Line::new().text("    ").with(said.as_str(), Style::Dimmed));
    page.add_blank();
    assert(page@ =~~= old(page)@ + hit_lines(*hit));
}

proof fn lemma_hit_shown(hits: Seq<MessageMatch>, query: Seq<char>, i: int)
    requires
        0 <= i < hits.len(),
    ensures
        search_report(hits, query).len() == 3 + 3 * hits.len() + 2,
        search_report(hits, query)[3 + 3 * i][1].text == hits[i].session_name@,
        search_report(hits, query)[3 + 3 * i][3].text == seq!['('] + hits[i].role@ + seq![')'],
        search_report(hits, query)[4 + 3 * i][1].text == truncated(line_of(hits[i].content@), 100),
{
    let page = search_report(hits, query);
    lemma_all_hits(hits);
    reveal_strlit("(");
    reveal_strlit(")");
    assert("("@ =~= seq!['(']);
    assert(")"@ =~= seq![')']);
    assert(page[3 + 3 * i] == all_hits(hits)[3 * i]);
    assert(page[4 + 3 * i] == all_hits(hits)[3 * i + 1]);
}

/// Find sessions by what was actually said in them: what is shown of the
/// messages that were found.
pub fn search_sessions(matches: &Vec<MessageMatch>, query: &str) -> (page: Page)
    ensures
        page@ == search_report(matches@, query@),
        matches@.len() > 0 ==> page@.len() == 3 + 3 * matches@.len() + 2,
        forall|i: int|
            0 <= i < matches@.len() ==> page@[3 + 3 * i][1].text == (
            #[trigger] matches@[i]).session_name@ && page@[3 + 3 * i][3].text == seq!['(']
                + matches@[i].role@ + seq![')'] && page@[4 + 3 * i][1].text == truncated(
                line_of(matches@[i].content@),
                100,
            ),
{
    proof {
        assert forall|i: int| 0 <= i < matches@.len() implies search_report(
            matches@,
            query@,
        )[3 + 3 * i][1].text == (#[trigger] matches@[i]).session_name@ && search_report(
            matches@,
            query@,
        )[3 + 3 * i][3].text == seq!['('] + matches@[i].role@ + seq![')'] && search_report(
            matches@,
            query@,
        )[4 + 3 * i][1].text == truncated(line_of(matches@[i].content@), 100) by {
            lemma_hit_shown(matches@, query@, i);
        }
        if matches@.len() > 0 {
            lemma_hit_shown(matches@, query@, 0);
        }
    }
    let mut page = Page::new();
    page.add_blank();
    if matches.len() == 0 {
        page.add_line(
            Line::new().text("  No conversation mentions ").with(query, Style::BrightYellow).text(
                ".",
            ),
        );
        page.add_blank();
        assert(page@ =~~= search_report(matches@, query@));
        return page;
    }
    page.add_line(
        Line::new().text("  ").with(
            decimal_text(matches.len() as u64).as_str(),
            Style::BrightYellow,
        ).text(" ").text(
            if matches.len() == 1 {
                "match"
            } else {
                "matches"
            },
        ).text(" for ").with(query, Style::BrightYellow),
    );
    page.add_blank();
    let ghost head = page@;
    assert(page@ =~= head + all_hits(matches@.take(0)));
    for i in 0..matches.len()
        invariant
            page@ == head + all_hits(matches@.take(i as int)),
    {
        let ghost before = page@;
        add_hit(&mut page, &matches[i]);
        assert(matches@.take(i + 1).drop_last() =~= matches@.take(i as int));
        assert(page@ =~= head + all_hits(matches@.take(i + 1)));
    }
    assert(matches@.take(matches@.len() as int) =~= matches@);
    page.add_line(resume_text());
    page.add_blank();
    assert(page@ =~~= search_report(matches@, query@));
    page
}

// ---------------------------------------------------------------------
// Laws
// ---------------------------------------------------------------------

/// A listing shows no more sessions than its limit.
pub proof fn a_listing_keeps_to_its_limit(list: Seq<Summary>, limit: usize)
    ensures
        limited(list, Some(limit)).len() <= limit,
{
}

proof fn lemma_matching(list: Seq<Summary>, filter: Option<Seq<char>>)
    ensures
        forall|i: int|
            0 <= i < matching(list, filter).len() ==> list.contains(
                #[trigger] matching(list, filter)[i],
            ) && (filter matches Some(text) ==> mentions(
                matching(list, filter)[i],
                lowercase(text),
            )),
        forall|i: int|
            0 <= i < list.len() && (filter matches Some(text) ==> mentions(
                #[trigger] list[i],
                lowercase(text),
            )) ==> matching(list, filter).contains(list[i]),
    decreases list.len(),
{
    if list.len() > 0 {
        let before = list.drop_last();
        let rest = matching(before, filter);
        let all = matching(list, filter);
        lemma_matching(before, filter);
        assert forall|i: int| 0 <= i < all.len() implies list.contains(#[trigger] all[i]) && (
        filter matches Some(text) ==> mentions(all[i], lowercase(text))) by {
            if i < rest.len() {
                assert(all[i] == rest[i]);
                let k = choose|k: int| 0 <= k < before.len() && before[k] == rest[i];
                assert(list[k] == all[i]);
            } else {
                assert(list[list.len() - 1] == all[i]);
            }
        }
        assert forall|i: int|
            0 <= i < list.len() && (filter matches Some(text) ==> mentions(
                #[trigger] list[i],
                lowercase(text),
            )) implies all.contains(list[i]) by {
            if i < before.len() {
                assert(before[i] == list[i]);
                assert(rest.contains(before[i]));
                let k = choose|k: int| 0 <= k < rest.len() && rest[k] == before[i];
                assert(all[k] == list[i]);
            } else {
                assert(all[all.len() - 1] == list[i]);
            }
        }
    }
}

/// A filter shows exactly the sessions that mention its text: what is listed
/// mentions it, and what mentions it is listed.
pub proof fn a_filter_shows_exactly_what_mentions_it(
    list: Seq<Summary>,
    text: Seq<char>,
    sort: SessionSortOrder,
    s: Summary,
)
    ensures
        sorted(matching(list, Some(text)), sort).contains(s) <==> list.contains(s) && mentions(
            s,
            lowercase(text),
        ),
{
    let kept = matching(list, Some(text));
    let before = |a: int, b: int| listed_before(kept[a], kept[b], sort);
    let order = stable_order(kept.len(), before);
    let shown = sorted(kept, sort);
    lemma_matching(list, Some(text));
    lemma_stable_order_range(kept.len(), before);
    if shown.contains(s) {
        let i = choose|i: int| 0 <= i < shown.len() && shown[i] == s;
        assert(0 <= order[i] < kept.len());
        assert(kept[order[i]] == s);
    }
    if list.contains(s) && mentions(s, lowercase(text)) {
        let k = choose|k: int| 0 <= k < list.len() && list[k] == s;
        assert(mentions(list[k], lowercase(text)));
        assert(kept.contains(s));
        let j = choose|j: int| 0 <= j < kept.len() && kept[j] == s;
        assert(order.contains(j));
        let i = choose|i: int| 0 <= i < order.len() && order[i] == j;
        assert(shown[i] == s);
    }
}

pub proof fn lemma_listed_before(list: Seq<Summary>, sort: SessionSortOrder)
    ensures
        weak_order(
            list.len() as int,
            |a: int, b: int| listed_before(list[a], list[b], sort),
        ),
{
    let before = |a: int, b: int| listed_before(list[a], list[b], sort);
    assert forall|a: int, b: int|
        0 <= a < list.len() && 0 <= b < list.len() && #[trigger] before(a, b) implies !before(
        b,
        a,
    ) by {
        lemma_text_before_one_way(list[a].name, list[b].name);
    }
    assert forall|a: int, b: int, c: int|
        #![trigger before(a, b), before(b, c)]
        0 <= a < list.len() && 0 <= b < list.len() && 0 <= c < list.len() && !before(a, b)
            && !before(b, c) implies !before(a, c) by {
        if sort is Name {
            lemma_text_before_chain(list[a].name, list[b].name, list[c].name);
        }
    }
}

/// A listing is in the order that was asked for: no session stands below one
/// that it goes before.
pub proof fn a_listing_is_in_order(list: Seq<Summary>, sort: SessionSortOrder, i: int, j: int)
    requires
        0 <= i < j < sorted(list, sort).len(),
    ensures
        !listed_before(sorted(list, sort)[j], sorted(list, sort)[i], sort),
{
    let before = |a: int, b: int| listed_before(list[a], list[b], sort);
    lemma_listed_before(list, sort);
    stable_order_is_stable(list.len(), before);
    let order = stable_order(list.len(), before);
    assert(!before(order[j], order[i]));
}

} // verus!
