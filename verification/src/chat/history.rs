//! The history of the input line.

use crate::text::{blank, concat, join, lines, same, starts_with};
#[allow(unused_imports)]
use crate::text::{
    begins_with, is_blank, joined, lemma_split_nonempty, lines_of, split, texts, without_return,
};
use vstd::prelude::*;

verus! {

/// Per-directory history that is still read, but no longer written; new
/// history goes next to the database.
pub const LEGACY_HISTORY_FILE: &'static str = ".termai_history";

/// A line that is an entry: neither a comment nor blank.
pub open spec fn is_entry(line: Seq<char>) -> bool {
    !begins_with(line, "#"@) && !is_blank(line)
}

/// `entries` with the new entries among the lines behind it.
pub open spec fn with_lines(entries: Seq<Seq<char>>, list: Seq<Seq<char>>) -> Seq<Seq<char>>
    decreases list.len(),
{
    if list.len() == 0 {
        entries
    } else {
        let rest = with_lines(entries, list.drop_last());
        if is_entry(list.last()) && !rest.contains(list.last()) {
            rest.push(list.last())
        } else {
            rest
        }
    }
}

/// The entries of the sources, those of the first one first, each once.
pub open spec fn entries_of(sources: Seq<Option<String>>) -> Seq<Seq<char>>
    decreases sources.len(),
{
    if sources.len() == 0 {
        Seq::empty()
    } else {
        let rest = entries_of(sources.drop_last());
        match sources.last() {
            Some(content) => with_lines(rest, lines_of(content@)),
            None => rest,
        }
    }
}

fn has_entry(entries: &Vec<String>, line: &str) -> (r: bool)
    ensures
        r == texts(entries@).contains(line@),
{
    for i in 0..entries.len()
        invariant
            forall|j: int| 0 <= j < i ==> texts(entries@)[j] != line@,
    {
        if same(entries[i].as_str(), line) {
            assert(texts(entries@)[i as int] == line@);
            return true;
        }
    }
    false
}

fn add_lines(entries: &mut Vec<String>, content: &str)
    ensures
        texts(final(entries)@) == with_lines(texts(old(entries)@), lines_of(content@)),
{
    let list = lines(content);
    let ghost all = texts(list@);
    let ghost start = texts(entries@);
    assert(all.take(0) =~= Seq::<Seq<char>>::empty());
    for i in 0..list.len()
        invariant
            all == texts(list@),
            texts(entries@) == with_lines(start, all.take(i as int)),
    {
        assert(all.take(i + 1).drop_last() =~= all.take(i as int));
        if !starts_with(list[i].as_str(), "#") && !blank(list[i].as_str()) && !has_entry(
            entries,
            list[i].as_str(),
        ) {
            let ghost before = entries@;
            entries.push(list[i].clone());
            assert(texts(entries@) =~= texts(before).push(all[i as int]));
        }
    }
    assert(all.take(all.len() as int) =~= all);
}

/// The history in the files that could be read, the older half of the
/// timeline first.
pub fn load_history_entries(sources: &Vec<Option<String>>) -> (r: Vec<String>)
    ensures
        texts(r@) == entries_of(sources@),
{
    let mut entries: Vec<String> = Vec::new();
    assert(texts(entries@) =~= entries_of(sources@.take(0)));
    for i in 0..sources.len()
        invariant
            texts(entries@) == entries_of(sources@.take(i as int)),
    {
        assert(sources@.take(i + 1).drop_last() =~= sources@.take(i as int));
        if let Some(content) = &sources[i] {
            add_lines(&mut entries, content.as_str());
        }
    }
    assert(sources@.take(sources@.len() as int) =~= sources@);
    entries
}

/// A history as it is stored, one entry to a line.
pub open spec fn stored_history(history: Seq<Seq<char>>) -> Seq<char> {
    joined(history, "\n"@) + "\n"@
}

/// What to store of a history; nothing when there is none.
pub fn save_history_entries(history: &Vec<String>) -> (r: Option<String>)
    ensures
        match r {
            Some(content) => history@.len() > 0 && content@ == stored_history(texts(history@)),
            None => history@.len() == 0,
        },
{
    if history.len() == 0 {
        None
    } else {
        Some(concat(join(history, "\n").as_str(), "\n"))
    }
}

// ---------------------------------------------------------------------
// Laws
// ---------------------------------------------------------------------

/// An entry that stands on a line of its own.
pub open spec fn on_one_line(entry: Seq<char>) -> bool {
    &&& forall|i: int| 0 <= i < entry.len() ==> #[trigger] entry[i] != '\n'
    &&& entry.len() > 0 && entry.last() != '\r'
}

/// No two of the entries are the same.
pub open spec fn distinct(entries: Seq<Seq<char>>) -> bool {
    forall|i: int, j: int| 0 <= i < j < entries.len() ==> #[trigger] entries[i] != #[trigger] entries[j]
}

proof fn lemma_split_appended(a: Seq<char>, b: Seq<char>, sep: char)
    requires
        forall|i: int| 0 <= i < b.len() ==> #[trigger] b[i] != sep,
    ensures
        split(a + b, sep) == split(a, sep).drop_last().push(split(a, sep).last() + b),
    decreases b.len(),
{
    lemma_split_nonempty(a, sep);
    if b.len() == 0 {
        assert(a + b =~= a);
        assert(split(a, sep).last() + b =~= split(a, sep).last());
        assert(split(a, sep).drop_last().push(split(a, sep).last()) =~= split(a, sep));
    } else {
        let shorter = b.drop_last();
        assert(forall|i: int| 0 <= i < shorter.len() ==> shorter[i] == b[i]);
        lemma_split_appended(a, shorter, sep);
        assert((a + b).drop_last() =~= a + shorter);
        assert((a + b).last() == b[b.len() - 1]);
        let rest = split(a + shorter, sep);
        assert(rest.drop_last() =~= split(a, sep).drop_last());
        assert(rest.last().push(b.last()) =~= split(a, sep).last() + b);
    }
}

proof fn lemma_split_stored(history: Seq<Seq<char>>)
    requires
        forall|i: int| 0 <= i < history.len() ==> on_one_line(#[trigger] history[i]),
        history.len() > 0,
    ensures
        split(joined(history, "\n"@), '\n') == history,
    decreases history.len(),
{
    reveal_strlit("\n");
    let last = history.last();
    let none = Seq::<char>::empty();
    assert(on_one_line(history[history.len() - 1]));
    if history.len() == 1 {
        lemma_split_appended(none, last, '\n');
        assert(none + last =~= last);
        assert(split(none, '\n').last() + last =~= last);
        assert(split(last, '\n') =~= history);
    } else {
        let rest = history.drop_last();
        assert(forall|i: int| 0 <= i < rest.len() ==> rest[i] == history[i]);
        lemma_split_stored(rest);
        let front = joined(rest, "\n"@);
        let ended = front + "\n"@;
        assert(ended =~= front.push('\n'));
        assert(ended.drop_last() =~= front);
        assert(split(ended, '\n') =~= rest.push(none));
        lemma_split_appended(ended, last, '\n');
        assert(none + last =~= last);
        assert(split(ended, '\n').drop_last() =~= rest);
        assert(split(joined(history, "\n"@), '\n') =~= history);
    }
}

proof fn lemma_entries_kept(history: Seq<Seq<char>>)
    requires
        distinct(history),
        forall|i: int| 0 <= i < history.len() ==> is_entry(#[trigger] history[i]),
    ensures
        with_lines(Seq::empty(), history) == history,
    decreases history.len(),
{
    if history.len() > 0 {
        let rest = history.drop_last();
        assert(forall|i: int| 0 <= i < rest.len() ==> rest[i] == history[i]);
        lemma_entries_kept(rest);
        assert(is_entry(history[history.len() - 1]));
        assert(!rest.contains(history.last())) by {
            if rest.contains(history.last()) {
                let k = choose|k: int| 0 <= k < rest.len() && rest[k] == history.last();
                assert(history[k] != history[history.len() - 1]);
            }
        }
        assert(rest.push(history.last()) =~= history);
    }
}

/// A history that is stored loads back as it was, when its entries stand on
/// lines of their own, are no comments, and no two are the same.
pub proof fn a_stored_history_loads_back(history: Seq<Seq<char>>, content: String)
    requires
        history.len() > 0,
        distinct(history),
        forall|i: int|
            0 <= i < history.len() ==> is_entry(#[trigger] history[i]) && on_one_line(history[i]),
        content@ == stored_history(history),
    ensures
        entries_of(seq![None, Some(content)]) == history,
{
    reveal_strlit("\n");
    let none = Seq::<char>::empty();
    let front = joined(history, "\n"@);
    lemma_split_stored(history);
    assert(content@ =~= front.push('\n'));
    assert(content@.drop_last() =~= front);
    let parts = split(content@, '\n');
    assert(parts =~= history.push(none));
    assert(parts.drop_last() =~= history);
    let ended = history.map_values(|p: Seq<char>| without_return(p));
    assert(ended =~= history) by {
        assert forall|i: int| 0 <= i < history.len() implies ended[i] == history[i] by {
            assert(on_one_line(history[i]));
        }
    }
    assert(lines_of(content@) == history);
    lemma_entries_kept(history);
    let sources: Seq<Option<String>> = seq![None, Some(content)];
    assert(sources.drop_last() =~= seq![None::<String>]);
    assert(seq![None::<String>].drop_last() =~= Seq::<Option<String>>::empty());
    assert(entries_of(Seq::<Option<String>>::empty()) == Seq::<Seq<char>>::empty());
    assert(entries_of(seq![None::<String>]) == Seq::<Seq<char>>::empty());
}

proof fn lemma_with_lines_distinct(entries: Seq<Seq<char>>, list: Seq<Seq<char>>)
    requires
        distinct(entries),
    ensures
        distinct(with_lines(entries, list)),
    decreases list.len(),
{
    if list.len() > 0 {
        let rest = with_lines(entries, list.drop_last());
        lemma_with_lines_distinct(entries, list.drop_last());
        let all = with_lines(entries, list);
        assert forall|i: int, j: int| 0 <= i < j < all.len() implies #[trigger] all[i]
            != #[trigger] all[j] by {
            if j == rest.len() {
                assert(rest[i] == all[i]);
                assert(rest.contains(all[i]));
            }
        }
    }
}

/// No entry is loaded twice, whatever the files hold.
pub proof fn no_entry_is_loaded_twice(sources: Seq<Option<String>>)
    ensures
        distinct(entries_of(sources)),
    decreases sources.len(),
{
    if sources.len() > 0 {
        no_entry_is_loaded_twice(sources.drop_last());
        match sources.last() {
            Some(content) => {
                lemma_with_lines_distinct(entries_of(sources.drop_last()), lines_of(content@));
            },
            None => {},
        }
    }
}

} // verus!
