//! What goes into a prompt, into the history of the input line and into the
//! name of a conversation.

#[allow(unused_imports)]
use crate::chat::context::{
    all_quoted, contextual, merged, paths, quoted, removal_told, without, Files,
};
#[allow(unused_imports)]
use crate::chat::history::{entries_of, is_entry, stored_history, with_lines};
#[allow(unused_imports)]
use crate::chat::naming::{auto_name, derived_name, nonempty, slug, slug_char, slug_words};
#[allow(unused_imports)]
use crate::chat::notice::Told;
#[allow(unused_imports)]
use crate::order::{lemma_rising_push, rising};
#[allow(unused_imports)]
use crate::text::{begins_with, has_part, joined, lines_of, split, white_space};
#[allow(unused_imports)]
use crate::text_laws::{
    a_part_stands_at_some_position, joining_puts_the_separator_between,
    splitting_cuts_at_each_separator, splitting_goes_on_behind_a_separator,
};
use vstd::prelude::*;

verus! {

// ---------------------------------------------------------------------
// Files of the context
// ---------------------------------------------------------------------

/// A prompt without files is sent as it is, and each file adds a line with its
/// path and then its content, all of it, between fences.
pub proof fn each_file_is_sent_behind_the_prompt(files: Seq<Files>, f: Files, input: Seq<char>)
    ensures
        contextual(Seq::<Files>::empty(), input) == input,
        contextual(files.push(f), input) == contextual(files, input) + "\n"@ + (f.path@
            + "\n```\n"@ + f.content@ + "```"@),
{
    let more = files.push(f);
    let last = seq![quoted(f)];
    assert(all_quoted(more) =~= all_quoted(files) + last);
    joining_puts_the_separator_between(all_quoted(files), last, "\n"@);
    joining_puts_the_separator_between(last, last, "\n"@);
    if files.len() == 0 {
        assert(all_quoted(more) =~= last);
        assert(contextual(more, input) =~= contextual(files, input) + "\n"@ + quoted(f));
    } else {
        assert(contextual(more, input) =~= contextual(files, input) + "\n"@ + quoted(f));
    }
}

/// The paths of the files are those of the files, in order.
pub proof fn each_file_has_its_path(files: Seq<Files>, i: int)
    requires
        0 <= i < files.len(),
    ensures
        paths(files).len() == files.len(),
        paths(files)[i] == files[i].path@,
{
}

/// A file of the list is new when none of the files has its path, and none
/// that stands before it in the list.
pub open spec fn is_new(files: Seq<Files>, more: Seq<Files>, k: int) -> bool {
    &&& 0 <= k < more.len()
    &&& forall|i: int| 0 <= i < files.len() ==> (#[trigger] files[i]).path@ != more[k].path@
    &&& forall|j: int| 0 <= j < k ==> (#[trigger] more[j]).path@ != more[k].path@
}

proof fn lemma_merged_positions(files: Seq<Files>, more: Seq<Files>) -> (at: Seq<int>)
    ensures
        rising(at, more.len() as int),
        merged(files, more) == files + at.map_values(|k: int| more[k]),
        forall|k: int| #[trigger] at.contains(k) <==> is_new(files, more, k),
    decreases more.len(),
{
    if more.len() == 0 {
        let at = Seq::<int>::empty();
        assert(files + at.map_values(|k: int| more[k]) =~= files);
        at
    } else {
        let before = more.drop_last();
        let last = more.len() - 1;
        let rest = lemma_merged_positions(files, before);
        let all = merged(files, before);
        let added = rest.map_values(|k: int| before[k]);
        lemma_rising_push(rest, last);
        let path = more[last].path@;
        assert(paths(all).contains(path) <==> !is_new(files, more, last)) by {
            if paths(all).contains(path) {
                let i = choose|i: int| 0 <= i < all.len() && paths(all)[i] == path;
                if i < files.len() {
                    assert(files[i].path@ == path);
                } else {
                    let k = rest[i - files.len()];
                    assert(all[i] == added[i - files.len()]);
                    assert(more[k].path@ == path);
                }
            }
            if !is_new(files, more, last) {
                if exists|i: int| 0 <= i < files.len() && (#[trigger] files[i]).path@ == path {
                    let i = choose|i: int| 0 <= i < files.len() && (#[trigger] files[i]).path@
                        == path;
                    assert(paths(all)[i] == path);
                } else {
                    let j = choose|j: int| 0 <= j < last && (#[trigger] more[j]).path@ == path;
                    let k = lemma_first_of_path(more, last, j);
                    assert(is_new(files, before, k)) by {
                        assert forall|m: int| 0 <= m < k implies (#[trigger] before[m]).path@
                            != before[k].path@ by {
                            assert(more[m].path@ != path);
                        }
                    }
                    assert(rest.contains(k));
                    let i = choose|i: int| 0 <= i < rest.len() && rest[i] == k;
                    assert(added[i] == more[k]);
                    assert(all[files.len() + i] == more[k]);
                    assert(paths(all)[files.len() + i] == path);
                }
            }
        }
        let at = if is_new(files, more, last) {
            rest.push(last)
        } else {
            rest
        };
        assert(merged(files, more) =~= files + at.map_values(|k: int| more[k]));
        assert forall|k: int| #[trigger] at.contains(k) <==> is_new(files, more, k) by {
            assert(rest.contains(k) <==> is_new(files, before, k));
            assert(rest.push(last).contains(k) <==> k == last || rest.contains(k));
            if 0 <= k < last {
                assert(forall|j: int| 0 <= j < before.len() ==> #[trigger] before[j] == more[j]);
                if is_new(files, before, k) {
                    assert forall|j: int| 0 <= j < k implies (#[trigger] more[j]).path@
                        != more[k].path@ by {
                        assert(before[j].path@ != before[k].path@);
                    }
                }
                if is_new(files, more, k) {
                    assert forall|j: int| 0 <= j < k implies (#[trigger] before[j]).path@
                        != before[k].path@ by {
                        assert(more[j].path@ != more[k].path@);
                    }
                }
            }
        }
        at
    }
}

proof fn lemma_first_of_path(more: Seq<Files>, last: int, j: int) -> (k: int)
    requires
        0 <= j < last < more.len(),
        more[j].path@ == more[last].path@,
    ensures
        0 <= k <= j,
        more[k].path@ == more[last].path@,
        forall|m: int| 0 <= m < k ==> (#[trigger] more[m]).path@ != more[last].path@,
    decreases j,
{
    if exists|m: int| 0 <= m < j && (#[trigger] more[m]).path@ == more[last].path@ {
        let m = choose|m: int| 0 <= m < j && (#[trigger] more[m]).path@ == more[last].path@;
        lemma_first_of_path(more, last, m)
    } else {
        j
    }
}

/// Adding files keeps those that are there, and puts behind them, in order,
/// exactly those whose path neither a file that is there has nor one that was
/// named before.
pub proof fn exactly_the_new_files_are_added(files: Seq<Files>, more: Seq<Files>)
    ensures
        exists|at: Seq<int>| #[trigger]
            rising(at, more.len() as int) && merged(files, more) == files + at.map_values(
                |k: int| more[k],
            ) && forall|k: int| #[trigger] at.contains(k) <==> is_new(files, more, k),
{
    let at = lemma_merged_positions(files, more);
    assert(rising(at, more.len() as int));
}

/// Removing decides on each file by itself and keeps the order: a file goes
/// exactly when the text stands somewhere in its path.
pub proof fn removing_goes_file_by_file(a: Seq<Files>, b: Seq<Files>, f: Files, path: Seq<char>)
    ensures
        without(Seq::<Files>::empty(), path).len() == 0,
        without(a + b, path) == without(a, path) + without(b, path),
        without(seq![f], path) == if exists|i: int|
            0 <= i <= f.path@.len() - path.len() && #[trigger] f.path@.subrange(i, i + path.len())
                == path {
            Seq::<Files>::empty()
        } else {
            seq![f]
        },
    decreases b.len(),
{
    let none = Seq::<Files>::empty();
    a_part_stands_at_some_position(f.path@, path);
    assert(seq![f].drop_last() =~= none);
    assert(without(none, path) =~= none);
    assert(none.push(f) =~= seq![f]);
    if b.len() == 0 {
        assert(a + b =~= a);
        assert(without(a + b, path) =~= without(a, path) + without(b, path));
    } else {
        removing_goes_file_by_file(a, b.drop_last(), f, path);
        assert((a + b).drop_last() =~= a + b.drop_last());
        assert((a + b).last() == b.last());
        assert(without(a + b, path) =~= without(a, path) + without(b, path));
    }
}

/// A removal is told as one only when files went, and names the text.
pub proof fn a_removal_is_told_as_it_was(removed: bool, path: Seq<char>)
    ensures
        removal_told(removed, path) is Success <==> removed,
        removal_told(removed, path) is Warning <==> !removed,
        removal_told(removed, path) matches Told::Success(t) ==> has_part(t, path),
        removal_told(removed, path) matches Told::Warning(t) ==> has_part(t, path),
{
    lemma_in_between("Removed files matching '"@, path, "' from context"@);
    lemma_in_between("No files matching '"@, path, "' found in context"@);
}

/// A text stands where it was put between two others.
pub proof fn lemma_in_between(a: Seq<char>, middle: Seq<char>, b: Seq<char>)
    ensures
        has_part(a + middle + b, middle),
{
    let whole = a + middle + b;
    assert(whole.subrange(a.len() as int, a.len() as int + middle.len()) =~= middle);
    assert(crate::text::occurs_at(whole, middle, a.len() as int));
}

// ---------------------------------------------------------------------
// The history of the input line
// ---------------------------------------------------------------------

/// A line is an entry exactly when it holds more than white space and does not
/// begin with a hash.
pub proof fn an_entry_is_neither_blank_nor_a_comment(line: Seq<char>)
    ensures
        is_entry(line) <==> line.len() > 0 && line[0] != '#' && exists|i: int|
            0 <= i < line.len() && !white_space(#[trigger] line[i]),
{
    reveal_strlit("#");
    if line.len() > 0 {
        assert(line.subrange(0, 1)[0] == line[0]);
        if line[0] == '#' {
            assert(line.subrange(0, 1) =~= "#"@);
            assert(begins_with(line, "#"@));
        }
    }
}

/// A line of the list is a new entry when it is an entry that neither stands
/// among the entries nor before it in the list.
pub open spec fn is_new_entry(entries: Seq<Seq<char>>, list: Seq<Seq<char>>, k: int) -> bool {
    &&& 0 <= k < list.len()
    &&& list[k].len() > 0 && list[k][0] != '#'
    &&& exists|i: int| 0 <= i < list[k].len() && !white_space(#[trigger] list[k][i])
    &&& forall|i: int| 0 <= i < entries.len() ==> #[trigger] entries[i] != list[k]
    &&& forall|j: int| 0 <= j < k ==> #[trigger] list[j] != list[k]
}

proof fn lemma_first_of_line(list: Seq<Seq<char>>, last: int, j: int) -> (k: int)
    requires
        0 <= j < last < list.len(),
        list[j] == list[last],
    ensures
        0 <= k <= j,
        list[k] == list[last],
        forall|m: int| 0 <= m < k ==> #[trigger] list[m] != list[last],
    decreases j,
{
    if exists|m: int| 0 <= m < j && #[trigger] list[m] == list[last] {
        let m = choose|m: int| 0 <= m < j && #[trigger] list[m] == list[last];
        lemma_first_of_line(list, last, m)
    } else {
        j
    }
}

proof fn lemma_line_positions(entries: Seq<Seq<char>>, list: Seq<Seq<char>>) -> (at: Seq<int>)
    ensures
        rising(at, list.len() as int),
        with_lines(entries, list) == entries + at.map_values(|k: int| list[k]),
        forall|k: int| #[trigger] at.contains(k) <==> is_new_entry(entries, list, k),
    decreases list.len(),
{
    if list.len() == 0 {
        let at = Seq::<int>::empty();
        assert(entries + at.map_values(|k: int| list[k]) =~= entries);
        at
    } else {
        let before = list.drop_last();
        let last = list.len() - 1;
        let rest = lemma_line_positions(entries, before);
        let all = with_lines(entries, before);
        let added = rest.map_values(|k: int| before[k]);
        let line = list[last];
        lemma_rising_push(rest, last);
        an_entry_is_neither_blank_nor_a_comment(line);
        assert(is_entry(line) && !all.contains(line) <==> is_new_entry(entries, list, last)) by {
            if is_entry(line) && all.contains(line) {
                let i = choose|i: int| 0 <= i < all.len() && all[i] == line;
                if i < entries.len() {
                    assert(entries[i] == line);
                } else {
                    let k = rest[i - entries.len()];
                    assert(all[i] == added[i - entries.len()]);
                    assert(list[k] == line);
                }
            }
            if is_entry(line) && !is_new_entry(entries, list, last) {
                if exists|i: int| 0 <= i < entries.len() && #[trigger] entries[i] == line {
                    let i = choose|i: int| 0 <= i < entries.len() && #[trigger] entries[i] == line;
                    assert(all[i] == line);
                } else {
                    let j = choose|j: int| 0 <= j < last && #[trigger] list[j] == line;
                    let k = lemma_first_of_line(list, last, j);
                    assert(is_new_entry(entries, before, k)) by {
                        assert(before[k] == line);
                        assert forall|m: int| 0 <= m < k implies #[trigger] before[m]
                            != before[k] by {
                            assert(list[m] != line);
                        }
                        let w = choose|w: int| 0 <= w < line.len() && !white_space(
                            #[trigger] line[w],
                        );
                        assert(!white_space(before[k][w]));
                    }
                    assert(rest.contains(k));
                    let i = choose|i: int| 0 <= i < rest.len() && rest[i] == k;
                    assert(added[i] == line);
                    assert(all[entries.len() + i] == line);
                }
            }
        }
        let at = if is_new_entry(entries, list, last) {
            rest.push(last)
        } else {
            rest
        };
        assert(with_lines(entries, list) =~= entries + at.map_values(|k: int| list[k]));
        assert forall|k: int| #[trigger] at.contains(k) <==> is_new_entry(entries, list, k) by {
            assert(rest.contains(k) <==> is_new_entry(entries, before, k));
            assert(rest.push(last).contains(k) <==> k == last || rest.contains(k));
            if 0 <= k < last {
                assert(before[k] == list[k]);
                if is_new_entry(entries, before, k) {
                    let w = choose|w: int| 0 <= w < before[k].len() && !white_space(
                        #[trigger] before[k][w],
                    );
                    assert(!white_space(list[k][w]));
                    assert forall|j: int| 0 <= j < k implies #[trigger] list[j] != list[k] by {
                        assert(before[j] != before[k]);
                    }
                }
                if is_new_entry(entries, list, k) {
                    let w = choose|w: int| 0 <= w < list[k].len() && !white_space(
                        #[trigger] list[k][w],
                    );
                    assert(!white_space(before[k][w]));
                    assert forall|j: int| 0 <= j < k implies #[trigger] before[j] != before[k] by {
                        assert(list[j] != list[k]);
                    }
                }
            }
        }
        at
    }
}

/// Lines that are read join the entries that are there, in order: exactly
/// those that are no comments, not blank, and neither there nor read before.
pub proof fn exactly_the_new_entries_are_loaded(entries: Seq<Seq<char>>, list: Seq<Seq<char>>)
    ensures
        exists|at: Seq<int>| #[trigger]
            rising(at, list.len() as int) && with_lines(entries, list) == entries + at.map_values(
                |k: int| list[k],
            ) && forall|k: int| #[trigger] at.contains(k) <==> is_new_entry(entries, list, k),
{
    let at = lemma_line_positions(entries, list);
    assert(rising(at, list.len() as int));
}

/// The lines of each source follow those of the sources before it; a source
/// that could not be read adds nothing.
pub proof fn sources_are_read_in_order(sources: Seq<Option<String>>, content: String)
    ensures
        entries_of(Seq::<Option<String>>::empty()).len() == 0,
        entries_of(sources.push(None)) == entries_of(sources),
        entries_of(sources.push(Some(content))) == with_lines(
            entries_of(sources),
            lines_of(content@),
        ),
{
    assert(sources.push(None).drop_last() =~= sources);
    assert(sources.push(Some(content)).drop_last() =~= sources);
}

/// Each entry is stored on a line of its own, which a newline ends.
pub proof fn each_entry_is_stored_on_a_line(history: Seq<Seq<char>>, entry: Seq<char>)
    ensures
        stored_history(seq![entry]) == entry + seq!['\n'],
        history.len() > 0 ==> stored_history(history.push(entry)) == stored_history(history) + entry
            + seq!['\n'],
{
    reveal_strlit("\n");
    assert("\n"@ =~= seq!['\n']);
    let one = seq![entry];
    joining_puts_the_separator_between(one, one, "\n"@);
    if history.len() > 0 {
        joining_puts_the_separator_between(history, one, "\n"@);
        assert(history.push(entry) =~= history + one);
    }
}

// ---------------------------------------------------------------------
// Names of conversations
// ---------------------------------------------------------------------

/// The names that were made up are the one of a temporary conversation and
/// those that begin in one of three ways.
pub proof fn these_names_are_automatic(name: Seq<char>)
    ensures
        auto_name(name) <==> {
            ||| name == "temporary"@
            ||| name.len() >= 5 && name.take(5) == "chat-"@
            ||| name.len() >= 5 && name.take(5) == "chat_"@
            ||| name.len() >= 10 && name.take(10) == "auto_save_"@
        },
{
    reveal_strlit("chat-");
    reveal_strlit("chat_");
    reveal_strlit("auto_save_");
    if name.len() >= 5 {
        assert(name.subrange(0, 5) =~= name.take(5));
    }
    if name.len() >= 10 {
        assert(name.subrange(0, 10) =~= name.take(10));
    }
}

/// Of a character a slug keeps an ASCII letter, in lowercase, and a digit, and
/// nothing else.
pub proof fn a_slug_keeps_letters_and_digits(c: char)
    ensures
        'a' <= c <= 'z' ==> slug_char(c) == c,
        '0' <= c <= '9' ==> slug_char(c) == c,
        'A' <= c <= 'Z' ==> slug_char(c) as int == c as int + 32,
        !('a' <= c <= 'z') && !('0' <= c <= '9') && !('A' <= c <= 'Z') ==> slug_char(c) == '-',
{
}

proof fn lemma_nonempty_both(a: Seq<Seq<char>>, b: Seq<Seq<char>>)
    ensures
        nonempty(a + b) == nonempty(a) + nonempty(b),
    decreases b.len(),
{
    if b.len() == 0 {
        assert(a + b =~= a);
        assert(nonempty(a + b) =~= nonempty(a) + nonempty(b));
    } else {
        lemma_nonempty_both(a, b.drop_last());
        assert((a + b).drop_last() =~= a + b.drop_last());
        assert((a + b).last() == b.last());
        assert(nonempty(a + b) =~= nonempty(a) + nonempty(b));
    }
}

/// Whatever is no ASCII letter and no digit parts words: those of a prompt are
/// the words before it and the words behind it.
pub proof fn other_characters_part_words(before: Seq<char>, c: char, rest: Seq<char>)
    requires
        !('a' <= c <= 'z'),
        !('A' <= c <= 'Z'),
        !('0' <= c <= '9'),
    ensures
        slug_words(before + seq![c] + rest) == slug_words(before) + slug_words(rest),
{
    let f = |c: char| slug_char(c);
    assert((before + seq![c] + rest).map_values(f) =~= before.map_values(f) + seq!['-']
        + rest.map_values(f));
    splitting_goes_on_behind_a_separator(before.map_values(f), '-', rest.map_values(f));
    lemma_nonempty_both(split(before.map_values(f), '-'), split(rest.map_values(f), '-'));
}

/// ASCII letters and digits side by side are one word, in lowercase; an empty
/// text has none.
pub proof fn letters_side_by_side_are_a_word(word: Seq<char>)
    requires
        word.len() > 0,
        forall|i: int|
            0 <= i < word.len() ==> {
                ||| 'a' <= #[trigger] word[i] <= 'z'
                ||| 'A' <= word[i] <= 'Z'
                ||| '0' <= word[i] <= '9'
            },
    ensures
        slug_words(Seq::<char>::empty()).len() == 0,
        slug_words(word).len() == 1,
        slug_words(word)[0].len() == word.len(),
        forall|i: int|
            0 <= i < word.len() ==> #[trigger] slug_words(word)[0][i] == if 'A' <= word[i] <= 'Z' {
                (word[i] as int + 32) as char
            } else {
                word[i]
            },
{
    let f = |c: char| slug_char(c);
    let mapped = word.map_values(f);
    let none = Seq::<char>::empty();
    assert(none.map_values(f) =~= none);
    assert(seq![none].drop_last() =~= Seq::<Seq<char>>::empty());
    assert(nonempty(Seq::<Seq<char>>::empty()).len() == 0);
    assert(split(none, '-') =~= seq![none]);
    assert(nonempty(seq![none]).len() == 0);
    assert forall|i: int| 0 <= i < mapped.len() implies #[trigger] mapped[i] != '-' by {
        a_slug_keeps_letters_and_digits(word[i]);
    }
    splitting_cuts_at_each_separator(mapped, '-', none);
    assert(seq![mapped].drop_last() =~= Seq::<Seq<char>>::empty());
    assert(seq![mapped].last() == mapped);
    assert(nonempty(seq![mapped]) =~= seq![mapped]);
}

/// The slug of a prompt is made of its first six words with hyphens between
/// them, and of at most forty-eight characters of that. A prompt without a
/// word has none.
pub proof fn a_slug_is_made_of_the_first_words(prompt: Seq<char>)
    ensures
        slug_words(prompt).len() == 0 ==> slug(prompt) is None,
        ({
            let words = slug_words(prompt);
            let whole = joined(
                if words.len() < 6 {
                    words
                } else {
                    words.take(6)
                },
                "-"@,
            );
            &&& 0 < whole.len() <= 48 ==> slug(prompt) == Some(whole)
            &&& whole.len() > 48 ==> slug(prompt) == Some(whole.take(48))
        }),
{
    let words = slug_words(prompt);
    if words.len() == 6 {
        assert(words.take(6) =~= words);
    }
    if words.len() == 0 {
        assert(joined(words, "-"@).len() == 0);
    }
}

/// A conversation that is named after its first prompt has the day, a hyphen
/// and the slug for its name.
pub proof fn a_derived_name_is_the_day_and_the_slug(today: Seq<char>, slug: Seq<char>)
    ensures
        derived_name(today, slug).len() == today.len() + 1 + slug.len(),
        derived_name(today, slug).take(today.len() as int) == today,
        derived_name(today, slug)[today.len() as int] == '-',
        derived_name(today, slug).skip(today.len() as int + 1) == slug,
{
    reveal_strlit("-");
    assert(derived_name(today, slug).take(today.len() as int) =~= today);
    assert(derived_name(today, slug).skip(today.len() as int + 1) =~= slug);
}

} // verus!
