//! What the operations on texts come to, in terms of the characters alone.

#[allow(unused_imports)]
use crate::text::{
    ascii_lower, begins_with, decimal, digit, first_chars, has_part, joined, left_aligned,
    lemma_decimal_digits, lemma_split_nonempty, lines_of, occurs_at, right_aligned,
    same_but_for_case, signed_decimal, spaces, split, text_before, texts, trim_end, trim_start, trimmed,
    truncated, white_space, without_return,
};
use vstd::prelude::*;

verus! {

// ---------------------------------------------------------------------
// Parts
// ---------------------------------------------------------------------

/// A text contains another exactly when it is that one with something before
/// it and something behind it.
pub proof fn a_part_has_something_on_either_side(s: Seq<char>, p: Seq<char>)
    ensures
        has_part(s, p) <==> exists|a: Seq<char>, b: Seq<char>| s == #[trigger] (a + p + b),
{
    if has_part(s, p) {
        let i = choose|i: int| #[trigger] occurs_at(s, p, i);
        let a = s.take(i);
        let b = s.skip(i + p.len());
        assert(s =~= a + s.subrange(i, i + p.len()) + b);
        assert(s == a + p + b);
    }
    if exists|a: Seq<char>, b: Seq<char>| s == #[trigger] (a + p + b) {
        let (a, b) = choose|a: Seq<char>, b: Seq<char>| s == #[trigger] (a + p + b);
        assert(s.subrange(a.len() as int, a.len() as int + p.len()) =~= p);
        assert(occurs_at(s, p, a.len() as int));
    }
}

/// A text contains another exactly when its characters stand in it side by
/// side from some position on.
pub proof fn a_part_stands_at_some_position(s: Seq<char>, p: Seq<char>)
    ensures
        has_part(s, p) <==> exists|i: int|
            0 <= i <= s.len() - p.len() && #[trigger] s.subrange(i, i + p.len()) == p,
{
    if has_part(s, p) {
        let i = choose|i: int| #[trigger] occurs_at(s, p, i);
        assert(s.subrange(i, i + p.len()) == p);
    }
    if exists|i: int| 0 <= i <= s.len() - p.len() && #[trigger] s.subrange(i, i + p.len()) == p {
        let i = choose|i: int|
            0 <= i <= s.len() - p.len() && #[trigger] s.subrange(i, i + p.len()) == p;
        assert(occurs_at(s, p, i));
    }
}

/// A text begins with another exactly when it is that one with something
/// behind it.
pub proof fn a_beginning_has_something_behind_it(s: Seq<char>, p: Seq<char>)
    ensures
        begins_with(s, p) <==> exists|b: Seq<char>| s == #[trigger] (p + b),
{
    if begins_with(s, p) {
        assert(s =~= s.subrange(0, p.len() as int) + s.skip(p.len() as int));
        assert(s == p + s.skip(p.len() as int));
    }
    if exists|b: Seq<char>| s == #[trigger] (p + b) {
        let b = choose|b: Seq<char>| s == #[trigger] (p + b);
        assert(s.subrange(0, p.len() as int) =~= p);
    }
}

/// The beginning of a text that is cut to a length: all of it when it is no
/// longer, and otherwise that many of its characters.
pub proof fn a_cut_text_is_a_beginning(s: Seq<char>, n: int)
    requires
        0 <= n,
    ensures
        first_chars(s, n).len() == if s.len() < n {
            s.len() as int
        } else {
            n
        },
        forall|i: int| 0 <= i < first_chars(s, n).len() ==> #[trigger] first_chars(s, n)[i] == s[i],
{
}

// ---------------------------------------------------------------------
// Trimming
// ---------------------------------------------------------------------

proof fn lemma_trim_start_skips(s: Seq<char>) -> (i: int)
    ensures
        0 <= i <= s.len(),
        trim_start(s) == s.skip(i),
        forall|k: int| 0 <= k < i ==> white_space(#[trigger] s[k]),
        i < s.len() ==> !white_space(s[i]),
    decreases s.len(),
{
    if s.len() > 0 && white_space(s[0]) {
        let rest = s.drop_first();
        let j = lemma_trim_start_skips(rest);
        assert(rest.skip(j) =~= s.skip(j + 1));
        assert forall|k: int| 0 <= k < j + 1 implies white_space(#[trigger] s[k]) by {
            if k > 0 {
                assert(rest[k - 1] == s[k]);
            }
        }
        if j + 1 < s.len() {
            assert(rest[j] == s[j + 1]);
        }
        j + 1
    } else {
        assert(s.skip(0) =~= s);
        0
    }
}

proof fn lemma_trim_end_takes(s: Seq<char>) -> (j: int)
    ensures
        0 <= j <= s.len(),
        trim_end(s) == s.take(j),
        forall|k: int| j <= k < s.len() ==> white_space(#[trigger] s[k]),
        0 < j ==> !white_space(s[j - 1]),
    decreases s.len(),
{
    if s.len() > 0 && white_space(s.last()) {
        let rest = s.drop_last();
        let j = lemma_trim_end_takes(rest);
        assert(rest.take(j) =~= s.take(j));
        assert forall|k: int| j <= k < s.len() implies white_space(#[trigger] s[k]) by {
            if k < rest.len() {
                assert(rest[k] == s[k]);
            }
        }
        if j > 0 {
            assert(rest[j - 1] == s[j - 1]);
        }
        j
    } else {
        assert(s.take(s.len() as int) =~= s);
        s.len() as int
    }
}

/// The characters of `s` from `i` to `j` are all that is not white space at
/// its ends.
pub open spec fn stripped_to(s: Seq<char>, i: int, j: int) -> bool {
    &&& 0 <= i <= j <= s.len()
    &&& forall|k: int| 0 <= k < i ==> white_space(#[trigger] s[k])
    &&& forall|k: int| j <= k < s.len() ==> white_space(#[trigger] s[k])
    &&& i < j ==> !white_space(s[i]) && !white_space(s[j - 1])
}

/// Trimming takes white space off both ends, all of it and nothing else.
pub proof fn trimming_takes_off_the_white_space_at_the_ends(s: Seq<char>)
    ensures
        exists|i: int, j: int| #[trigger]
            stripped_to(s, i, j) && trimmed(s) == s.subrange(i, j),
{
    let i = lemma_trim_start_skips(s);
    let rest = s.skip(i);
    let n = lemma_trim_end_takes(rest);
    let j = i + n;
    assert(rest.take(n) =~= s.subrange(i, j));
    assert forall|k: int| j <= k < s.len() implies white_space(#[trigger] s[k]) by {
        assert(rest[k - i] == s[k]);
    }
    if n > 0 {
        assert(rest[n - 1] == s[j - 1]);
    }
    assert(stripped_to(s, i, j));
}

/// A text without white space at its ends is left as it is, and white space
/// put around a text goes again.
pub proof fn trimming_undoes_padding(a: Seq<char>, s: Seq<char>, b: Seq<char>)
    requires
        forall|i: int| 0 <= i < a.len() ==> white_space(#[trigger] a[i]),
        forall|i: int| 0 <= i < b.len() ==> white_space(#[trigger] b[i]),
        s.len() > 0,
        !white_space(s[0]),
        !white_space(s.last()),
    ensures
        trimmed(a + s + b) == s,
{
    let all = a + s + b;
    trimming_takes_off_the_white_space_at_the_ends(all);
    let (i, j) = choose|i: int, j: int| #[trigger]
        stripped_to(all, i, j) && trimmed(all) == all.subrange(i, j);
    let first = a.len() as int;
    let last = a.len() + s.len() - 1;
    assert(all[first] == s[0]);
    assert(all[last] == s.last());
    assert(i <= first);
    assert(j > last);
    if i < first {
        assert(all[i] == a[i]);
    }
    if j > last + 1 {
        assert(all[j - 1] == b[j - 1 - (last + 1)]);
    }
    assert(all.subrange(first, last + 1) =~= s);
}

// ---------------------------------------------------------------------
// Splitting and joining
// ---------------------------------------------------------------------

/// Joined pieces are the pieces with the separator between neighbours: joining
/// two lists is joining each and putting the separator in the middle.
pub proof fn joining_puts_the_separator_between(
    a: Seq<Seq<char>>,
    b: Seq<Seq<char>>,
    sep: Seq<char>,
)
    ensures
        joined(Seq::<Seq<char>>::empty(), sep).len() == 0,
        a.len() == 1 ==> joined(a, sep) == a[0],
        a.len() > 0 && b.len() > 0 ==> joined(a + b, sep) == joined(a, sep) + sep + joined(b, sep),
    decreases b.len(),
{
    if a.len() > 0 && b.len() > 0 {
        let all = a + b;
        assert(all.last() == b.last());
        assert(all.drop_last() =~= a + b.drop_last());
        if b.len() == 1 {
            assert(a + b.drop_last() =~= a);
            assert(joined(all, sep) =~= joined(a, sep) + sep + joined(b, sep));
        } else {
            joining_puts_the_separator_between(a, b.drop_last(), sep);
            assert(joined(all, sep) =~= joined(a, sep) + sep + joined(b, sep));
        }
    }
}

/// No piece of a text that was split holds the separator.
pub proof fn no_piece_holds_the_separator(s: Seq<char>, sep: char, i: int, j: int)
    requires
        0 <= i < split(s, sep).len(),
        0 <= j < split(s, sep)[i].len(),
    ensures
        split(s, sep)[i][j] != sep,
    decreases s.len(),
{
    if s.len() > 0 {
        let rest = split(s.drop_last(), sep);
        lemma_split_nonempty(s.drop_last(), sep);
        if s.last() == sep {
            if i < rest.len() {
                no_piece_holds_the_separator(s.drop_last(), sep, i, j);
            }
        } else if i < rest.len() - 1 || j < rest.last().len() {
            no_piece_holds_the_separator(s.drop_last(), sep, i, j);
        }
    }
}

/// The pieces of a text that was split, joined by the separator again, are
/// that text.
pub proof fn joining_undoes_splitting(s: Seq<char>, sep: char)
    ensures
        split(s, sep).len() > 0,
        joined(split(s, sep), seq![sep]) == s,
    decreases s.len(),
{
    let parts = split(s, sep);
    let glue = seq![sep];
    if s.len() == 0 {
        assert(joined(parts, glue) =~= s);
    } else {
        let before = s.drop_last();
        let rest = split(before, sep);
        joining_undoes_splitting(before, sep);
        if s.last() == sep {
            assert(parts.drop_last() =~= rest);
            assert(joined(parts, glue) =~= before + glue + Seq::<char>::empty());
            assert(joined(parts, glue) =~= s);
        } else {
            let last = rest.last().push(s.last());
            assert(parts.drop_last() =~= rest.drop_last());
            assert(parts.last() == last);
            if parts.len() == 1 {
                assert(joined(parts, glue) =~= s);
            } else {
                assert(joined(rest, glue) == joined(rest.drop_last(), glue) + glue + rest.last());
                assert(joined(parts, glue) =~= joined(rest, glue).push(s.last()));
                assert(joined(parts, glue) =~= s);
            }
        }
    }
}

proof fn lemma_split_without(s: Seq<char>, sep: char)
    requires
        forall|i: int| 0 <= i < s.len() ==> #[trigger] s[i] != sep,
    ensures
        split(s, sep) == seq![s],
    decreases s.len(),
{
    if s.len() > 0 {
        let before = s.drop_last();
        assert forall|i: int| 0 <= i < before.len() implies #[trigger] before[i] != sep by {
            assert(before[i] == s[i]);
        }
        lemma_split_without(before, sep);
        assert(s[s.len() - 1] != sep);
        assert(before.push(s.last()) =~= s);
        assert(split(s, sep) =~= seq![s]);
    } else {
        assert(s =~= Seq::<char>::empty());
    }
}

/// Splitting two texts with a separator between them splits each of them.
pub proof fn splitting_goes_on_behind_a_separator(before: Seq<char>, sep: char, rest: Seq<char>)
    ensures
        split(before + seq![sep] + rest, sep) == split(before, sep) + split(rest, sep),
    decreases rest.len(),
{
    let s = before + seq![sep] + rest;
    lemma_split_nonempty(rest, sep);
    if rest.len() == 0 {
        assert(s =~= before.push(sep));
        assert(s.drop_last() =~= before);
        assert(split(s, sep) =~= split(before, sep) + split(rest, sep));
    } else {
        let shorter = rest.drop_last();
        splitting_goes_on_behind_a_separator(before, sep, shorter);
        lemma_split_nonempty(shorter, sep);
        assert(s.drop_last() =~= before + seq![sep] + shorter);
        assert(s.last() == rest.last());
        let parts = split(shorter, sep);
        let more = split(before, sep) + parts;
        if rest.last() == sep {
            assert(split(s, sep) =~= split(before, sep) + split(rest, sep));
        } else {
            assert(more.last() == parts.last());
            assert(more.drop_last() =~= split(before, sep) + parts.drop_last());
            assert(split(s, sep) =~= split(before, sep) + split(rest, sep));
        }
    }
}

/// A text is cut at its first separator, and the rest is split in turn.
pub proof fn splitting_cuts_at_each_separator(line: Seq<char>, sep: char, rest: Seq<char>)
    requires
        forall|i: int| 0 <= i < line.len() ==> #[trigger] line[i] != sep,
    ensures
        split(line, sep) == seq![line],
        split(line + seq![sep] + rest, sep) == seq![line] + split(rest, sep),
{
    lemma_split_without(line, sep);
    splitting_goes_on_behind_a_separator(line, sep, rest);
}

/// The first line of a text ends at its first newline, and is without the
/// carriage return before it; the rest of the text has the other lines. A text
/// without a newline is one line, unless it is empty.
pub proof fn a_line_ends_at_each_newline(line: Seq<char>, rest: Seq<char>)
    requires
        forall|i: int| 0 <= i < line.len() ==> #[trigger] line[i] != '\n',
    ensures
        lines_of(Seq::<char>::empty()).len() == 0,
        line.len() > 0 ==> lines_of(line) == seq![line],
        line.len() > 0 && line.last() == '\r' ==> lines_of(line + seq!['\n'] + rest) == seq![
            line.drop_last(),
        ] + lines_of(rest),
        line.len() == 0 || line.last() != '\r' ==> lines_of(line + seq!['\n'] + rest) == seq![line]
            + lines_of(rest),
{
    let s = line + seq!['\n'] + rest;
    splitting_cuts_at_each_separator(line, '\n', rest);
    splitting_cuts_at_each_separator(Seq::<char>::empty(), '\n', rest);
    lemma_split_nonempty(rest, '\n');
    assert(seq![Seq::<char>::empty()].drop_last() =~= Seq::<Seq<char>>::empty());
    assert(lines_of(Seq::<char>::empty()) =~= Seq::<Seq<char>>::empty());
    if line.len() > 0 {
        assert(seq![line].drop_last() =~= Seq::<Seq<char>>::empty());
        assert(lines_of(line) =~= seq![line]);
    }
    let parts = split(rest, '\n');
    let more = seq![line] + parts;
    assert(more.drop_last() =~= seq![line] + parts.drop_last());
    assert(more.last() == parts.last());
    let f = |p: Seq<char>| without_return(p);
    assert(more.drop_last().map_values(f) =~= seq![without_return(line)]
        + parts.drop_last().map_values(f));
    assert(lines_of(s) =~= seq![without_return(line)] + lines_of(rest));
}

// ---------------------------------------------------------------------
// Numbers
// ---------------------------------------------------------------------

/// The number that decimal digits stand for.
pub open spec fn value_of(s: Seq<char>) -> int
    decreases s.len(),
{
    if s.len() == 0 {
        0
    } else {
        10 * value_of(s.drop_last()) + (s.last() as int - 48)
    }
}

/// A number in decimal reads back as that number, and has no digit to spare in
/// front.
pub proof fn a_decimal_reads_back(n: nat)
    ensures
        decimal(n).len() > 0,
        forall|i: int| 0 <= i < decimal(n).len() ==> '0' <= #[trigger] decimal(n)[i] <= '9',
        value_of(decimal(n)) == n,
        decimal(n).len() > 1 ==> decimal(n)[0] != '0',
    decreases n,
{
    lemma_decimal_digits(n);
    let s = decimal(n);
    assert(digit((n % 10) as int) as int == n % 10 + 48);
    if n >= 10 {
        a_decimal_reads_back(n / 10);
        assert(s.drop_last() =~= decimal(n / 10));
        assert(s[0] == decimal(n / 10)[0]);
        if decimal(n / 10).len() == 1 && decimal(n / 10)[0] == '0' {
            let t = decimal(n / 10);
            assert(t.last() == '0');
            assert(t.drop_last() =~= Seq::<char>::empty());
            assert(value_of(t.drop_last()) == 0);
            assert(value_of(t) == 0);
        }
    } else {
        assert(s.drop_last() =~= Seq::<char>::empty());
        assert(value_of(s.drop_last()) == 0);
        assert(digit(n as int) as int == n + 48);
    }
}

/// A number below zero has a sign before its digits, and no other has.
pub proof fn a_signed_decimal_reads_back(n: int)
    ensures
        n >= 0 ==> signed_decimal(n)[0] != '-' && value_of(signed_decimal(n)) == n,
        n < 0 ==> signed_decimal(n)[0] == '-' && value_of(signed_decimal(n).skip(1)) == -n,
{
    if n >= 0 {
        a_decimal_reads_back(n as nat);
    } else {
        a_decimal_reads_back((-n) as nat);
        assert(signed_decimal(n).skip(1) =~= decimal((-n) as nat));
    }
}

// ---------------------------------------------------------------------
// Layout
// ---------------------------------------------------------------------

/// A column that is filled up shows the text, with spaces on the far side and
/// nothing else; a text that is too wide is shown as it is.
pub proof fn a_column_is_filled_with_spaces(s: Seq<char>, width: int)
    ensures
        left_aligned(s, width).len() == if s.len() < width {
            width
        } else {
            s.len() as int
        },
        right_aligned(s, width).len() == left_aligned(s, width).len(),
        forall|i: int| 0 <= i < s.len() ==> #[trigger] left_aligned(s, width)[i] == s[i],
        forall|i: int|
            s.len() <= i < left_aligned(s, width).len() ==> #[trigger] left_aligned(s, width)[i]
                == ' ',
        right_aligned(s, width).skip(right_aligned(s, width).len() - s.len()) == s,
        forall|i: int|
            0 <= i < right_aligned(s, width).len() - s.len() ==> #[trigger] right_aligned(
                s,
                width,
            )[i] == ' ',
{
    assert(right_aligned(s, width).skip(right_aligned(s, width).len() - s.len()) =~= s);
}

/// A text that fits is shown whole; of one that does not, the beginning is
/// shown and an ellipsis in the last place.
pub proof fn a_text_that_is_cut_ends_in_an_ellipsis(s: Seq<char>, width: int)
    requires
        0 <= width,
    ensures
        s.len() <= width ==> truncated(s, width) == s,
        s.len() > 0 && width == 0 ==> truncated(s, width) == seq!['\u{2026}'],
        s.len() > width > 0 ==> {
            &&& truncated(s, width).len() == width
            &&& truncated(s, width).last() == '\u{2026}'
            &&& forall|i: int| 0 <= i < width - 1 ==> #[trigger] truncated(s, width)[i] == s[i]
        },
{
}

// ---------------------------------------------------------------------
// Case and order
// ---------------------------------------------------------------------

/// Texts are the same but for case exactly when they have the same characters,
/// or one ASCII letter in both cases, at each position.
pub proof fn case_is_that_of_ascii_letters(a: Seq<char>, b: Seq<char>)
    ensures
        same_but_for_case(a, b) <==> a.len() == b.len() && forall|i: int|
            0 <= i < a.len() ==> {
                ||| #[trigger] a[i] == b[i]
                ||| 'a' <= a[i] <= 'z' && b[i] as int == a[i] as int - 32
                ||| 'a' <= b[i] <= 'z' && a[i] as int == b[i] as int - 32
            },
{
    if same_but_for_case(a, b) {
        assert forall|i: int| 0 <= i < a.len() implies {
            ||| #[trigger] a[i] == b[i]
            ||| 'a' <= a[i] <= 'z' && b[i] as int == a[i] as int - 32
            ||| 'a' <= b[i] <= 'z' && a[i] as int == b[i] as int - 32
        } by {
            assert(ascii_lower(a[i]) == ascii_lower(b[i]));
            lemma_ascii_lower(a[i]);
            lemma_ascii_lower(b[i]);
        }
    }
    if a.len() == b.len() && forall|i: int|
        0 <= i < a.len() ==> {
            ||| #[trigger] a[i] == b[i]
            ||| 'a' <= a[i] <= 'z' && b[i] as int == a[i] as int - 32
            ||| 'a' <= b[i] <= 'z' && a[i] as int == b[i] as int - 32
        } {
        assert forall|i: int| 0 <= i < a.len() implies ascii_lower(#[trigger] a[i]) == ascii_lower(
            b[i],
        ) by {
            lemma_ascii_lower(a[i]);
            lemma_ascii_lower(b[i]);
        }
    }
}

proof fn lemma_ascii_lower(c: char)
    ensures
        'A' <= c <= 'Z' ==> ascii_lower(c) as int == c as int + 32,
        !('A' <= c <= 'Z') ==> ascii_lower(c) == c,
{
}

/// One text stands before another exactly when, after a common beginning, it
/// ends or goes on with a lesser character.
pub proof fn texts_are_ordered_by_their_first_difference(a: Seq<char>, b: Seq<char>)
    ensures
        text_before(a, b) <==> exists|k: int|
            0 <= k <= a.len() && k < b.len() && #[trigger] a.take(k) == b.take(k) && (k == a.len()
                || a[k] < b[k]),
    decreases a.len(),
{
    if text_before(a, b) {
        if a.len() == 0 || a[0] != b[0] {
            assert(a.take(0) =~= b.take(0));
        } else {
            let x = a.skip(1);
            let y = b.skip(1);
            texts_are_ordered_by_their_first_difference(x, y);
            let k = choose|k: int|
                0 <= k <= x.len() && k < y.len() && #[trigger] x.take(k) == y.take(k) && (k
                    == x.len() || x[k] < y[k]);
            assert(a.take(k + 1) =~= seq![a[0]] + x.take(k));
            assert(b.take(k + 1) =~= seq![b[0]] + y.take(k));
            assert(a.take(k + 1) == b.take(k + 1));
        }
    }
    if exists|k: int|
        0 <= k <= a.len() && k < b.len() && #[trigger] a.take(k) == b.take(k) && (k == a.len()
            || a[k] < b[k]) {
        let k = choose|k: int|
            0 <= k <= a.len() && k < b.len() && #[trigger] a.take(k) == b.take(k) && (k == a.len()
                || a[k] < b[k]);
        if k > 0 {
            let x = a.skip(1);
            let y = b.skip(1);
            assert(a.take(k)[0] == b.take(k)[0]);
            assert(x.take(k - 1) =~= a.take(k).skip(1));
            assert(y.take(k - 1) =~= b.take(k).skip(1));
            assert(x.take(k - 1) == y.take(k - 1));
            texts_are_ordered_by_their_first_difference(x, y);
        }
    }
}

/// The texts of a list are those of its strings, in order.
pub proof fn each_string_has_its_text(list: Seq<String>, i: int)
    requires
        0 <= i < list.len(),
    ensures
        texts(list).len() == list.len(),
        texts(list)[i] == list[i]@,
{
}

} // verus!
