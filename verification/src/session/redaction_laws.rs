//! Copies of one message read alike, whatever redaction did to each of them.

#[allow(unused_imports)]
use crate::order::{stable_order, stable_order_is_stable};
#[allow(unused_imports)]
use crate::session::redaction::{
    alike, cut_all, cut_each, cut_from, is_hex, is_hyphen_position, lemma_cut_leaves_a_piece,
    longest_first, normalised, replaced, term_at, term_pieces, usable_terms, uuid_at, uuid_pieces,
    MARKER,
};
#[allow(unused_imports)]
use crate::text::{byte_len, joined, lowercase_char, trimmed};
#[allow(unused_imports)]
use crate::text_laws::joining_puts_the_separator_between;
use vstd::prelude::*;
#[allow(unused_imports)]
use vstd::utf8::{is_ascii_chars, is_ascii_chars_encode_utf8};

verus! {

// ---------------------------------------------------------------------
// A placeholder and its term
// ---------------------------------------------------------------------

/// Two empty pieces, which is what is left of a text that is cut out whole.
spec fn nothing_left() -> Seq<Seq<char>> {
    seq![Seq::<char>::empty(), Seq::<char>::empty()]
}

/// What is left of a text that is one stretch.
proof fn lemma_cut_whole(text: Seq<char>, width: spec_fn(int) -> nat)
    requires
        text.len() > 0,
        width(0) == text.len(),
    ensures
        cut_from(text, width, 0, 0) == nothing_left(),
{
    let n = text.len() as int;
    assert(text.subrange(0, 0) =~= Seq::<char>::empty());
    assert(text.subrange(n, n) =~= Seq::<char>::empty());
    assert(cut_from(text, width, n, n) =~= seq![Seq::<char>::empty()]);
    assert(cut_from(text, width, 0, 0) =~= nothing_left());
}

/// A text without a stretch is one piece.
proof fn lemma_cut_nothing(text: Seq<char>, width: spec_fn(int) -> nat, at: int)
    requires
        0 <= at <= text.len(),
        forall|i: int| 0 <= i < text.len() ==> #[trigger] width(i) == 0,
    ensures
        cut_from(text, width, 0, at) == seq![text],
    decreases text.len() - at,
{
    if at < text.len() {
        assert(width(at) == 0);
        lemma_cut_nothing(text, width, at + 1);
    } else {
        assert(text.subrange(0, text.len() as int) =~= text);
    }
}

proof fn lemma_nothing_stays(terms: Seq<Seq<char>>)
    requires
        forall|i: int| 0 <= i < terms.len() ==> (#[trigger] terms[i]).len() > 0,
    ensures
        cut_all(nothing_left(), terms) == nothing_left(),
    decreases terms.len(),
{
    if terms.len() > 0 {
        let rest = terms.drop_last();
        assert(forall|i: int| 0 <= i < rest.len() ==> rest[i] == terms[i]);
        lemma_nothing_stays(rest);
        lemma_cut_empties(terms.last());
    }
}

proof fn lemma_cut_empties(term: Seq<char>)
    ensures
        cut_each(nothing_left(), term) == nothing_left(),
{
    let none = Seq::<char>::empty();
    let two = nothing_left();
    assert(none.subrange(0, 0) =~= none);
    assert(term_pieces(none, term) =~= seq![none]);
    assert(two.drop_last() =~= seq![none]);
    assert(seq![none].drop_last() =~= Seq::<Seq<char>>::empty());
    assert(cut_each(Seq::<Seq<char>>::empty(), term) =~= Seq::<Seq<char>>::empty());
    assert(cut_each(seq![none], term) =~= seq![none]);
    assert(cut_each(two, term) =~= two);
}

proof fn lemma_marker_alone()
    ensures
        joined(nothing_left(), MARKER@) == MARKER@,
{
    let none = Seq::<char>::empty();
    assert(nothing_left().drop_last() =~= seq![none]);
    assert(joined(seq![none], MARKER@) == none);
    assert(none + MARKER@ + none =~= MARKER@);
}

proof fn lemma_usable_nonempty(redactions: Seq<Seq<char>>)
    ensures
        forall|i: int|
            0 <= i < usable_terms(redactions).len() ==> (#[trigger] usable_terms(
                redactions,
            )[i]).len() > 0,
    decreases redactions.len(),
{
    if redactions.len() > 0 {
        let rest = usable_terms(redactions.drop_last());
        let all = usable_terms(redactions);
        lemma_usable_nonempty(redactions.drop_last());
        assert forall|i: int| 0 <= i < all.len() implies (#[trigger] all[i]).len() > 0 by {
            if i < rest.len() {
                assert(all[i] == rest[i]);
            }
        }
    }
}

/// The terms stand by falling length in bytes.
spec fn by_bytes(terms: Seq<Seq<char>>) -> bool {
    forall|i: int, j: int|
        #![trigger terms[i], terms[j]]
        0 <= i < j < terms.len() ==> byte_len(terms[i]) >= byte_len(terms[j])
}

proof fn lemma_longest_first(terms: Seq<Seq<char>>)
    ensures
        longest_first(terms).len() == terms.len(),
        forall|i: int|
            0 <= i < terms.len() ==> terms.contains(#[trigger] longest_first(terms)[i]),
        forall|i: int| 0 <= i < terms.len() ==> longest_first(terms).contains(#[trigger] terms[i]),
        by_bytes(longest_first(terms)),
{
    let before = |a: int, b: int| byte_len(terms[a]) > byte_len(terms[b]);
    let order = stable_order(terms.len(), before);
    stable_order_is_stable(terms.len(), before);
    let sorted = longest_first(terms);
    assert forall|i: int| 0 <= i < terms.len() implies sorted.contains(#[trigger] terms[i]) by {
        assert(order.contains(i));
        let k = choose|k: int| 0 <= k < order.len() && order[k] == i;
        assert(sorted[k] == terms[i]);
    }
    assert forall|i: int, j: int|
        #![trigger sorted[i], sorted[j]]
        0 <= i < j < sorted.len() implies byte_len(sorted[i]) >= byte_len(sorted[j]) by {
        assert(!before(order[j], order[i]));
    }
}

/// A placeholder reads as the marker, whatever the terms are.
pub proof fn a_uuid_reads_as_the_marker(uuid: Seq<char>, redactions: Seq<Seq<char>>)
    requires
        uuid.len() == 36,
        uuid_at(uuid, 0),
    ensures
        normalised(uuid, redactions) == MARKER@,
{
    let terms = longest_first(usable_terms(redactions));
    let usable = usable_terms(redactions);
    lemma_usable_nonempty(redactions);
    lemma_longest_first(usable);
    assert forall|i: int| 0 <= i < terms.len() implies (#[trigger] terms[i]).len() > 0 by {
        assert(usable.contains(terms[i]));
    }
    lemma_cut_whole(
        uuid,
        |at: int|
            if uuid_at(uuid, at) {
                36nat
            } else {
                0
            },
    );
    lemma_nothing_stays(terms);
    lemma_marker_alone();
}

/// What a term leaves of a text in which it stands only as the whole.
proof fn lemma_cut_by_longer(text: Seq<char>, term: Seq<char>)
    requires
        0 < text.len(),
        0 < term.len(),
        forall|at: int| #[trigger] term_at(text, term, at) ==> term.len() == text.len(),
    ensures
        term_pieces(text, term) == seq![text] || term_pieces(text, term) == nothing_left(),
        term == text ==> term_pieces(text, term) == nothing_left(),
{
    let width = |at: int|
        if term_at(text, term, at) {
            term.len()
        } else {
            0
        };
    if term_at(text, term, 0) {
        lemma_cut_whole(text, width);
    } else {
        assert forall|i: int| 0 <= i < text.len() implies #[trigger] width(i) == 0 by {}
        lemma_cut_nothing(text, width, 0);
    }
}

proof fn lemma_term_cut(term: Seq<char>, terms: Seq<Seq<char>>, n: int, own: int)
    requires
        term.len() > 0,
        0 <= n <= terms.len(),
        0 <= own < terms.len(),
        terms[own] == term,
        forall|i: int| 0 <= i < terms.len() ==> (#[trigger] terms[i]).len() > 0,
        by_bytes(terms),
        stands_whole(term, terms),
    ensures
        n <= own ==> cut_all(seq![term], terms.take(n)) == seq![term] || cut_all(
            seq![term],
            terms.take(n),
        ) == nothing_left(),
        n > own ==> cut_all(seq![term], terms.take(n)) == nothing_left(),
    decreases n,
{
    if n > 0 {
        let last = terms[n - 1];
        lemma_term_cut(term, terms, n - 1, own);
        assert(terms.take(n).drop_last() =~= terms.take(n - 1));
        let before = cut_all(seq![term], terms.take(n - 1));
        lemma_cut_empties(last);
        if n - 1 <= own {
            if n - 1 < own {
                assert(byte_len(terms[n - 1]) >= byte_len(terms[own]));
            }
            lemma_cut_by_longer(term, last);
            assert(seq![term].drop_last() =~= Seq::<Seq<char>>::empty());
            assert(cut_each(Seq::<Seq<char>>::empty(), last) =~= Seq::<Seq<char>>::empty());
            assert(cut_each(seq![term], last) =~= term_pieces(term, last));
        }
    }
}

/// No UUID stands in the text, unless it is one.
pub open spec fn no_part_of_it_is_a_uuid(s: Seq<char>) -> bool {
    s.len() == 36 || forall|at: int| !#[trigger] uuid_at(s, at)
}

/// Of the terms that are as long as this one in bytes, or longer, none is a
/// mere part of it.
pub open spec fn stands_whole(term: Seq<char>, terms: Seq<Seq<char>>) -> bool {
    forall|i: int, at: int|
        0 <= i < terms.len() && byte_len(terms[i]) >= byte_len(term) && #[trigger] term_at(
            term,
            terms[i],
            at,
        ) ==> terms[i].len() == term.len()
}

/// Among ASCII terms a term that is as long as another is no mere part of it.
pub proof fn ascii_terms_stand_whole(term: Seq<char>, terms: Seq<Seq<char>>)
    requires
        is_ascii_chars(term),
        forall|i: int| 0 <= i < terms.len() ==> is_ascii_chars(#[trigger] terms[i]),
    ensures
        stands_whole(term, terms),
{
    is_ascii_chars_encode_utf8(term);
    assert forall|i: int, at: int|
        0 <= i < terms.len() && byte_len(terms[i]) >= byte_len(term) && #[trigger] term_at(
            term,
            terms[i],
            at,
        ) implies terms[i].len() == term.len() by {
        is_ascii_chars_encode_utf8(terms[i]);
    }
}

/// A configured term reads as the marker too, so that a copy in which it was
/// replaced by a placeholder and a copy in which it was not read alike. There
/// are two exceptions. Of a term with a UUID in it and more around that, what
/// is left around the UUID is no longer that term. And a term of fewer
/// characters but more bytes that is a part of it goes first.
pub proof fn a_term_reads_as_the_marker(term: Seq<char>, redactions: Seq<Seq<char>>)
    requires
        usable_terms(redactions).contains(term),
        no_part_of_it_is_a_uuid(term),
        stands_whole(term, usable_terms(redactions)),
    ensures
        normalised(term, redactions) == MARKER@,
{
    let usable = usable_terms(redactions);
    let terms = longest_first(usable);
    lemma_usable_nonempty(redactions);
    lemma_longest_first(usable);
    assert forall|i: int| 0 <= i < terms.len() implies (#[trigger] terms[i]).len() > 0 by {
        assert(usable.contains(terms[i]));
    }
    let k = choose|k: int| 0 <= k < usable.len() && usable[k] == term;
    assert(terms.contains(usable[k]));
    let own = choose|own: int| 0 <= own < terms.len() && terms[own] == term;
    let width = |at: int|
        if uuid_at(term, at) {
            36nat
        } else {
            0
        };
    if uuid_at(term, 0) {
        a_uuid_reads_as_the_marker(term, redactions);
    } else {
        assert forall|i: int| 0 <= i < term.len() implies #[trigger] width(i) == 0 by {}
        lemma_cut_nothing(term, width, 0);
    }
    assert(stands_whole(term, terms)) by {
        assert forall|i: int, at: int|
            0 <= i < terms.len() && byte_len(terms[i]) >= byte_len(term) && #[trigger] term_at(
                term,
                terms[i],
                at,
            ) implies terms[i].len() == term.len() by {
            assert(usable.contains(terms[i]));
            let j = choose|j: int| 0 <= j < usable.len() && usable[j] == terms[i];
            assert(term_at(term, usable[j], at));
        }
    }
    lemma_term_cut(term, terms, terms.len() as int, own);
    assert(terms.take(terms.len() as int) =~= terms);
    lemma_marker_alone();
}

/// A placeholder and the term that it stands for read alike.
pub proof fn a_placeholder_and_its_term_read_alike(
    uuid: Seq<char>,
    term: Seq<char>,
    redactions: Seq<Seq<char>>,
)
    requires
        uuid.len() == 36,
        uuid_at(uuid, 0),
        usable_terms(redactions).contains(term),
        no_part_of_it_is_a_uuid(term),
        stands_whole(term, usable_terms(redactions)),
    ensures
        normalised(uuid, redactions) == MARKER@,
        normalised(term, redactions) == MARKER@,
{
    a_uuid_reads_as_the_marker(uuid, redactions);
    a_term_reads_as_the_marker(term, redactions);
}

// ---------------------------------------------------------------------
// Copies of one message
// ---------------------------------------------------------------------

/// Two lists of pieces with `x` between them, so that the last piece of the
/// one and the first piece of the other are one piece.
spec fn glued(a: Seq<Seq<char>>, x: Seq<char>, b: Seq<Seq<char>>) -> Seq<Seq<char>> {
    a.drop_last() + seq![a.last() + x + b[0]] + b.skip(1)
}

/// The stretches of `text` are, from `base` on, those of `end`.
spec fn ends_like(
    text: Seq<char>,
    width: spec_fn(int) -> nat,
    base: int,
    end: Seq<char>,
    end_width: spec_fn(int) -> nat,
) -> bool {
    &&& 0 <= base
    &&& text.len() == base + end.len()
    &&& text.skip(base) == end
    &&& forall|i: int|
        0 <= i < end.len() ==> width(base + i) == #[trigger] end_width(i) && i + end_width(i)
            <= end.len()
}

/// The stretches of `text` that begin in `start` are those of `start`.
spec fn starts_like(
    text: Seq<char>,
    width: spec_fn(int) -> nat,
    start: Seq<char>,
    start_width: spec_fn(int) -> nat,
) -> bool {
    &&& start.len() < text.len()
    &&& text.take(start.len() as int) == start
    &&& forall|i: int|
        0 <= i < start.len() ==> width(i) == #[trigger] start_width(i) && i + start_width(i)
            <= start.len()
}

proof fn lemma_cut_end(
    text: Seq<char>,
    width: spec_fn(int) -> nat,
    base: int,
    end: Seq<char>,
    end_width: spec_fn(int) -> nat,
    from: int,
    at: int,
)
    requires
        ends_like(text, width, base, end, end_width),
        0 <= from <= at <= end.len(),
    ensures
        cut_from(text, width, base + from, base + at) == cut_from(end, end_width, from, at),
    decreases end.len() - at,
{
    assert(text.subrange(base + from, base + at) =~= end.subrange(from, at)) by {
        assert(forall|i: int| 0 <= i < end.len() ==> end[i] == text[base + i]);
    }
    if at < end.len() {
        let step = end_width(at) as int;
        assert(width(base + at) == end_width(at));
        if step > 0 {
            lemma_cut_end(text, width, base, end, end_width, at + step, at + step);
        } else {
            lemma_cut_end(text, width, base, end, end_width, from, at + 1);
        }
    }
}

proof fn lemma_cut_apart(
    text: Seq<char>,
    width: spec_fn(int) -> nat,
    start: Seq<char>,
    start_width: spec_fn(int) -> nat,
    base: int,
    from: int,
    at: int,
)
    requires
        starts_like(text, width, start, start_width),
        start.len() < base,
        width(start.len() as int) == base - start.len(),
        0 <= from <= at <= start.len(),
    ensures
        cut_from(text, width, from, at) == cut_from(start, start_width, from, at) + cut_from(
            text,
            width,
            base,
            base,
        ),
    decreases start.len() - at,
{
    let rest = cut_from(text, width, base, base);
    assert(text.subrange(from, at) =~= start.subrange(from, at)) by {
        assert(forall|i: int| 0 <= i < start.len() ==> start[i] == text[i]);
    }
    if at < start.len() {
        let step = start_width(at) as int;
        assert(width(at) == start_width(at));
        if step > 0 {
            lemma_cut_apart(text, width, start, start_width, base, at + step, at + step);
            let more = cut_from(start, start_width, at + step, at + step);
            assert(seq![text.subrange(from, at)] + (more + rest) =~= (seq![text.subrange(from, at)]
                + more) + rest);
        } else {
            lemma_cut_apart(text, width, start, start_width, base, from, at + 1);
        }
    }
}

/// A stretch with a text on either side leaves the pieces of both.
proof fn lemma_cut_between(
    text: Seq<char>,
    width: spec_fn(int) -> nat,
    start: Seq<char>,
    start_width: spec_fn(int) -> nat,
    base: int,
    end: Seq<char>,
    end_width: spec_fn(int) -> nat,
)
    requires
        starts_like(text, width, start, start_width),
        start.len() < base,
        width(start.len() as int) == base - start.len(),
        ends_like(text, width, base, end, end_width),
    ensures
        cut_from(text, width, 0, 0) == cut_from(start, start_width, 0, 0) + cut_from(
            end,
            end_width,
            0,
            0,
        ),
{
    lemma_cut_apart(text, width, start, start_width, base, 0, 0);
    lemma_cut_end(text, width, base, end, end_width, 0, 0);
}

proof fn lemma_uncut(
    text: Seq<char>,
    width: spec_fn(int) -> nat,
    from: int,
    at: int,
    base: int,
)
    requires
        at <= base <= text.len(),
        forall|i: int| at <= i < base ==> #[trigger] width(i) == 0,
    ensures
        cut_from(text, width, from, at) == cut_from(text, width, from, base),
    decreases base - at,
{
    if at < base {
        assert(width(at) == 0);
        lemma_uncut(text, width, from, at + 1, base);
    }
}

proof fn lemma_cut_longer_piece(
    text: Seq<char>,
    width: spec_fn(int) -> nat,
    base: int,
    end: Seq<char>,
    end_width: spec_fn(int) -> nat,
    from: int,
    at: int,
)
    requires
        ends_like(text, width, base, end, end_width),
        0 <= from <= base,
        0 <= at <= end.len(),
    ensures
        ({
            let pieces = cut_from(end, end_width, 0, at);
            &&& pieces.len() > 0
            &&& cut_from(text, width, from, base + at) == seq![
                text.subrange(from, base) + pieces[0],
            ] + pieces.skip(1)
        }),
    decreases end.len() - at,
{
    let pieces = cut_from(end, end_width, 0, at);
    assert(text.subrange(from, base + at) =~= text.subrange(from, base) + end.subrange(0, at)) by {
        assert(forall|i: int| 0 <= i < end.len() ==> end[i] == text[base + i]);
    }
    if at < end.len() {
        let step = end_width(at) as int;
        assert(width(base + at) == end_width(at));
        if step > 0 {
            lemma_cut_end(text, width, base, end, end_width, at + step, at + step);
            assert(pieces.skip(1) =~= cut_from(end, end_width, at + step, at + step));
        } else {
            lemma_cut_longer_piece(text, width, base, end, end_width, from, at + 1);
        }
    } else {
        assert(pieces.skip(1) =~= Seq::<Seq<char>>::empty());
    }
}

proof fn lemma_cut_glued(
    text: Seq<char>,
    width: spec_fn(int) -> nat,
    start: Seq<char>,
    start_width: spec_fn(int) -> nat,
    x: Seq<char>,
    end: Seq<char>,
    end_width: spec_fn(int) -> nat,
    from: int,
    at: int,
)
    requires
        text == start + x + end,
        starts_like(text, width, start, start_width),
        forall|i: int| start.len() <= i < start.len() + x.len() ==> #[trigger] width(i) == 0,
        ends_like(text, width, (start.len() + x.len()) as int, end, end_width),
        0 <= from <= at <= start.len(),
    ensures
        cut_from(text, width, from, at) == glued(
            cut_from(start, start_width, from, at),
            x,
            cut_from(end, end_width, 0, 0),
        ),
    decreases start.len() - at,
{
    let base = (start.len() + x.len()) as int;
    let pieces = cut_from(start, start_width, from, at);
    let rest = cut_from(end, end_width, 0, 0);
    assert(text.subrange(from, at) =~= start.subrange(from, at));
    if at < start.len() {
        let step = start_width(at) as int;
        assert(width(at) == start_width(at));
        if step > 0 {
            lemma_cut_glued(text, width, start, start_width, x, end, end_width, at + step, at + step);
            let more = cut_from(start, start_width, at + step, at + step);
            lemma_cut_leaves_a_piece(start, start_width, at + step, at + step);
            assert(pieces =~= seq![start.subrange(from, at)] + more);
            assert(pieces.drop_last() =~= seq![start.subrange(from, at)] + more.drop_last());
            assert(pieces.last() == more.last());
            assert(glued(pieces, x, rest) =~= seq![start.subrange(from, at)] + glued(more, x, rest));
        } else {
            lemma_cut_glued(text, width, start, start_width, x, end, end_width, from, at + 1);
        }
    } else {
        lemma_uncut(text, width, from, at, base);
        lemma_cut_longer_piece(text, width, base, end, end_width, from, 0);
        let piece = start.subrange(from, start.len() as int);
        assert(pieces =~= seq![piece]);
        assert(text.subrange(from, base) =~= piece + x);
        assert(pieces.drop_last() =~= Seq::<Seq<char>>::empty());
        assert(glued(pieces, x, rest) =~= seq![piece + x + rest[0]] + rest.skip(1));
    }
}

proof fn lemma_outer_pieces(text: Seq<char>, width: spec_fn(int) -> nat, from: int, at: int)
    requires
        0 <= from <= at <= text.len(),
        forall|i: int| 0 <= i < text.len() ==> i + #[trigger] width(i) <= text.len(),
    ensures
        ({
            let pieces = cut_from(text, width, from, at);
            &&& pieces.len() > 0
            &&& exists|k: int| 0 <= k <= text.len() && pieces.last() == #[trigger] text.skip(k)
            &&& exists|k: int|
                from <= k <= text.len() && pieces[0] == #[trigger] text.subrange(from, k)
        }),
    decreases text.len() - at,
{
    let pieces = cut_from(text, width, from, at);
    if at < text.len() {
        let step = width(at) as int;
        assert(at + width(at) <= text.len());
        if step > 0 {
            lemma_outer_pieces(text, width, at + step, at + step);
            let more = cut_from(text, width, at + step, at + step);
            assert(pieces =~= seq![text.subrange(from, at)] + more);
            assert(pieces.last() == more.last());
            assert(pieces[0] == text.subrange(from, at));
        } else {
            lemma_outer_pieces(text, width, from, at + 1);
        }
    } else {
        assert(text.subrange(from, text.len() as int) =~= text.skip(from));
        assert(pieces.last() == text.skip(from));
        assert(pieces[0] == text.subrange(from, text.len() as int));
    }
}

proof fn lemma_cut_each_append(a: Seq<Seq<char>>, b: Seq<Seq<char>>, term: Seq<char>)
    ensures
        cut_each(a + b, term) == cut_each(a, term) + cut_each(b, term),
    decreases b.len(),
{
    if b.len() == 0 {
        assert(a + b =~= a);
        assert(cut_each(a, term) + cut_each(b, term) =~= cut_each(a, term));
    } else {
        lemma_cut_each_append(a, b.drop_last(), term);
        assert((a + b).drop_last() =~= a + b.drop_last());
        assert(cut_each(a + b, term) =~= cut_each(a, term) + cut_each(b, term));
    }
}

proof fn lemma_cut_one(piece: Seq<char>, term: Seq<char>)
    ensures
        cut_each(seq![piece], term) == term_pieces(piece, term),
{
    assert(seq![piece].drop_last() =~= Seq::<Seq<char>>::empty());
    assert(cut_each(Seq::<Seq<char>>::empty(), term) =~= Seq::<Seq<char>>::empty());
    assert(cut_each(seq![piece], term) =~= term_pieces(piece, term));
}

/// The occurrence of `term` between `start` and `end` is not touched by a
/// UUID, nor by another occurrence of a term that is as long in bytes or
/// longer.
pub open spec fn stands_apart(
    start: Seq<char>,
    term: Seq<char>,
    end: Seq<char>,
    terms: Seq<Seq<char>>,
) -> bool {
    let text = start + term + end;
    &&& forall|at: int| #[trigger]
        uuid_at(text, at) ==> at + 36 <= start.len() || start.len() + term.len() <= at
    &&& forall|i: int, at: int|
        0 <= i < terms.len() && byte_len(terms[i]) >= byte_len(term) && #[trigger] term_at(
            text,
            terms[i],
            at,
        ) ==> {
            ||| at + terms[i].len() <= start.len()
            ||| start.len() + term.len() <= at
            ||| at == start.len() && terms[i].len() == term.len()
        }
}

/// One occurrence of `other` is all that can touch the middle of the text.
spec fn only_whole(start: Seq<char>, x: Seq<char>, end: Seq<char>, other: Seq<char>) -> bool {
    forall|at: int| #[trigger]
        term_at(start + x + end, other, at) ==> {
            ||| at + other.len() <= start.len()
            ||| start.len() + x.len() <= at
            ||| at == start.len() && other.len() == x.len()
        }
}

spec fn term_width(text: Seq<char>, term: Seq<char>) -> spec_fn(int) -> nat {
    |at: int|
        if term_at(text, term, at) {
            term.len()
        } else {
            0
        }
}

proof fn lemma_term_around(start: Seq<char>, x: Seq<char>, end: Seq<char>, other: Seq<char>)
    requires
        x.len() > 0,
        other.len() > 0,
        only_whole(start, x, end, other),
    ensures
        term_pieces(start, other).len() > 0,
        term_pieces(end, other).len() > 0,
        ({
            let text = start + x + end;
            term_pieces(text, other) == if term_at(text, other, start.len() as int) {
                term_pieces(start, other) + term_pieces(end, other)
            } else {
                glued(term_pieces(start, other), x, term_pieces(end, other))
            }
        }),
{
    let text = start + x + end;
    let base = (start.len() + x.len()) as int;
    let w = term_width(text, other);
    let ws = term_width(start, other);
    let we = term_width(end, other);
    lemma_cut_leaves_a_piece(start, ws, 0, 0);
    lemma_cut_leaves_a_piece(end, we, 0, 0);
    assert(starts_like(text, w, start, ws)) by {
        assert(text.take(start.len() as int) =~= start);
        assert forall|i: int| 0 <= i < start.len() implies w(i) == #[trigger] ws(i) && i + ws(i)
            <= start.len() by {
            if term_at(text, other, i) {
                assert forall|k: int| 0 <= k < other.len() implies alike(
                    #[trigger] other[k],
                    start[i + k],
                ) by {
                    assert(alike(other[k], text[i + k]));
                    assert(text[i + k] == start[i + k]);
                }
                assert(term_at(start, other, i));
            }
            if term_at(start, other, i) {
                assert forall|k: int| 0 <= k < other.len() implies alike(
                    #[trigger] other[k],
                    text[i + k],
                ) by {
                    assert(alike(other[k], start[i + k]));
                    assert(text[i + k] == start[i + k]);
                }
                assert(term_at(text, other, i));
            }
        }
    }
    assert(ends_like(text, w, base, end, we)) by {
        assert(text.skip(base) =~= end);
        assert forall|i: int| 0 <= i < end.len() implies w(base + i) == #[trigger] we(i) && i
            + we(i) <= end.len() by {
            if term_at(text, other, base + i) {
                assert forall|k: int| 0 <= k < other.len() implies alike(
                    #[trigger] other[k],
                    end[i + k],
                ) by {
                    assert(alike(other[k], text[base + i + k]));
                    assert(text[base + i + k] == end[i + k]);
                }
                assert(term_at(end, other, i));
            }
            if term_at(end, other, i) {
                assert forall|k: int| 0 <= k < other.len() implies alike(
                    #[trigger] other[k],
                    text[base + i + k],
                ) by {
                    assert(alike(other[k], end[i + k]));
                    assert(text[base + i + k] == end[i + k]);
                }
                assert(term_at(text, other, base + i));
            }
        }
    }
    if term_at(text, other, start.len() as int) {
        lemma_cut_between(text, w, start, ws, base, end, we);
    } else {
        assert forall|i: int| start.len() <= i < base implies #[trigger] w(i) == 0 by {}
        lemma_cut_glued(text, w, start, ws, x, end, we, 0, 0);
    }
}

spec fn uuid_stretch(text: Seq<char>) -> spec_fn(int) -> nat {
    |at: int|
        if uuid_at(text, at) {
            36nat
        } else {
            0
        }
}

proof fn lemma_uuid_within(text: Seq<char>, part: Seq<char>, base: int, i: int)
    requires
        0 <= base,
        base + part.len() <= text.len(),
        text.subrange(base, base + part.len()) == part,
        0 <= i,
        i + 36 <= part.len(),
    ensures
        uuid_at(text, base + i) == uuid_at(part, i),
{
    assert forall|k: int| 0 <= k < 36 implies text[base + i + k] == #[trigger] part[i + k] by {
        assert(text.subrange(base, base + part.len())[i + k] == text[base + i + k]);
    }
    if uuid_at(text, base + i) {
        assert forall|k: int| 0 <= k < 36 implies if is_hyphen_position(k) {
            #[trigger] part[i + k] == '-'
        } else {
            is_hex(part[i + k])
        } by {
            assert(text[base + i + k] == part[i + k]);
        }
    }
    if uuid_at(part, i) {
        assert forall|k: int| 0 <= k < 36 implies if is_hyphen_position(k) {
            #[trigger] text[(base + i) + k] == '-'
        } else {
            is_hex(text[(base + i) + k])
        } by {
            assert(text[base + i + k] == part[i + k]);
        }
    }
}

/// No UUID begins before `x` and reaches into it.
pub open spec fn begins_cleanly(start: Seq<char>, x: Seq<char>, end: Seq<char>) -> bool {
    forall|at: int| #[trigger]
        uuid_at(start + x + end, at) && at < start.len() ==> at + 36 <= start.len()
}

proof fn lemma_uuids_around(start: Seq<char>, x: Seq<char>, end: Seq<char>)
    requires
        x.len() > 0,
        begins_cleanly(start, x, end),
    ensures
        starts_like(start + x + end, uuid_stretch(start + x + end), start, uuid_stretch(start)),
        ends_like(
            start + x + end,
            uuid_stretch(start + x + end),
            (start.len() + x.len()) as int,
            end,
            uuid_stretch(end),
        ),
{
    let text = start + x + end;
    let base = (start.len() + x.len()) as int;
    let w = uuid_stretch(text);
    let ws = uuid_stretch(start);
    let we = uuid_stretch(end);
    assert(text.take(start.len() as int) =~= start);
    assert(text.skip(base) =~= end);
    assert(text.subrange(0, start.len() as int) =~= start);
    assert(text.subrange(base, base + end.len()) =~= end);
    assert forall|i: int| 0 <= i < start.len() implies w(i) == #[trigger] ws(i) && i + ws(i)
        <= start.len() by {
        if i + 36 <= start.len() {
            lemma_uuid_within(text, start, 0, i);
        }
    }
    assert forall|i: int| 0 <= i < end.len() implies w(base + i) == #[trigger] we(i) && i + we(i)
        <= end.len() by {
        if i + 36 <= end.len() {
            lemma_uuid_within(text, end, base, i);
        }
    }
}

proof fn lemma_uuid_between(start: Seq<char>, uuid: Seq<char>, end: Seq<char>)
    requires
        uuid.len() == 36,
        uuid_at(uuid, 0),
        begins_cleanly(start, uuid, end),
    ensures
        uuid_pieces(start + uuid + end) == uuid_pieces(start) + uuid_pieces(end),
{
    let text = start + uuid + end;
    let base = (start.len() + uuid.len()) as int;
    lemma_uuids_around(start, uuid, end);
    assert(text.subrange(start.len() as int, base) =~= uuid);
    lemma_uuid_within(text, uuid, start.len() as int, 0);
    lemma_cut_between(
        text,
        uuid_stretch(text),
        start,
        uuid_stretch(start),
        base,
        end,
        uuid_stretch(end),
    );
}

proof fn lemma_no_uuid_between(start: Seq<char>, x: Seq<char>, end: Seq<char>)
    requires
        x.len() > 0,
        forall|at: int| #[trigger]
            uuid_at(start + x + end, at) ==> at + 36 <= start.len() || start.len() + x.len() <= at,
    ensures
        uuid_pieces(start + x + end) == glued(uuid_pieces(start), x, uuid_pieces(end)),
{
    let text = start + x + end;
    let w = uuid_stretch(text);
    lemma_uuids_around(start, x, end);
    assert forall|i: int| start.len() <= i < start.len() + x.len() implies #[trigger] w(i) == 0 by {}
    lemma_cut_glued(text, w, start, uuid_stretch(start), x, end, uuid_stretch(end), 0, 0);
}

/// The list ends in a piece that ends the text.
spec fn ends_in_end_of(list: Seq<Seq<char>>, text: Seq<char>) -> bool {
    list.len() > 0 && exists|k: int| 0 <= k <= text.len() && list.last() == #[trigger] text.skip(k)
}

/// The list begins with a piece that begins the text.
spec fn begins_as(list: Seq<Seq<char>>, text: Seq<char>) -> bool {
    list.len() > 0 && exists|k: int| 0 <= k <= text.len() && list[0] == #[trigger] text.take(k)
}

proof fn lemma_cut_keeps_outer(
    list: Seq<Seq<char>>,
    text: Seq<char>,
    term: Seq<char>,
)
    ensures
        ends_in_end_of(list, text) ==> ends_in_end_of(cut_each(list, term), text),
        begins_as(list, text) ==> begins_as(cut_each(list, term), text),
        list.len() > 0 ==> cut_each(list, term) == cut_each(list.drop_last(), term) + term_pieces(
            list.last(),
            term,
        ),
        list.len() > 0 ==> cut_each(list, term) == term_pieces(list[0], term) + cut_each(
            list.skip(1),
            term,
        ),
{
    if list.len() > 0 {
        let last = list.last();
        let first = list[0];
        lemma_outer_pieces(last, term_width(last, term), 0, 0);
        lemma_outer_pieces(first, term_width(first, term), 0, 0);
        lemma_cut_one(first, term);
        lemma_cut_each_append(seq![first], list.skip(1), term);
        assert(seq![first] + list.skip(1) =~= list);
        let more = cut_each(list, term);
        if ends_in_end_of(list, text) {
            let k = choose|k: int| 0 <= k <= text.len() && last == #[trigger] text.skip(k);
            let pieces = term_pieces(last, term);
            let j = choose|j: int| 0 <= j <= last.len() && pieces.last() == #[trigger] last.skip(j);
            assert(last.skip(j) =~= text.skip(k + j));
            assert(more.last() == pieces.last());
            assert(more.last() == text.skip(k + j));
        }
        if begins_as(list, text) {
            let k = choose|k: int| 0 <= k <= text.len() && first == #[trigger] text.take(k);
            let pieces = term_pieces(first, term);
            let j = choose|j: int|
                0 <= j <= first.len() && pieces[0] == #[trigger] first.subrange(0, j);
            assert(first.subrange(0, j) =~= text.take(j));
            assert(more[0] == pieces[0]);
            assert(more[0] == text.take(j));
        }
    }
}

proof fn lemma_cut_glued_list(
    a: Seq<Seq<char>>,
    x: Seq<char>,
    b: Seq<Seq<char>>,
    term: Seq<char>,
)
    requires
        a.len() > 0,
        b.len() > 0,
        x.len() > 0,
        term.len() > 0,
        only_whole(a.last(), x, b[0], term),
    ensures
        ({
            let whole = term_at(a.last() + x + b[0], term, a.last().len() as int);
            cut_each(glued(a, x, b), term) == if whole {
                cut_each(a, term) + cut_each(b, term)
            } else {
                glued(cut_each(a, term), x, cut_each(b, term))
            }
        }),
{
    let piece = a.last() + x + b[0];
    let front = a.drop_last();
    let back = b.skip(1);
    lemma_term_around(a.last(), x, b[0], term);
    lemma_cut_keeps_outer(a, Seq::empty(), term);
    lemma_cut_keeps_outer(b, Seq::empty(), term);
    lemma_cut_one(piece, term);
    lemma_cut_each_append(front, seq![piece], term);
    lemma_cut_each_append(front + seq![piece], back, term);
    let p = term_pieces(a.last(), term);
    let q = term_pieces(b[0], term);
    let f = cut_each(front, term);
    let g = cut_each(back, term);
    if term_at(piece, term, a.last().len() as int) {
        assert(f + (p + q) + g =~= (f + p) + (q + g));
    } else {
        assert((f + p).drop_last() =~= f + p.drop_last());
        assert((f + p).last() == p.last());
        assert((q + g)[0] == q[0]);
        assert((q + g).skip(1) =~= q.skip(1) + g);
        assert(f + glued(p, x, q) + g =~= glued(f + p, x, q + g));
    }
}

proof fn lemma_copy_cut(
    start: Seq<char>,
    term: Seq<char>,
    end: Seq<char>,
    terms: Seq<Seq<char>>,
    own: int,
    n: int,
)
    requires
        0 <= own < terms.len(),
        terms[own] == term,
        0 <= n <= terms.len(),
        forall|i: int| 0 <= i < terms.len() ==> (#[trigger] terms[i]).len() > 0,
        by_bytes(terms),
        stands_apart(start, term, end, terms),
    ensures
        ({
            let a = cut_all(uuid_pieces(start), terms.take(n));
            let b = cut_all(uuid_pieces(end), terms.take(n));
            let list = cut_all(uuid_pieces(start + term + end), terms.take(n));
            &&& ends_in_end_of(a, start)
            &&& begins_as(b, end)
            &&& list == a + b || (n <= own && list == glued(a, term, b))
        }),
    decreases n,
{
    let text = start + term + end;
    assert(term.len() > 0);
    if n == 0 {
        assert(terms.take(0) =~= Seq::<Seq<char>>::empty());
        lemma_no_uuid_between(start, term, end);
        lemma_outer_pieces(start, uuid_stretch(start), 0, 0);
        lemma_outer_pieces(end, uuid_stretch(end), 0, 0);
        let b = uuid_pieces(end);
        let k = choose|k: int| 0 <= k <= end.len() && b[0] == #[trigger] end.subrange(0, k);
        assert(end.subrange(0, k) =~= end.take(k));
    } else {
        lemma_copy_cut(start, term, end, terms, own, n - 1);
        assert(terms.take(n).drop_last() =~= terms.take(n - 1));
        let other = terms[n - 1];
        let a = cut_all(uuid_pieces(start), terms.take(n - 1));
        let b = cut_all(uuid_pieces(end), terms.take(n - 1));
        let list = cut_all(uuid_pieces(text), terms.take(n - 1));
        lemma_cut_keeps_outer(a, start, other);
        lemma_cut_keeps_outer(b, end, other);
        if list == a + b {
            lemma_cut_each_append(a, b, other);
        } else {
            if n - 1 < own {
                assert(byte_len(terms[n - 1]) >= byte_len(terms[own]));
            }
            lemma_part_apart(start, term, end, terms, n - 1, a, b);
            lemma_cut_glued_list(a, term, b, other);
            if n - 1 == own {
                let piece = a.last() + term + b[0];
                assert forall|k: int| 0 <= k < other.len() implies alike(
                    #[trigger] other[k],
                    piece[a.last().len() + k],
                ) by {
                    assert(piece[a.last().len() + k] == term[k]);
                }
                assert(term_at(piece, other, a.last().len() as int));
            }
        }
    }
}

proof fn lemma_part_apart(
    start: Seq<char>,
    term: Seq<char>,
    end: Seq<char>,
    terms: Seq<Seq<char>>,
    i: int,
    a: Seq<Seq<char>>,
    b: Seq<Seq<char>>,
)
    requires
        0 <= i < terms.len(),
        byte_len(terms[i]) >= byte_len(term),
        stands_apart(start, term, end, terms),
        ends_in_end_of(a, start),
        begins_as(b, end),
    ensures
        only_whole(a.last(), term, b[0], terms[i]),
{
    let text = start + term + end;
    let other = terms[i];
    let piece = a.last() + term + b[0];
    let k = choose|k: int| 0 <= k <= start.len() && a.last() == #[trigger] start.skip(k);
    let l = choose|l: int| 0 <= l <= end.len() && b[0] == #[trigger] end.take(l);
    assert(forall|m: int| 0 <= m < piece.len() ==> piece[m] == text[k + m]);
    assert forall|at: int| #[trigger] term_at(piece, other, at) implies {
        ||| at + other.len() <= a.last().len()
        ||| a.last().len() + term.len() <= at
        ||| at == a.last().len() && other.len() == term.len()
    } by {
        assert forall|m: int| 0 <= m < other.len() implies alike(
            #[trigger] other[m],
            text[k + at + m],
        ) by {
            assert(alike(other[m], piece[at + m]));
            assert(piece[at + m] == text[k + (at + m)]);
        }
        assert(term_at(text, terms[i], k + at));
    }
}

/// A copy of a message in which a placeholder stayed reads like one in which
/// the term itself stands, whatever is before and behind it.
pub proof fn a_copy_reads_alike_whether_or_not_the_placeholder_stayed(
    start: Seq<char>,
    term: Seq<char>,
    uuid: Seq<char>,
    end: Seq<char>,
    redactions: Seq<Seq<char>>,
)
    requires
        usable_terms(redactions).contains(term),
        stands_apart(start, term, end, usable_terms(redactions)),
        uuid.len() == 36,
        uuid_at(uuid, 0),
        begins_cleanly(start, uuid, end),
    ensures
        normalised(start + term + end, redactions) == normalised(start + uuid + end, redactions),
{
    let usable = usable_terms(redactions);
    let terms = longest_first(usable);
    lemma_usable_nonempty(redactions);
    lemma_longest_first(usable);
    assert forall|i: int| 0 <= i < terms.len() implies (#[trigger] terms[i]).len() > 0 by {
        assert(usable.contains(terms[i]));
    }
    let k = choose|k: int| 0 <= k < usable.len() && usable[k] == term;
    assert(terms.contains(usable[k]));
    let own = choose|own: int| 0 <= own < terms.len() && terms[own] == term;
    let text = start + term + end;
    assert(stands_apart(start, term, end, terms)) by {
        assert forall|i: int, at: int|
            0 <= i < terms.len() && byte_len(terms[i]) >= byte_len(term) && #[trigger] term_at(
                text,
                terms[i],
                at,
            ) implies {
            ||| at + terms[i].len() <= start.len()
            ||| start.len() + term.len() <= at
            ||| at == start.len() && terms[i].len() == term.len()
        } by {
            assert(usable.contains(terms[i]));
            let j = choose|j: int| 0 <= j < usable.len() && usable[j] == terms[i];
            assert(term_at(text, usable[j], at));
        }
    }
    let n = terms.len() as int;
    lemma_copy_cut(start, term, end, terms, own, n);
    assert(terms.take(n) =~= terms);
    lemma_uuid_between(start, uuid, end);
    lemma_cut_all_append(uuid_pieces(start), uuid_pieces(end), terms);
}

proof fn lemma_cut_all_append(a: Seq<Seq<char>>, b: Seq<Seq<char>>, terms: Seq<Seq<char>>)
    ensures
        cut_all(a + b, terms) == cut_all(a, terms) + cut_all(b, terms),
    decreases terms.len(),
{
    if terms.len() > 0 {
        let rest = terms.drop_last();
        lemma_cut_all_append(a, b, rest);
        lemma_cut_each_append(cut_all(a, rest), cut_all(b, rest), terms.last());
    }
}

// ---------------------------------------------------------------------
// What is replaced and what stays
// ---------------------------------------------------------------------

/// Eight, four, four, four and twelve hexadecimal digits of either case with
/// hyphens between them.
pub open spec fn reads_as_a_uuid(s: Seq<char>) -> bool {
    &&& s.len() == 36
    &&& s[8] == '-' && s[13] == '-' && s[18] == '-' && s[23] == '-'
    &&& forall|k: int|
        0 <= k < 36 && k != 8 && k != 13 && k != 18 && k != 23 ==> {
            ||| '0' <= #[trigger] s[k] <= '9'
            ||| 'a' <= s[k] <= 'f'
            ||| 'A' <= s[k] <= 'F'
        }
}

/// A placeholder stands where a hyphenated UUID of either case can be read.
pub proof fn a_placeholder_is_a_hyphenated_uuid(s: Seq<char>, at: int)
    ensures
        uuid_at(s, at) <==> 0 <= at && at + 36 <= s.len() && reads_as_a_uuid(
            s.subrange(at, at + 36),
        ),
{
    if 0 <= at && at + 36 <= s.len() {
        let part = s.subrange(at, at + 36);
        if uuid_at(s, at) {
            assert forall|k: int| 0 <= k < 36 implies if k == 8 || k == 13 || k == 18 || k == 23 {
                #[trigger] part[k] == '-'
            } else {
                is_hex(part[k])
            } by {
                assert(part[k] == s[at + k]);
                assert(is_hyphen_position(k) <==> (k == 8 || k == 13 || k == 18 || k == 23));
            }
            assert(part[8] == '-' && part[13] == '-' && part[18] == '-' && part[23] == '-');
        }
        if reads_as_a_uuid(part) {
            assert forall|k: int| 0 <= k < 36 implies if is_hyphen_position(k) {
                #[trigger] s[at + k] == '-'
            } else {
                is_hex(s[at + k])
            } by {
                assert(part[k] == s[at + k]);
            }
        }
    }
}

/// A term stands in a text exactly where as many characters follow each other
/// that are its own but for case.
pub proof fn a_term_stands_where_its_characters_do(text: Seq<char>, term: Seq<char>, at: int)
    ensures
        term_at(text, term, at) <==> 0 <= at && at + term.len() <= text.len() && forall|k: int|
            0 <= k < term.len() ==> {
                ||| lowercase_char(#[trigger] term[k]) == lowercase_char(text[at + k])
                ||| term[k] == '\u{3a3}' && text[at + k] == '\u{3c2}'
                ||| term[k] == '\u{3c2}' && text[at + k] == '\u{3a3}'
            },
{
}

proof fn lemma_first_stretch(
    text: Seq<char>,
    width: spec_fn(int) -> nat,
    start: Seq<char>,
    middle: Seq<char>,
    end: Seq<char>,
    end_width: spec_fn(int) -> nat,
    sep: Seq<char>,
)
    requires
        text == start + middle + end,
        middle.len() > 0,
        forall|i: int| 0 <= i < start.len() ==> #[trigger] width(i) == 0,
        width(start.len() as int) == middle.len(),
        forall|i: int|
            0 <= i < end.len() ==> width(start.len() + middle.len() + i) == #[trigger] end_width(i)
                && i + end_width(i) <= end.len(),
    ensures
        joined(cut_from(text, width, 0, 0), sep) == start + sep + joined(
            cut_from(end, end_width, 0, 0),
            sep,
        ),
{
    let p = start.len() as int;
    let base = (start.len() + middle.len()) as int;
    lemma_uncut(text, width, 0, 0, p);
    assert(text.subrange(0, p) =~= start);
    assert(text.skip(base) =~= end);
    lemma_cut_end(text, width, base, end, end_width, 0, 0);
    let rest = cut_from(end, end_width, 0, 0);
    lemma_cut_leaves_a_piece(end, end_width, 0, 0);
    joining_puts_the_separator_between(seq![start], rest, sep);
}

/// A UUID that no other begins before reads as the marker, and what follows it
/// reads on.
pub proof fn the_first_uuid_reads_as_the_marker(
    start: Seq<char>,
    uuid: Seq<char>,
    end: Seq<char>,
)
    requires
        reads_as_a_uuid(uuid),
        forall|i: int|
            0 <= i < start.len() ==> !reads_as_a_uuid(
                #[trigger] (start + uuid + end).subrange(i, i + 36),
            ),
    ensures
        joined(uuid_pieces(start + uuid + end), MARKER@) == start + MARKER@ + joined(
            uuid_pieces(end),
            MARKER@,
        ),
{
    let text = start + uuid + end;
    let width = |at: int|
        if uuid_at(text, at) {
            36nat
        } else {
            0
        };
    let end_width = |at: int|
        if uuid_at(end, at) {
            36nat
        } else {
            0
        };
    assert forall|i: int| 0 <= i < start.len() implies #[trigger] width(i) == 0 by {
        a_placeholder_is_a_hyphenated_uuid(text, i);
    }
    a_placeholder_is_a_hyphenated_uuid(text, start.len() as int);
    assert(text.subrange(start.len() as int, start.len() as int + 36) =~= uuid);
    assert forall|i: int| 0 <= i < end.len() implies width(start.len() + uuid.len() + i)
        == #[trigger] end_width(i) && i + end_width(i) <= end.len() by {
        let there = start.len() + uuid.len() + i;
        a_placeholder_is_a_hyphenated_uuid(text, there);
        a_placeholder_is_a_hyphenated_uuid(end, i);
        if i + 36 <= end.len() {
            assert(text.subrange(there, there + 36) =~= end.subrange(i, i + 36));
        }
    }
    lemma_first_stretch(text, width, start, uuid, end, end_width, MARKER@);
}

/// A text in which no UUID can be read stays as it is.
pub proof fn a_text_without_uuids_stays(text: Seq<char>)
    requires
        forall|i: int|
            0 <= i <= text.len() - 36 ==> !reads_as_a_uuid(#[trigger] text.subrange(i, i + 36)),
    ensures
        uuid_pieces(text) == seq![text],
        joined(uuid_pieces(text), MARKER@) == text,
{
    let width = |at: int|
        if uuid_at(text, at) {
            36nat
        } else {
            0
        };
    assert forall|i: int| 0 <= i < text.len() implies #[trigger] width(i) == 0 by {
        a_placeholder_is_a_hyphenated_uuid(text, i);
    }
    lemma_cut_nothing(text, width, 0);
}

/// Replacing puts the replacement in the place of the first occurrence of the
/// needle, and goes on behind it.
pub proof fn the_first_occurrence_is_replaced(
    start: Seq<char>,
    found: Seq<char>,
    end: Seq<char>,
    needle: Seq<char>,
    replacement: Seq<char>,
)
    requires
        needle.len() > 0,
        found.len() == needle.len(),
        term_at(start + found + end, needle, start.len() as int),
        forall|i: int| 0 <= i < start.len() ==> !#[trigger] term_at(start + found + end, needle, i),
    ensures
        replaced(start + found + end, needle, replacement) == start + replacement + replaced(
            end,
            needle,
            replacement,
        ),
{
    let text = start + found + end;
    let width = |at: int|
        if term_at(text, needle, at) {
            needle.len()
        } else {
            0
        };
    let end_width = |at: int|
        if term_at(end, needle, at) {
            needle.len()
        } else {
            0
        };
    assert forall|i: int| 0 <= i < end.len() implies width(start.len() + found.len() + i)
        == #[trigger] end_width(i) && i + end_width(i) <= end.len() by {
        let there = start.len() + found.len() + i;
        assert(forall|k: int| 0 <= k < end.len() ==> text[start.len() + found.len() + k] == end[k]);
        if term_at(text, needle, there) {
            assert forall|k: int| 0 <= k < needle.len() implies alike(
                #[trigger] needle[k],
                end[i + k],
            ) by {
                assert(text[there + k] == end[i + k]);
            }
        }
        if term_at(end, needle, i) {
            assert forall|k: int| 0 <= k < needle.len() implies alike(
                #[trigger] needle[k],
                text[there + k],
            ) by {
                assert(text[there + k] == end[i + k]);
            }
        }
    }
    lemma_first_stretch(text, width, start, found, end, end_width, replacement);
}

/// A text in which the needle does not stand stays as it is.
pub proof fn a_text_without_the_needle_stays(
    text: Seq<char>,
    needle: Seq<char>,
    replacement: Seq<char>,
)
    requires
        forall|i: int| !#[trigger] term_at(text, needle, i),
    ensures
        term_pieces(text, needle) == seq![text],
        replaced(text, needle, replacement) == text,
{
    let width = |at: int|
        if term_at(text, needle, at) {
            needle.len()
        } else {
            0
        };
    lemma_cut_nothing(text, width, 0);
}

/// The terms that are looked for are the configured ones without the white
/// space at their ends, as far as there is more to them.
pub proof fn the_usable_terms_are_the_trimmed_ones(redactions: Seq<Seq<char>>, term: Seq<char>)
    ensures
        usable_terms(redactions).contains(term) <==> term.len() > 0 && exists|i: int|
            0 <= i < redactions.len() && trimmed(#[trigger] redactions[i]) == term,
    decreases redactions.len(),
{
    let all = usable_terms(redactions);
    if redactions.len() > 0 {
        let before = redactions.drop_last();
        let rest = usable_terms(before);
        let last = redactions.len() - 1;
        the_usable_terms_are_the_trimmed_ones(before, term);
        if all.contains(term) {
            let k = choose|k: int| 0 <= k < all.len() && all[k] == term;
            if k < rest.len() {
                assert(rest[k] == term);
                let i = choose|i: int|
                    0 <= i < before.len() && trimmed(#[trigger] before[i]) == term;
                assert(redactions[i] == before[i]);
            } else {
                assert(trimmed(redactions[last]) == term);
            }
        }
        if term.len() > 0 && exists|i: int|
            0 <= i < redactions.len() && trimmed(#[trigger] redactions[i]) == term {
            let i = choose|i: int|
                0 <= i < redactions.len() && trimmed(#[trigger] redactions[i]) == term;
            if i < last {
                assert(before[i] == redactions[i]);
                let k = choose|k: int| 0 <= k < rest.len() && rest[k] == term;
                assert(all[k] == term);
            } else {
                assert(all[all.len() - 1] == term);
            }
        }
    }
}

proof fn lemma_no_term_cuts(text: Seq<char>, terms: Seq<Seq<char>>)
    requires
        forall|i: int, at: int| 0 <= i < terms.len() ==> !#[trigger] term_at(text, terms[i], at),
    ensures
        cut_all(seq![text], terms) == seq![text],
    decreases terms.len(),
{
    if terms.len() > 0 {
        let rest = terms.drop_last();
        assert forall|i: int, at: int| 0 <= i < rest.len() implies !#[trigger] term_at(
            text,
            rest[i],
            at,
        ) by {
            assert(!term_at(text, terms[i], at));
        }
        lemma_no_term_cuts(text, rest);
        let term = terms[terms.len() - 1];
        a_text_without_the_needle_stays(text, term, MARKER@);
        assert(seq![text].drop_last() =~= Seq::<Seq<char>>::empty());
        assert(cut_each(Seq::<Seq<char>>::empty(), term) =~= Seq::<Seq<char>>::empty());
        assert(cut_each(seq![text], term) =~= seq![text]);
    }
}

/// A message in which no UUID and no configured term stands reads as it is
/// written, every character of it.
pub proof fn a_message_without_redactions_reads_as_written(
    content: Seq<char>,
    redactions: Seq<Seq<char>>,
)
    requires
        forall|i: int|
            0 <= i <= content.len() - 36 ==> !reads_as_a_uuid(
                #[trigger] content.subrange(i, i + 36),
            ),
        forall|i: int, at: int|
            0 <= i < redactions.len() && trimmed(redactions[i]).len() > 0 ==> !#[trigger] term_at(
                content,
                trimmed(redactions[i]),
                at,
            ),
    ensures
        normalised(content, redactions) == content,
{
    let usable = usable_terms(redactions);
    let terms = longest_first(usable);
    a_text_without_uuids_stays(content);
    lemma_longest_first(usable);
    assert forall|i: int, at: int| 0 <= i < terms.len() implies !#[trigger] term_at(
        content,
        terms[i],
        at,
    ) by {
        assert(usable.contains(terms[i]));
        the_usable_terms_are_the_trimmed_ones(redactions, terms[i]);
        let k = choose|k: int|
            0 <= k < redactions.len() && trimmed(#[trigger] redactions[k]) == terms[i];
        assert(!term_at(content, trimmed(redactions[k]), at));
    }
    lemma_no_term_cuts(content, terms);
}

/// Without configured terms, a message reads as written but for its UUIDs.
pub proof fn without_terms_only_uuids_are_replaced(content: Seq<char>)
    ensures
        normalised(content, Seq::<Seq<char>>::empty()) == joined(uuid_pieces(content), MARKER@),
{
    let none = Seq::<Seq<char>>::empty();
    lemma_longest_first(usable_terms(none));
}

/// With one term and no UUID, the term is what is replaced.
pub proof fn a_single_term_is_replaced(content: Seq<char>, term: Seq<char>)
    requires
        trimmed(term).len() > 0,
        forall|i: int|
            0 <= i <= content.len() - 36 ==> !reads_as_a_uuid(
                #[trigger] content.subrange(i, i + 36),
            ),
    ensures
        normalised(content, seq![term]) == replaced(content, trimmed(term), MARKER@),
{
    let one = seq![term];
    let usable = usable_terms(one);
    let none = Seq::<Seq<char>>::empty();
    assert(one.drop_last() =~= none);
    assert(usable_terms(none) =~= none);
    assert(one.last() == term);
    assert(usable =~= seq![trimmed(term)]);
    lemma_longest_first(usable);
    let terms = longest_first(usable);
    assert(usable.contains(terms[0]));
    assert(terms =~= usable);
    a_text_without_uuids_stays(content);
    assert(terms.drop_last() =~= none);
    assert(cut_all(seq![content], none) =~= seq![content]);
    assert(seq![content].drop_last() =~= none);
    assert(cut_each(none, trimmed(term)) =~= none);
    assert(none + term_pieces(content, trimmed(term)) =~= term_pieces(content, trimmed(term)));
    assert(cut_each(seq![content], trimmed(term)) =~= term_pieces(content, trimmed(term)));
}

/// The marker holds characters that no message is typed with, and is shorter
/// than a UUID, so that it is never taken for one.
pub proof fn the_marker_is_nothing_that_is_typed()
    ensures
        MARKER@ == seq!['\0', 'x', '\0'],
        uuid_pieces(MARKER@) == seq![MARKER@],
{
    reveal_strlit("\u{0}x\u{0}");
    assert(MARKER@ =~= seq!['\0', 'x', '\0']);
    a_text_without_uuids_stays(MARKER@);
}

} // verus!
