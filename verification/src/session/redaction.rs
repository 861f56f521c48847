//! Reading messages as they would stand with redaction damage removed.
//!
//! Redaction generated a fresh UUID per turn and the mapping was never
//! stored, so the same message re-inserted later carries different
//! placeholders, and where an old placeholder could no longer be reversed one
//! copy kept the substitution while another did not. Every UUID collapses to
//! one marker, and every configured redaction term collapses to the same
//! marker, so both copies read alike whether or not the substitution stuck.

use crate::order::order_positions;
#[allow(unused_imports)]
use crate::order::{arranged, stable_order};
#[allow(unused_imports)]
use crate::text::{byte_len, char_lowers_plainly, joined, lowercase_char, texts, trimmed};
use crate::text::{byte_length, char_to_lowercase, chars_of, join, string_between, trim};
use vstd::prelude::*;

verus! {

/// What a placeholder or a redacted term reads as.
pub const MARKER: &'static str = "\u{0}x\u{0}";

// ---------------------------------------------------------------------
// Cutting
// ---------------------------------------------------------------------

/// The pieces of a text that are left when stretches are cut out of it, from
/// `at` on, where the current piece began at `from`. `width(i)` is the length
/// of the stretch that begins at `i`, and zero when none does; of stretches
/// that overlap the first one counts.
pub open spec fn cut_from(
    text: Seq<char>,
    width: spec_fn(int) -> nat,
    from: int,
    at: int,
) -> Seq<Seq<char>>
    decreases
            if at < text.len() {
                text.len() - at
            } else {
                0
            },
{
    if at >= text.len() {
        seq![text.subrange(from, text.len() as int)]
    } else if width(at) > 0 {
        seq![text.subrange(from, at)] + cut_from(text, width, at + width(at), at + width(at))
    } else {
        cut_from(text, width, from, at + 1)
    }
}

/// Something is always left, if only an empty piece.
pub proof fn lemma_cut_leaves_a_piece(
    text: Seq<char>,
    width: spec_fn(int) -> nat,
    from: int,
    at: int,
)
    ensures
        cut_from(text, width, from, at).len() > 0,
    decreases
            if at < text.len() {
                text.len() - at
            } else {
                0
            },
{
    if at < text.len() && width(at) == 0 {
        lemma_cut_leaves_a_piece(text, width, from, at + 1);
    }
}

fn cut(chars: &Vec<char>, widths: &Vec<usize>, Ghost(width): Ghost<spec_fn(int) -> nat>) -> (r: Vec<
    String,
>)
    requires
        widths@.len() == chars@.len(),
        forall|i: int| 0 <= i < widths@.len() ==> #[trigger] widths@[i] == width(i),
        forall|i: int| 0 <= i < widths@.len() ==> #[trigger] widths@[i] <= chars@.len() - i,
    ensures
        texts(r@) == cut_from(chars@, width, 0, 0),
{
    let n = chars.len();
    let mut r: Vec<String> = Vec::new();
    let mut from: usize = 0;
    let mut at: usize = 0;
    let ghost whole = cut_from(chars@, width, 0, 0);
    assert(texts(r@) + whole =~= whole);
    while at < n
        invariant
            n == chars@.len(),
            widths@.len() == n,
            forall|i: int| 0 <= i < widths@.len() ==> #[trigger] widths@[i] == width(i),
            forall|i: int| 0 <= i < widths@.len() ==> #[trigger] widths@[i] <= n - i,
            from <= at <= n,
            texts(r@) + cut_from(chars@, width, from as int, at as int) == whole,
        decreases n - at,
    {
        let step = widths[at];
        if step > 0 {
            let ghost before = texts(r@);
            let ghost piece = chars@.subrange(from as int, at as int);
            r.push(string_between(chars, from, at));
            at += step;
            from = at;
            assert(texts(r@) =~= before.push(piece));
            assert(before.push(piece) + cut_from(chars@, width, from as int, at as int) =~= before
                + (seq![piece] + cut_from(chars@, width, from as int, at as int)));
        } else {
            at += 1;
        }
    }
    let ghost before = texts(r@);
    r.push(string_between(chars, from, n));
    assert(texts(r@) =~= before + seq![chars@.subrange(from as int, n as int)]);
    r
}

// ---------------------------------------------------------------------
// UUIDs
// ---------------------------------------------------------------------

/// A hexadecimal digit, in either case.
pub open spec fn is_hex(c: char) -> bool {
    ('0' <= c <= '9') || ('a' <= c <= 'f') || ('A' <= c <= 'F')
}

/// The positions of the hyphens in a canonical UUID.
pub open spec fn is_hyphen_position(k: int) -> bool {
    k == 8 || k == 13 || k == 18 || k == 23
}

/// A canonical 8-4-4-4-12 hexadecimal UUID stands at `at`.
pub open spec fn uuid_at(s: Seq<char>, at: int) -> bool {
    &&& 0 <= at
    &&& at + 36 <= s.len()
    &&& forall|k: int|
        0 <= k < 36 ==> if is_hyphen_position(k) {
            #[trigger] s[at + k] == '-'
        } else {
            is_hex(s[at + k])
        }
}

/// Length of a canonical 8-4-4-4-12 hex UUID starting here, if there is one.
pub fn uuid_width(chars: &Vec<char>, at: usize) -> (r: Option<usize>)
    requires
        at <= chars.len(),
    ensures
        r == if uuid_at(chars@, at as int) {
            Some(36usize)
        } else {
            None
        },
{
    if chars.len() - at < 36 {
        return None;
    }
    for k in 0..36usize
        invariant
            at + 36 <= chars.len(),
            forall|j: int|
                0 <= j < k ==> if is_hyphen_position(j) {
                    #[trigger] chars@[at + j] == '-'
                } else {
                    is_hex(chars@[at + j])
                },
    {
        let c = chars[at + k];
        let fits = if k == 8 || k == 13 || k == 18 || k == 23 {
            c == '-'
        } else {
            ('0' <= c && c <= '9') || ('a' <= c && c <= 'f') || ('A' <= c && c <= 'F')
        };
        if !fits {
            return None;
        }
    }
    Some(36)
}

/// The pieces of a text between its UUIDs.
pub open spec fn uuid_pieces(s: Seq<char>) -> Seq<Seq<char>> {
    cut_from(
        s,
        |at: int|
            if uuid_at(s, at) {
                36nat
            } else {
                0
            },
        0,
        0,
    )
}

fn cut_uuids(content: &str) -> (r: Vec<String>)
    ensures
        texts(r@) == uuid_pieces(content@),
{
    let chars = chars_of(content);
    let ghost width = |at: int|
        if uuid_at(content@, at) {
            36nat
        } else {
            0
        };
    let mut widths: Vec<usize> = Vec::new();
    for at in 0..chars.len()
        invariant
            chars@ == content@,
            width == (|at: int|
                if uuid_at(content@, at) {
                    36nat
                } else {
                    0
                }),
            widths@.len() == at,
            forall|i: int| 0 <= i < at ==> #[trigger] widths@[i] == width(i),
            forall|i: int| 0 <= i < at ==> #[trigger] widths@[i] <= chars@.len() - i,
    {
        widths.push(
            match uuid_width(&chars, at) {
                Some(n) => n,
                None => 0,
            },
        );
    }
    cut(&chars, &widths, Ghost(width))
}

/// A text in which every UUID reads as the marker.
pub fn collapse_uuids(content: &str) -> (out: String)
    ensures
        out@ == joined(uuid_pieces(content@), MARKER@),
{
    join(&cut_uuids(content), MARKER)
}

// ---------------------------------------------------------------------
// Terms
// ---------------------------------------------------------------------

/// The lowercase form of every ASCII character of the text is what it says.
pub open spec fn folds_plainly(s: Seq<char>) -> bool {
    forall|i: int| 0 <= i < s.len() ==> char_lowers_plainly(#[trigger] s[i])
}

/// The characters are the same but for case. The capital sigma is that of the
/// sigma at the end of a word too, but the two lowercase ones are different
/// characters.
pub open spec fn alike(a: char, b: char) -> bool {
    ||| lowercase_char(a) == lowercase_char(b)
    ||| a == '\u{3a3}' && b == '\u{3c2}'
    ||| a == '\u{3c2}' && b == '\u{3a3}'
}

/// The term stands in the text at `at`, in any case.
pub open spec fn term_at(text: Seq<char>, term: Seq<char>, at: int) -> bool {
    &&& 0 <= at
    &&& at + term.len() <= text.len()
    &&& forall|k: int| 0 <= k < term.len() ==> alike(#[trigger] term[k], text[at + k])
}

/// The pieces of a text between the occurrences of a term.
pub open spec fn term_pieces(text: Seq<char>, term: Seq<char>) -> Seq<Seq<char>> {
    cut_from(
        text,
        |at: int|
            if term_at(text, term, at) {
                term.len()
            } else {
                0
            },
        0,
        0,
    )
}

/// `haystack` with every occurrence of `needle` replaced, ignoring case.
pub open spec fn replaced(
    haystack: Seq<char>,
    needle: Seq<char>,
    replacement: Seq<char>,
) -> Seq<char> {
    joined(term_pieces(haystack, needle), replacement)
}

/// The characters of a text and the lowercase form of each.
struct Letters {
    chars: Vec<char>,
    low: Vec<String>,
}

impl Letters {
    spec fn wf(self) -> bool {
        &&& self.low@.len() == self.chars@.len()
        &&& forall|i: int|
            0 <= i < self.chars@.len() ==> (#[trigger] self.low@[i])@ == lowercase_char(
                self.chars@[i],
            )
    }
}

fn letters(text: &str) -> (r: Letters)
    ensures
        r.wf(),
        r.chars@ == text@,
        folds_plainly(text@),
{
    let chars = chars_of(text);
    let mut low: Vec<String> = Vec::new();
    for i in 0..chars.len()
        invariant
            low@.len() == i,
            forall|k: int| 0 <= k < i ==> (#[trigger] low@[k])@ == lowercase_char(chars@[k]),
            forall|k: int| 0 <= k < i ==> char_lowers_plainly(#[trigger] chars@[k]),
    {
        low.push(char_to_lowercase(chars[i]));
    }
    Letters { chars, low }
}

fn stands_at(text: &Letters, term: &Letters, at: usize) -> (r: bool)
    requires
        text.wf(),
        term.wf(),
        at <= text.chars@.len(),
    ensures
        r == term_at(text.chars@, term.chars@, at as int),
{
    if term.chars.len() > text.chars.len() - at {
        return false;
    }
    for k in 0..term.chars.len()
        invariant
            text.wf(),
            term.wf(),
            at + term.chars.len() <= text.chars.len(),
            forall|j: int|
                0 <= j < k ==> alike(#[trigger] term.chars@[j], text.chars@[at + j]),
    {
        let a = term.chars[k];
        let b = text.chars[at + k];
        let same_low = term.low[k] == text.low[at + k];
        assert(same_low == (term.low@[k as int]@ == text.low@[at + k]@));
        if !(same_low || (a == '\u{3a3}' && b == '\u{3c2}') || (a == '\u{3c2}' && b
            == '\u{3a3}')) {
            assert(!alike(term.chars@[k as int], text.chars@[at + k]));
            return false;
        }
    }
    true
}

fn cut_term(text: &str, term: &str) -> (r: Vec<String>)
    requires
        term@.len() > 0,
    ensures
        texts(r@) == term_pieces(text@, term@),
        folds_plainly(text@),
        folds_plainly(term@),
{
    let hay = letters(text);
    let needle = letters(term);
    let ghost width = |at: int|
        if term_at(text@, term@, at) {
            term@.len()
        } else {
            0
        };
    let mut widths: Vec<usize> = Vec::new();
    for at in 0..hay.chars.len()
        invariant
            hay.wf(),
            needle.wf(),
            hay.chars@ == text@,
            needle.chars@ == term@,
            width == (|at: int|
                if term_at(text@, term@, at) {
                    term@.len()
                } else {
                    0
                }),
            widths@.len() == at,
            forall|i: int| 0 <= i < at ==> #[trigger] widths@[i] == width(i),
            forall|i: int| 0 <= i < at ==> #[trigger] widths@[i] <= text@.len() - i,
    {
        widths.push(
            if stands_at(&hay, &needle, at) {
                needle.chars.len()
            } else {
                0
            },
        );
    }
    cut(&hay.chars, &widths, Ghost(width))
}

/// Case-insensitive substring replacement, matching how redaction is applied.
pub fn replace_ignoring_case(haystack: &str, needle: &str, replacement: &str) -> (out: String)
    requires
        needle@.len() > 0,
    ensures
        out@ == replaced(haystack@, needle@, replacement@),
        folds_plainly(haystack@),
        folds_plainly(needle@),
{
    join(&cut_term(haystack, needle), replacement)
}

// ---------------------------------------------------------------------
// Normalising
// ---------------------------------------------------------------------

/// The configured terms, trimmed, without the empty ones.
pub open spec fn usable_terms(redactions: Seq<Seq<char>>) -> Seq<Seq<char>>
    decreases redactions.len(),
{
    if redactions.len() == 0 {
        Seq::empty()
    } else {
        let rest = usable_terms(redactions.drop_last());
        let term = trimmed(redactions.last());
        if term.len() > 0 {
            rest.push(term)
        } else {
            rest
        }
    }
}

/// The terms by falling length in bytes; terms of one length keep their order.
pub open spec fn longest_first(terms: Seq<Seq<char>>) -> Seq<Seq<char>> {
    arranged(
        terms,
        stable_order(terms.len(), |a: int, b: int| byte_len(terms[a]) > byte_len(terms[b])),
    )
}

/// The pieces that are left when a term is cut out of each of the pieces.
pub open spec fn cut_each(pieces: Seq<Seq<char>>, term: Seq<char>) -> Seq<Seq<char>>
    decreases pieces.len(),
{
    if pieces.len() == 0 {
        Seq::empty()
    } else {
        cut_each(pieces.drop_last(), term) + term_pieces(pieces.last(), term)
    }
}

/// The pieces that are left when the terms are cut out one after the other.
pub open spec fn cut_all(pieces: Seq<Seq<char>>, terms: Seq<Seq<char>>) -> Seq<Seq<char>>
    decreases terms.len(),
{
    if terms.len() == 0 {
        pieces
    } else {
        cut_each(cut_all(pieces, terms.drop_last()), terms.last())
    }
}

/// A message as it reads with redaction damage removed: a marker stands for
/// every UUID and for every term in what is between them.
pub open spec fn normalised(content: Seq<char>, redactions: Seq<Seq<char>>) -> Seq<char> {
    joined(cut_all(uuid_pieces(content), longest_first(usable_terms(redactions))), MARKER@)
}

fn terms_longest_first(redactions: &Vec<String>) -> (r: Vec<String>)
    ensures
        texts(r@) == longest_first(usable_terms(texts(redactions@))),
        forall|i: int| 0 <= i < r@.len() ==> (#[trigger] r@[i])@.len() > 0,
{
    let mut terms: Vec<String> = Vec::new();
    let mut lens: Vec<usize> = Vec::new();
    let ghost all = texts(redactions@);
    for i in 0..redactions.len()
        invariant
            all == texts(redactions@),
            texts(terms@) == usable_terms(all.take(i as int)),
            lens@.len() == terms@.len(),
            forall|k: int| 0 <= k < terms@.len() ==> (#[trigger] terms@[k])@.len() > 0,
            forall|k: int| 0 <= k < lens@.len() ==> #[trigger] lens@[k] == byte_len(terms@[k]@),
    {
        assert(all.take(i + 1).drop_last() =~= all.take(i as int));
        let term = trim(redactions[i].as_str());
        if !term.as_str().is_empty() {
            let ghost before = terms@;
            lens.push(byte_length(term.as_str()));
            terms.push(term);
            assert(texts(terms@) =~= texts(before).push(term@));
        }
    }
    assert(all.take(all.len() as int) =~= all);
    let ghost want = usable_terms(all);
    let ghost before = |a: int, b: int| byte_len(want[a]) > byte_len(want[b]);
    assert(forall|k: int| 0 <= k < terms@.len() ==> #[trigger] terms@[k]@ == want[k]);
    let longer = |a: usize, b: usize| -> (r: bool)
        requires
            a < lens.len(),
            b < lens.len(),
        ensures
            r == (lens@[b as int] < lens@[a as int]),
        {
            lens[b] < lens[a]
        };
    let order = order_positions(terms.len(), longer, Ghost(before));
    let ghost ints = order@.map_values(|i: usize| i as int);
    let mut sorted: Vec<String> = Vec::new();
    for i in 0..order.len()
        invariant
            ints == order@.map_values(|i: usize| i as int),
            forall|k: int| 0 <= k < order@.len() ==> #[trigger] order@[k] < terms@.len(),
            forall|k: int| 0 <= k < terms@.len() ==> #[trigger] terms@[k]@ == want[k],
            forall|k: int| 0 <= k < terms@.len() ==> (#[trigger] terms@[k])@.len() > 0,
            texts(sorted@) == arranged(want, ints).take(i as int),
            forall|k: int| 0 <= k < sorted@.len() ==> (#[trigger] sorted@[k])@.len() > 0,
    {
        let ghost earlier = sorted@;
        sorted.push(terms[order[i]].clone());
        assert(texts(sorted@) =~= texts(earlier).push(want[ints[i as int]]));
        assert(arranged(want, ints).take(i + 1) =~= arranged(want, ints).take(i as int).push(
            want[ints[i as int]],
        ));
    }
    assert(arranged(want, ints).take(order@.len() as int) =~= arranged(want, ints));
    sorted
}

fn cut_pieces(pieces: &Vec<String>, term: &str) -> (r: Vec<String>)
    requires
        term@.len() > 0,
    ensures
        texts(r@) == cut_each(texts(pieces@), term@),
        pieces@.len() > 0 ==> r@.len() > 0 && folds_plainly(term@),
        forall|i: int| 0 <= i < pieces@.len() ==> folds_plainly((#[trigger] pieces@[i])@),
{
    let ghost all = texts(pieces@);
    let mut r: Vec<String> = Vec::new();
    assert(texts(r@) =~= cut_each(all.take(0), term@));
    for i in 0..pieces.len()
        invariant
            term@.len() > 0,
            all == texts(pieces@),
            texts(r@) == cut_each(all.take(i as int), term@),
            i > 0 ==> r@.len() > 0 && folds_plainly(term@),
            forall|k: int| 0 <= k < i ==> folds_plainly((#[trigger] pieces@[k])@),
    {
        assert(all.take(i + 1).drop_last() =~= all.take(i as int));
        let mut more = cut_term(pieces[i].as_str(), term);
        proof {
            lemma_cut_leaves_a_piece(
                pieces@[i as int]@,
                |at: int|
                    if term_at(pieces@[i as int]@, term@, at) {
                        term@.len()
                    } else {
                        0
                    },
                0,
                0,
            );
            assert(texts(more@).len() == more@.len());
        }
        let ghost before = r@;
        let ghost added = more@;
        r.append(&mut more);
        assert(texts(r@) =~= texts(before) + texts(added));
    }
    assert(all.take(all.len() as int) =~= all);
    r
}

/// Compare messages as they would read with redaction damage removed, longest
/// term first. Redaction walked its terms in no fixed order, so on one turn a
/// long term was replaced whole and on another a shorter one inside it went
/// first; collapsing the longest match makes both copies normalise the same
/// way. A term is looked for only between the markers, never inside one.
pub fn normalise(content: &str, redactions: &Vec<String>) -> (out: String)
    ensures
        out@ == normalised(content@, texts(redactions@)),
        ({
            let terms = longest_first(usable_terms(texts(redactions@)));
            &&& forall|i: int| 0 <= i < terms.len() ==> folds_plainly(#[trigger] terms[i])
            &&& terms.len() > 0 ==> forall|i: int|
                0 <= i < uuid_pieces(content@).len() ==> folds_plainly(
                    #[trigger] uuid_pieces(content@)[i],
                )
        }),
{
    let mut pieces = cut_uuids(content);
    let terms = terms_longest_first(redactions);
    let ghost start = texts(pieces@);
    let ghost all = texts(terms@);
    proof {
        lemma_cut_leaves_a_piece(
            content@,
            |at: int|
                if uuid_at(content@, at) {
                    36nat
                } else {
                    0
                },
            0,
            0,
        );
        assert(start.len() == pieces@.len());
    }
    assert(all.take(0) =~= Seq::<Seq<char>>::empty());
    for i in 0..terms.len()
        invariant
            all == texts(terms@),
            forall|k: int| 0 <= k < terms@.len() ==> (#[trigger] terms@[k])@.len() > 0,
            texts(pieces@) == cut_all(start, all.take(i as int)),
            pieces@.len() > 0,
            i == 0 ==> texts(pieces@) == start,
            forall|k: int| 0 <= k < i ==> folds_plainly(#[trigger] all[k]),
            i > 0 ==> forall|k: int| 0 <= k < start.len() ==> folds_plainly(#[trigger] start[k]),
    {
        assert(all.take(i + 1).drop_last() =~= all.take(i as int));
        let ghost before = pieces@;
        pieces = cut_pieces(&pieces, terms[i].as_str());
        proof {
            assert(all[i as int] == terms@[i as int]@);
            if i == 0 {
                assert forall|k: int| 0 <= k < start.len() implies folds_plainly(
                    #[trigger] start[k],
                ) by {
                    assert(start[k] == before[k]@);
                }
            }
        }
    }
    assert(all.take(all.len() as int) =~= all);
    join(&pieces, MARKER)
}

} // verus!
