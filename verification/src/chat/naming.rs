//! Names for conversations.

use crate::text;
use vstd::prelude::*;

verus! {

/// The most words a slug has.
pub const SLUG_WORDS: usize = 6;

/// The most characters a slug has.
pub const SLUG_CHARS: usize = 48;

/// A name that was made up because the user did not supply one.
pub open spec fn auto_name(name: Seq<char>) -> bool {
    ||| name == "temporary"@
    ||| text::begins_with(name, "chat-"@)
    ||| text::begins_with(name, "chat_"@)
    ||| text::begins_with(name, "auto_save_"@)
}

/// Names this tool generated because the user did not supply one.
pub fn is_auto_name(name: &str) -> (r: bool)
    ensures
        r == auto_name(name@),
{
    text::same(name, "temporary") || text::starts_with(name, "chat-") || text::starts_with(
        name,
        "chat_",
    ) || text::starts_with(name, "auto_save_")
}

/// A lowercase ASCII letter or a digit.
pub open spec fn slug_letter(c: char) -> bool {
    ('a' <= c <= 'z') || ('0' <= c <= '9')
}

/// What a character of a prompt contributes to a slug: letters and digits of
/// ASCII in lowercase, a hyphen for anything else.
pub open spec fn slug_char(c: char) -> char {
    if slug_letter(c) {
        c
    } else if 'A' <= c <= 'Z' {
        (c as int - 'A' as int + 'a' as int) as char
    } else {
        '-'
    }
}

fn to_slug_char(c: char) -> (r: char)
    ensures
        r == slug_char(c),
{
    if ('a' <= c && c <= 'z') || ('0' <= c && c <= '9') {
        c
    } else if 'A' <= c && c <= 'Z' {
        (c as u8 + 32u8) as char
    } else {
        '-'
    }
}

/// The pieces that are not empty.
pub open spec fn nonempty(parts: Seq<Seq<char>>) -> Seq<Seq<char>>
    decreases parts.len(),
{
    if parts.len() == 0 {
        Seq::empty()
    } else if parts.last().len() > 0 {
        nonempty(parts.drop_last()).push(parts.last())
    } else {
        nonempty(parts.drop_last())
    }
}

/// The words of a prompt, as a slug spells them.
pub open spec fn slug_words(prompt: Seq<char>) -> Seq<Seq<char>> {
    nonempty(text::split(prompt.map_values(|c: char| slug_char(c)), '-'))
}

/// The first words of a prompt, joined by hyphens.
pub open spec fn slug_text(prompt: Seq<char>) -> Seq<char> {
    let words = slug_words(prompt);
    text::joined(
        if words.len() <= SLUG_WORDS {
            words
        } else {
            words.take(SLUG_WORDS as int)
        },
        "-"@,
    )
}

/// The slug of a prompt; nothing when the prompt has no letter or digit.
pub open spec fn slug(prompt: Seq<char>) -> Option<Seq<char>> {
    if slug_text(prompt).len() == 0 {
        None
    } else {
        Some(text::first_chars(slug_text(prompt), SLUG_CHARS as int))
    }
}

proof fn lemma_nonempty_len(parts: Seq<Seq<char>>)
    ensures
        nonempty(parts).len() <= parts.len(),
        forall|i: int| 0 <= i < nonempty(parts).len() ==> (#[trigger] nonempty(parts)[i]).len() > 0,
    decreases parts.len(),
{
    if parts.len() > 0 {
        lemma_nonempty_len(parts.drop_last());
    }
}

proof fn lemma_nonempty_prefix(parts: Seq<Seq<char>>, n: int)
    requires
        0 <= n <= parts.len(),
    ensures
        nonempty(parts.take(n)).len() <= nonempty(parts).len(),
        nonempty(parts).take(nonempty(parts.take(n)).len() as int) == nonempty(parts.take(n)),
    decreases parts.len() - n,
{
    if n < parts.len() {
        lemma_nonempty_prefix(parts, n + 1);
        assert(parts.take(n + 1).drop_last() =~= parts.take(n));
        let shorter = nonempty(parts.take(n));
        let longer = nonempty(parts.take(n + 1));
        assert(longer.take(shorter.len() as int) =~= shorter);
        assert(nonempty(parts).take(shorter.len() as int) =~= longer.take(shorter.len() as int));
    } else {
        assert(parts.take(n) =~= parts);
        assert(nonempty(parts).take(nonempty(parts).len() as int) =~= nonempty(parts));
    }
}

/// Turn a prompt into a short, readable, greppable session-name fragment.
pub fn slugify(prompt: &str) -> (r: Option<String>)
    ensures
        match r {
            Some(s) => slug(prompt@) == Some(s@),
            None => slug(prompt@) is None,
        },
{
    let chars = text::chars_of(prompt);
    let mut spelled = String::new();
    for i in 0..chars.len()
        invariant
            chars@ == prompt@,
            spelled@ == prompt@.take(i as int).map_values(|c: char| slug_char(c)),
    {
        spelled.push(to_slug_char(chars[i]));
        assert(prompt@.take(i + 1).map_values(|c: char| slug_char(c)) =~= prompt@.take(
            i as int,
        ).map_values(|c: char| slug_char(c)).push(slug_char(prompt@[i as int])));
    }
    assert(prompt@.take(prompt@.len() as int) =~= prompt@);

    let parts = text::split_at_each(spelled.as_str(), '-');
    let ghost all = text::texts(parts@);
    let ghost found = nonempty(all);
    let mut words: Vec<String> = Vec::new();
    let mut i: usize = 0;
    assert(all.take(0) =~= Seq::<Seq<char>>::empty());
    assert(text::texts(words@) =~= nonempty(all.take(0)));
    while i < parts.len() && words.len() < SLUG_WORDS
        invariant
            all == text::texts(parts@),
            i <= parts.len(),
            words.len() <= SLUG_WORDS,
            text::texts(words@) == nonempty(all.take(i as int)),
        decreases parts.len() - i,
    {
        assert(all.take(i + 1).drop_last() =~= all.take(i as int));
        if !parts[i].as_str().is_empty() {
            let ghost before = text::texts(words@);
            words.push(parts[i].clone());
            assert(text::texts(words@) =~= before.push(all[i as int]));
        }
        i += 1;
    }
    proof {
        lemma_nonempty_prefix(all, i as int);
        assert(text::texts(words@).len() == words@.len());
        if i == parts@.len() {
            assert(all.take(i as int) =~= all);
        }
        assert(found.take(found.len() as int) =~= found);
        assert(found.len() <= SLUG_WORDS || words@.len() == SLUG_WORDS);
    }
    let joined = text::join(&words, "-");
    if joined.as_str().is_empty() {
        None
    } else {
        Some(text::take_chars(joined.as_str(), SLUG_CHARS))
    }
}

// ---------------------------------------------------------------------
// Laws
// ---------------------------------------------------------------------

/// A character that a slug can hold.
pub open spec fn in_slug(c: char) -> bool {
    slug_letter(c) || c == '-'
}

/// Every character of the text can stand in a slug.
pub open spec fn spelled(s: Seq<char>) -> bool {
    forall|i: int| 0 <= i < s.len() ==> in_slug(#[trigger] s[i])
}

proof fn lemma_split_spelled(s: Seq<char>)
    requires
        spelled(s),
    ensures
        forall|i: int|
            0 <= i < text::split(s, '-').len() ==> spelled(#[trigger] text::split(s, '-')[i]),
        forall|i: int, j: int|
            0 <= i < text::split(s, '-').len() && 0 <= j < text::split(s, '-')[i].len()
                ==> #[trigger] text::split(s, '-')[i][j] != '-',
    decreases s.len(),
{
    if s.len() > 0 {
        assert(forall|i: int| 0 <= i < s.drop_last().len() ==> s.drop_last()[i] == s[i]);
        lemma_split_spelled(s.drop_last());
        text::lemma_split_nonempty(s.drop_last(), '-');
        let rest = text::split(s.drop_last(), '-');
        assert(spelled(rest.last()));
        assert(in_slug(s.last()));
    }
}

proof fn lemma_nonempty_from(parts: Seq<Seq<char>>)
    ensures
        forall|i: int|
            0 <= i < nonempty(parts).len() ==> parts.contains(#[trigger] nonempty(parts)[i]),
    decreases parts.len(),
{
    if parts.len() > 0 {
        let rest = parts.drop_last();
        lemma_nonempty_from(rest);
        assert forall|i: int| 0 <= i < nonempty(parts).len() implies parts.contains(
            #[trigger] nonempty(parts)[i],
        ) by {
            if i < nonempty(rest).len() {
                assert(rest.contains(nonempty(rest)[i]));
                let k = choose|k: int| 0 <= k < rest.len() && rest[k] == nonempty(rest)[i];
                assert(parts[k] == rest[k]);
            } else {
                assert(parts[parts.len() - 1] == parts.last());
            }
        }
    }
}

proof fn lemma_joined_spelled(parts: Seq<Seq<char>>)
    requires
        forall|i: int|
            0 <= i < parts.len() ==> spelled(#[trigger] parts[i]) && parts[i].len() > 0
                && parts[i][0] != '-',
    ensures
        spelled(text::joined(parts, "-"@)),
        parts.len() > 0 ==> text::joined(parts, "-"@).len() > 0 && text::joined(parts, "-"@)[0]
            != '-',
    decreases parts.len(),
{
    reveal_strlit("-");
    if parts.len() > 1 {
        assert(forall|i: int| 0 <= i < parts.drop_last().len() ==> parts.drop_last()[i] == parts[i]);
        lemma_joined_spelled(parts.drop_last());
        let start = text::joined(parts.drop_last(), "-"@);
        let whole = text::joined(parts, "-"@);
        assert forall|i: int| 0 <= i < whole.len() implies in_slug(#[trigger] whole[i]) by {
            if i < start.len() {
                assert(whole[i] == start[i]);
            } else if i == start.len() {
                assert(whole[i] == "-"@[0]);
            } else {
                assert(whole[i] == parts.last()[i - start.len() - 1]);
                assert(spelled(parts[parts.len() - 1]));
            }
        }
        assert(whole[0] == start[0]);
    }
}

/// A slug is short, is never empty, starts with a letter or a digit, and holds
/// nothing but lowercase letters, digits and hyphens.
pub proof fn a_slug_is_short_and_plain(prompt: Seq<char>)
    requires
        slug(prompt) is Some,
    ensures
        0 < slug(prompt)->0.len() <= SLUG_CHARS,
        slug_letter(slug(prompt)->0[0]),
        forall|i: int| 0 <= i < slug(prompt)->0.len() ==> in_slug(#[trigger] slug(prompt)->0[i]),
{
    let mapped = prompt.map_values(|c: char| slug_char(c));
    assert(spelled(mapped));
    lemma_split_spelled(mapped);
    let parts = text::split(mapped, '-');
    let words = slug_words(prompt);
    lemma_nonempty_from(parts);
    lemma_nonempty_len(parts);
    let used = if words.len() <= SLUG_WORDS {
        words
    } else {
        words.take(SLUG_WORDS as int)
    };
    assert forall|i: int| 0 <= i < used.len() implies spelled(#[trigger] used[i]) && used[i].len()
        > 0 && used[i][0] != '-' by {
        assert(used[i] == words[i]);
        assert(parts.contains(words[i]));
        let k = choose|k: int| 0 <= k < parts.len() && parts[k] == words[i];
        assert(parts[k][0] != '-');
    }
    lemma_joined_spelled(used);
    let whole = slug_text(prompt);
    assert(slug(prompt)->0[0] == whole[0]);
    assert forall|i: int| 0 <= i < slug(prompt)->0.len() implies in_slug(
        #[trigger] slug(prompt)->0[i],
    ) by {
        assert(slug(prompt)->0[i] == whole[i]);
    }
}

/// No two hyphens stand side by side.
pub open spec fn single_hyphens(s: Seq<char>) -> bool {
    forall|i: int| 0 <= i < s.len() - 1 ==> !(#[trigger] s[i] == '-' && s[i + 1] == '-')
}

proof fn lemma_joined_singly(parts: Seq<Seq<char>>)
    requires
        forall|i: int| 0 <= i < parts.len() ==> (#[trigger] parts[i]).len() > 0,
        forall|i: int, j: int|
            0 <= i < parts.len() && 0 <= j < parts[i].len() ==> #[trigger] parts[i][j] != '-',
    ensures
        single_hyphens(text::joined(parts, "-"@)),
        parts.len() > 0 ==> text::joined(parts, "-"@).len() > 0 && text::joined(
            parts,
            "-"@,
        ).last() != '-',
    decreases parts.len(),
{
    reveal_strlit("-");
    let whole = text::joined(parts, "-"@);
    if parts.len() == 1 {
        assert forall|i: int| 0 <= i < whole.len() implies #[trigger] whole[i] != '-' by {
            assert(parts[0][i] != '-');
        }
        assert(whole.last() == parts[0][parts[0].len() - 1]);
    } else if parts.len() > 1 {
        let rest = parts.drop_last();
        let last = parts[parts.len() - 1];
        assert(forall|i: int| 0 <= i < rest.len() ==> rest[i] == parts[i]);
        lemma_joined_singly(rest);
        let start = text::joined(rest, "-"@);
        assert(whole == start + "-"@ + last);
        assert forall|i: int| 0 <= i < whole.len() - 1 implies !(#[trigger] whole[i] == '-'
            && whole[i + 1] == '-') by {
            if i < start.len() - 1 {
                assert(whole[i] == start[i] && whole[i + 1] == start[i + 1]);
            } else if i == start.len() - 1 {
                assert(whole[i] == start.last());
            } else {
                assert(whole[i + 1] == last[i - start.len()]);
                assert(parts[parts.len() - 1][i - start.len()] != '-');
            }
        }
        assert(whole.last() == parts[parts.len() - 1][last.len() - 1]);
    }
}

/// A slug never holds two hyphens side by side.
pub proof fn a_slug_has_single_hyphens(prompt: Seq<char>)
    requires
        slug(prompt) is Some,
    ensures
        single_hyphens(slug(prompt)->0),
{
    let mapped = prompt.map_values(|c: char| slug_char(c));
    assert(spelled(mapped));
    lemma_split_spelled(mapped);
    let parts = text::split(mapped, '-');
    let words = slug_words(prompt);
    lemma_nonempty_from(parts);
    lemma_nonempty_len(parts);
    let used = if words.len() <= SLUG_WORDS {
        words
    } else {
        words.take(SLUG_WORDS as int)
    };
    assert forall|i: int, j: int|
        0 <= i < used.len() && 0 <= j < used[i].len() implies #[trigger] used[i][j] != '-' by {
        assert(used[i] == words[i]);
        assert(parts.contains(words[i]));
        let k = choose|k: int| 0 <= k < parts.len() && parts[k] == words[i];
        assert(parts[k][j] != '-');
    }
    assert forall|i: int| 0 <= i < used.len() implies (#[trigger] used[i]).len() > 0 by {
        assert(used[i] == words[i]);
    }
    lemma_joined_singly(used);
    let whole = slug_text(prompt);
    let short = slug(prompt)->0;
    assert forall|i: int| 0 <= i < short.len() - 1 implies !(#[trigger] short[i] == '-' && short[i
        + 1] == '-') by {
        assert(short[i] == whole[i] && short[i + 1] == whole[i + 1]);
    }
}

proof fn lemma_split_only_separators(s: Seq<char>)
    ensures
        nonempty(text::split(s, '-')).len() == 0 <==> forall|i: int|
            0 <= i < s.len() ==> #[trigger] s[i] == '-',
        nonempty(text::split(s, '-').drop_last()).len() == 0 && text::split(s, '-').last().len()
            == 0 <==> nonempty(text::split(s, '-')).len() == 0,
    decreases s.len(),
{
    let parts = text::split(s, '-');
    text::lemma_split_nonempty(s, '-');
    if s.len() > 0 {
        let before = s.drop_last();
        lemma_split_only_separators(before);
        let rest = text::split(before, '-');
        text::lemma_split_nonempty(before, '-');
        assert(forall|i: int| 0 <= i < before.len() ==> before[i] == s[i]);
        if s.last() == '-' {
            assert(parts.drop_last() =~= rest);
            assert(nonempty(parts) =~= nonempty(rest));
            if forall|i: int| 0 <= i < before.len() ==> #[trigger] before[i] == '-' {
                assert forall|i: int| 0 <= i < s.len() implies #[trigger] s[i] == '-' by {
                    if i < before.len() {
                        assert(before[i] == '-');
                    }
                }
            } else {
                let k = choose|k: int| 0 <= k < before.len() && #[trigger] before[k] != '-';
                assert(s[k] != '-');
            }
        } else {
            assert(s[s.len() - 1] != '-');
            assert(parts.last().len() > 0);
            assert(nonempty(parts).len() > 0);
        }
    } else {
        assert(parts.drop_last() =~= Seq::<Seq<char>>::empty());
        assert(nonempty(parts.drop_last()).len() == 0);
    }
}

/// A prompt has a slug exactly when it holds a letter or a digit of ASCII.
pub proof fn a_prompt_with_a_letter_has_a_slug(prompt: Seq<char>)
    ensures
        slug(prompt) is Some <==> exists|i: int|
            0 <= i < prompt.len() && #[trigger] slug_char(prompt[i]) != '-',
{
    let mapped = prompt.map_values(|c: char| slug_char(c));
    lemma_split_only_separators(mapped);
    let words = slug_words(prompt);
    let used = if words.len() <= SLUG_WORDS {
        words
    } else {
        words.take(SLUG_WORDS as int)
    };
    lemma_nonempty_len(text::split(mapped, '-'));
    if words.len() == 0 {
        assert forall|i: int| 0 <= i < prompt.len() implies #[trigger] slug_char(prompt[i])
            == '-' by {
            assert(mapped[i] == '-');
        }
    } else {
        lemma_joined_longer(used);
        let k = choose|k: int| 0 <= k < mapped.len() && #[trigger] mapped[k] != '-';
        assert(slug_char(prompt[k]) != '-');
    }
}

proof fn lemma_joined_longer(parts: Seq<Seq<char>>)
    requires
        parts.len() > 0,
        forall|i: int| 0 <= i < parts.len() ==> (#[trigger] parts[i]).len() > 0,
    ensures
        text::joined(parts, "-"@).len() > 0,
{
    if parts.len() > 1 {
        assert(parts.last() == parts[parts.len() - 1]);
    }
}

/// The name given to a conversation on a day, from the slug of its first
/// prompt.
pub open spec fn derived_name(today: Seq<char>, slug: Seq<char>) -> Seq<char> {
    today + "-"@ + slug
}

pub fn derive_name(today: &str, slug: &str) -> (r: String)
    ensures
        r@ == derived_name(today@, slug@),
{
    let start = text::concat(today, "-");
    text::concat(start.as_str(), slug)
}

/// A derived name that starts with the digits of a day is not an automatic
/// one, so a conversation is named after its prompt only once.
pub proof fn a_derived_name_is_kept(today: Seq<char>, slug: Seq<char>)
    requires
        today.len() > 0,
        '0' <= today[0] <= '9',
    ensures
        !auto_name(derived_name(today, slug)),
{
    reveal_strlit("temporary");
    reveal_strlit("chat-");
    reveal_strlit("chat_");
    reveal_strlit("auto_save_");
    let name = derived_name(today, slug);
    assert(name[0] == today[0]);
    if text::begins_with(name, "chat-"@) {
        assert(name[0] == "chat-"@[0]);
    }
    if text::begins_with(name, "chat_"@) {
        assert(name[0] == "chat_"@[0]);
    }
    if text::begins_with(name, "auto_save_"@) {
        assert(name[0] == "auto_save_"@[0]);
    }
}

} // verus!
