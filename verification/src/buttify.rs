//! Replacing one syllable of a word, and one word of a sentence.
//!
//! Which syllable and which word is settled by draws (see [`crate::chance`]).
//! The functions whose names end in `_with` take the draws as arguments; the
//! others make them at random.

use crate::chance::{draw_index, draw_index_is_valid, pick, random_draw};
use crate::sentence::{
    is_word, join, joined, words, words_are_words, words_of, words_of_joined, words_of_word,
};
pub use crate::syllable::{is_vowel, syllables};
use crate::syllable::{
    boundaries, boundaries_are_exact, piece_end, piece_start, syllables_are_contiguous,
    syllables_around, syllables_of,
};
use vstd::prelude::*;
use vstd::seq_lib::lemma_flatten_concat;

verus! {

/// The token that takes a syllable's place.
pub open spec fn token() -> Seq<char> {
    seq!['b', 'u', 't', 't']
}

/// `syllables` put together, with the token in place of syllable `k`.
pub open spec fn with_token_at(syllables: Seq<Seq<char>>, k: int) -> Seq<char> {
    syllables.update(k, token()).flatten()
}

/// What replacing the syllable that `draw` selects gives: nothing where there
/// is no syllable, else the syllables put together with the token in place of
/// the selected one.
pub open spec fn replaced(syllables: Seq<Seq<char>>, draw: u32) -> Option<Seq<char>> {
    if syllables.len() == 0 {
        None
    } else {
        Some(with_token_at(syllables, draw_index(draw, syllables.len())))
    }
}

/// The word `w` with the syllable that `draw` selects replaced by the token.
pub open spec fn buttified_word(w: Seq<char>, draw: u32) -> Seq<char> {
    with_token_at(syllables_of(w), draw_index(draw, syllables_of(w).len()))
}

/// The sentence `s` with the word that `word_draw` selects buttified by
/// `syllable_draw`, and the words joined by single spaces; nothing where `s`
/// has no word.
pub open spec fn buttified_sentence(s: Seq<char>, word_draw: u32, syllable_draw: u32) -> Option<
    Seq<char>,
> {
    let ws = words_of(s);
    if ws.len() == 0 {
        None
    } else {
        let k = draw_index(word_draw, ws.len());
        Some(joined(ws.update(k, buttified_word(ws[k], syllable_draw))))
    }
}

/// `after` is `before` but perhaps for the entry at `k`: the two are equally
/// long, and every other entry is the same.
pub open spec fn same_but_at(before: Seq<Seq<char>>, after: Seq<Seq<char>>, k: int) -> bool {
    &&& 0 <= k < before.len()
    &&& after.len() == before.len()
    &&& forall|j: int| 0 <= j < before.len() && j != k ==> #[trigger] after[j] == before[j]
}

/// Putting a list together with one entry replaced gives what stood before
/// the entry, the replacement, and what stood after it.
pub proof fn flatten_of_update(parts: Seq<Seq<char>>, k: int, part: Seq<char>)
    requires
        0 <= k < parts.len(),
    ensures
        parts.update(k, part).flatten() == parts.take(k).flatten() + part + parts.skip(
            k + 1,
        ).flatten(),
{
    let front = parts.take(k);
    let back = parts.skip(k + 1);
    assert(parts.update(k, part) =~= front.push(part) + back);
    lemma_flatten_concat(front.push(part), back);
    front.lemma_flatten_push(part);
}

/// Buttifying a word replaces exactly one syllable: the result is the word up
/// to where the selected syllable begins, the token, and the word from where
/// that syllable ends.
pub proof fn buttified_word_replaces_one_syllable(w: Seq<char>, draw: u32)
    ensures
        ({
            let k = draw_index(draw, syllables_of(w).len());
            let from = piece_start(boundaries(w), k);
            let to = piece_end(w, boundaries(w), k);
            &&& 0 <= k < syllables_of(w).len()
            &&& 0 <= from <= to <= w.len()
            &&& syllables_of(w)[k] == w.subrange(from, to)
            &&& buttified_word(w, draw) == w.subrange(0, from) + token() + w.subrange(
                to,
                w.len() as int,
            )
        }),
{
    let k = draw_index(draw, syllables_of(w).len());
    draw_index_is_valid(draw, syllables_of(w).len());
    syllables_are_contiguous(w, k);
    syllables_around(w, k);
    flatten_of_update(syllables_of(w), k, token());
}

/// Buttifying a word gives a word: the result has a character and, like the
/// word it came from, no whitespace.
pub proof fn buttified_word_is_word(w: Seq<char>, draw: u32)
    requires
        is_word(w),
    ensures
        is_word(buttified_word(w, draw)),
{
    buttified_word_replaces_one_syllable(w, draw);
}

/// Buttifying a sentence changes one word and nothing else: cut into words
/// again, the result has the words of the sentence, but for the selected one,
/// which is buttified.
pub proof fn buttified_sentence_changes_one_word(s: Seq<char>, word_draw: u32, syllable_draw: u32)
    requires
        words_of(s).len() > 0,
    ensures
        ({
            let k = draw_index(word_draw, words_of(s).len());
            &&& 0 <= k < words_of(s).len()
            &&& buttified_sentence(s, word_draw, syllable_draw) is Some
            &&& words_of(buttified_sentence(s, word_draw, syllable_draw).unwrap()) == words_of(
                s,
            ).update(k, buttified_word(words_of(s)[k], syllable_draw))
        }),
{
    let ws = words_of(s);
    let k = draw_index(word_draw, ws.len());
    draw_index_is_valid(word_draw, ws.len());
    words_are_words(s);
    buttified_word_is_word(ws[k], syllable_draw);
    words_of_joined(ws.update(k, buttified_word(ws[k], syllable_draw)));
}

/// A buttified sentence has as many words as the sentence it came from.
pub proof fn buttified_sentence_keeps_word_count(s: Seq<char>, word_draw: u32, syllable_draw: u32)
    requires
        words_of(s).len() > 0,
    ensures
        buttified_sentence(s, word_draw, syllable_draw) is Some,
        words_of(buttified_sentence(s, word_draw, syllable_draw).unwrap()).len() == words_of(
            s,
        ).len(),
{
    buttified_sentence_changes_one_word(s, word_draw, syllable_draw);
}

/// A buttified sentence differs from the sentence it came from in at most one
/// word: every word but the selected one is the same, character for character.
pub proof fn buttified_sentence_keeps_other_words(
    s: Seq<char>,
    word_draw: u32,
    syllable_draw: u32,
    j: int,
)
    requires
        0 <= j < words_of(s).len(),
        j != draw_index(word_draw, words_of(s).len()),
    ensures
        buttified_sentence(s, word_draw, syllable_draw) is Some,
        words_of(buttified_sentence(s, word_draw, syllable_draw).unwrap())[j] == words_of(s)[j],
{
    buttified_sentence_changes_one_word(s, word_draw, syllable_draw);
}

/// A sentence without words, the empty one among them, is never buttified,
/// whatever the draws.
pub proof fn wordless_sentence_has_no_result(s: Seq<char>, word_draw: u32, syllable_draw: u32)
    ensures
        buttified_sentence(s, word_draw, syllable_draw) is None <==> words_of(s).len() == 0,
        s.len() == 0 ==> buttified_sentence(s, word_draw, syllable_draw) is None,
{
}

/// A sentence is buttified to the bare token just where it is one word of one
/// syllable: nothing of the sentence is then left in the result.
pub proof fn bare_token_comes_of_one_syllable(s: Seq<char>, word_draw: u32, syllable_draw: u32)
    ensures
        buttified_sentence(s, word_draw, syllable_draw) == Some(token()) <==> words_of(s).len()
            == 1 && syllables_of(words_of(s)[0]).len() == 1,
{
    let ws = words_of(s);
    if ws.len() > 0 {
        let k = draw_index(word_draw, ws.len());
        let changed = buttified_word(ws[k], syllable_draw);
        buttified_sentence_changes_one_word(s, word_draw, syllable_draw);
        buttified_word_replaces_one_syllable(ws[k], syllable_draw);
        boundaries_are_exact(ws[k]);
        words_of_word(token());
        if ws.len() == 1 && syllables_of(ws[0]).len() == 1 {
            assert(ws.update(k, changed) =~= seq![changed]);
            assert(changed =~= token());
        }
        if buttified_sentence(s, word_draw, syllable_draw) == Some(token()) {
            assert(ws.update(k, changed) == seq![token()]);
            assert(ws.update(k, changed)[k] == changed);
        }
    }
}

/// Puts `syllables` together with the token in place of the syllable that
/// `draw` selects. There is no result where there is no syllable.
pub fn replace_syllable(syllables: &Vec<&str>, draw: u32) -> (r: Option<String>)
    ensures
        r.deep_view() == replaced(syllables.deep_view(), draw),
{
    let count = syllables.len();
    if count == 0 {
        return None;
    }
    let target = pick(draw, count);
    let ghost parts = syllables.deep_view().update(target as int, token());
    let mut out = String::new();
    let mut i: usize = 0;
    assert(parts.take(0) =~= Seq::<Seq<char>>::empty());
    while i < count
        invariant
            count == syllables.len(),
            target < count,
            parts == syllables.deep_view().update(target as int, token()),
            i <= count,
            out@ == parts.take(i as int).flatten(),
        decreases count - i,
    {
        proof {
            reveal_strlit("butt");
            assert("butt"@ =~= token());
            assert(parts.take(i + 1) =~= parts.take(i as int).push(parts[i as int]));
            parts.take(i as int).lemma_flatten_push(parts[i as int]);
        }
        if i == target {
            out.append("butt");
        } else {
            out.append(syllables[i]);
        }
        i = i + 1;
    }
    assert(parts.take(i as int) =~= parts);
    Some(out)
}

/// Replaces the syllable of `word` that `draw` selects by the token.
///
/// Every word has a syllable, so there is always a result.
pub fn buttify_word_with(word: &str, draw: u32) -> (r: Option<String>)
    ensures
        r.deep_view() == Some(buttified_word(word@, draw)),
{
    let parts = syllables(word);
    replace_syllable(&parts, draw)
}

/// Buttifies a given word by replacing a random syllable with the token.
///
/// Every word has a syllable, so there is always a result: the word with one
/// of its syllables replaced.
pub fn random_buttify(word: &str) -> (r: Option<String>)
    ensures
        r is Some,
        exists|draw: u32| r.deep_view() == Some(buttified_word(word@, draw)),
{
    let draw = random_draw();
    buttify_word_with(word, draw)
}

/// Tells whether `text` is the bare token, which is all that is left of a
/// sentence of one word of one syllable.
pub fn is_bare_token(text: &str) -> (r: bool)
    ensures
        r == (text@ == token()),
{
    if text.unicode_len() != 4 {
        return false;
    }
    let r = text.get_char(0) == 'b' && text.get_char(1) == 'u' && text.get_char(2) == 't'
        && text.get_char(3) == 't';
    proof {
        if r {
            assert(text@ =~= token());
        }
    }
    r
}

/// Buttifies the word of `sentence` that `word_draw` selects, in the syllable
/// that `syllable_draw` selects, and joins the words by single spaces.
///
/// There is no result where the sentence has no word. Where there is one, it
/// has the words of the sentence, but for the selected word.
pub fn buttify_sentence_with(sentence: &str, word_draw: u32, syllable_draw: u32) -> (r: Option<
    String,
>)
    ensures
        r.deep_view() == buttified_sentence(sentence@, word_draw, syllable_draw),
        r is None <==> words_of(sentence@).len() == 0,
        r is Some ==> words_of(r.unwrap()@) == words_of(sentence@).update(
            draw_index(word_draw, words_of(sentence@).len()),
            buttified_word(
                words_of(sentence@)[draw_index(word_draw, words_of(sentence@).len())],
                syllable_draw,
            ),
        ),
{
    let mut list = words(sentence);
    let count = list.len();
    if count == 0 {
        return None;
    }
    let target = pick(word_draw, count);
    let ghost before = list.deep_view();
    match buttify_word_with(list[target], syllable_draw) {
        Some(changed) => {
            list.set(target, changed.as_str());
            proof {
                assert(list.deep_view() =~= before.update(target as int, changed@));
                buttified_sentence_changes_one_word(sentence@, word_draw, syllable_draw);
            }
            Some(join(&list))
        },
        None => None,
    }
}

/// Buttifies a random syllable of a random word of `sentence`, and joins the
/// words by single spaces.
///
/// There is no result where the sentence has no word. Where there is one, it
/// has as many words as the sentence, and all but one of them are the words
/// of the sentence.
pub fn buttify_sentence(sentence: &str) -> (r: Option<String>)
    ensures
        r is None <==> words_of(sentence@).len() == 0,
        exists|word_draw: u32, syllable_draw: u32|
            r.deep_view() == buttified_sentence(sentence@, word_draw, syllable_draw),
        r is Some ==> exists|k: int|
            same_but_at(words_of(sentence@), words_of(r.unwrap()@), k),
{
    let word_draw = random_draw();
    let syllable_draw = random_draw();
    let r = buttify_sentence_with(sentence, word_draw, syllable_draw);
    proof {
        if r is Some {
            let k = draw_index(word_draw, words_of(sentence@).len());
            draw_index_is_valid(word_draw, words_of(sentence@).len());
            assert(same_but_at(words_of(sentence@), words_of(r.unwrap()@), k));
        }
    }
    r
}

} // verus!
