//! Sentences as lists of words.
//!
//! A sentence is cut into words at runs of ASCII whitespace, and words are put
//! together again with one space between neighbours.

use vstd::prelude::*;

verus! {

/// ASCII whitespace: space, tab, line feed, form feed and carriage return.
pub open spec fn space(c: char) -> bool {
    c == ' ' || c == '\t' || c == '\n' || c == '\x0C' || c == '\r'
}

/// `w` can stand as a word of a sentence: it has a character, and none of its
/// characters is whitespace.
pub open spec fn is_word(w: Seq<char>) -> bool {
    &&& w.len() > 0
    &&& forall|j: int| 0 <= j < w.len() ==> !space(#[trigger] w[j])
}

/// How many characters stand at the front of `s` before its first whitespace.
pub open spec fn word_len(s: Seq<char>) -> nat
    decreases s.len(),
{
    if s.len() == 0 || space(s[0]) {
        0
    } else {
        1 + word_len(s.drop_first())
    }
}

/// The words of `s`: its longest stretches without whitespace, in order.
pub open spec fn words_of(s: Seq<char>) -> Seq<Seq<char>>
    decreases s.len(),
{
    if s.len() == 0 {
        Seq::empty()
    } else if space(s[0]) {
        words_of(s.drop_first())
    } else {
        proof {
            word_len_is_bounded(s);
        }
        seq![s.take(word_len(s) as int)] + words_of(s.skip(word_len(s) as int))
    }
}

/// `words` put together with one space between neighbours.
pub open spec fn joined(words: Seq<Seq<char>>) -> Seq<char>
    decreases words.len(),
{
    if words.len() == 0 {
        Seq::empty()
    } else if words.len() == 1 {
        words[0]
    } else {
        joined(words.drop_last()) + seq![' '] + words.last()
    }
}

/// The front stretch without whitespace is no longer than the text, holds no
/// whitespace, and ends at the end of the text or before a whitespace.
pub proof fn word_len_is_bounded(s: Seq<char>)
    ensures
        word_len(s) <= s.len(),
        forall|j: int| 0 <= j < word_len(s) ==> !space(#[trigger] s[j]),
        word_len(s) < s.len() ==> space(s[word_len(s) as int]),
    decreases s.len(),
{
    if s.len() > 0 && !space(s[0]) {
        let t = s.drop_first();
        word_len_is_bounded(t);
        assert forall|j: int| 0 <= j < word_len(s) implies !space(#[trigger] s[j]) by {
            if j > 0 {
                assert(s[j] == t[j - 1]);
            }
        }
        if word_len(s) < s.len() {
            assert(s[word_len(s) as int] == t[word_len(t) as int]);
        }
    }
}

/// A stretch of `n` characters without whitespace at the front of `s`, which
/// ends at the end of `s` or before a whitespace, is the front stretch that
/// `word_len` measures.
pub proof fn word_len_is_determined(s: Seq<char>, n: int)
    requires
        0 <= n <= s.len(),
        forall|j: int| 0 <= j < n ==> !space(#[trigger] s[j]),
        n < s.len() ==> space(s[n]),
    ensures
        word_len(s) == n,
    decreases n,
{
    if n > 0 {
        let t = s.drop_first();
        assert forall|j: int| 0 <= j < n - 1 implies !space(#[trigger] t[j]) by {
            assert(t[j] == s[j + 1]);
        }
        word_len_is_determined(t, n - 1);
    }
}

/// A text that begins with `n` characters without whitespace, followed by the
/// end of the text or a whitespace, has those characters as its first word.
pub proof fn words_of_leading_word(s: Seq<char>, n: int)
    requires
        0 < n <= s.len(),
        forall|j: int| 0 <= j < n ==> !space(#[trigger] s[j]),
        n < s.len() ==> space(s[n]),
    ensures
        words_of(s) == seq![s.take(n)] + words_of(s.skip(n)),
{
    word_len_is_determined(s, n);
}

/// Every word of a text has a character and holds no whitespace.
pub proof fn words_are_words(s: Seq<char>)
    ensures
        forall|k: int| 0 <= k < words_of(s).len() ==> is_word(#[trigger] words_of(s)[k]),
    decreases s.len(),
{
    if s.len() == 0 {
    } else if space(s[0]) {
        words_are_words(s.drop_first());
        assert(words_of(s) == words_of(s.drop_first()));
    } else {
        word_len_is_bounded(s);
        let n = word_len(s) as int;
        words_are_words(s.skip(n));
        assert(words_of(s) == seq![s.take(n)] + words_of(s.skip(n)));
        assert forall|k: int| 0 <= k < words_of(s).len() implies is_word(
            #[trigger] words_of(s)[k],
        ) by {
            if k == 0 {
                let w = s.take(n);
                assert(words_of(s)[0] == w);
                assert forall|j: int| 0 <= j < w.len() implies !space(#[trigger] w[j]) by {
                    assert(w[j] == s[j]);
                }
            } else {
                assert(words_of(s)[k] == words_of(s.skip(n))[k - 1]);
            }
        }
    }
}

/// A space between two texts keeps their words apart: the words of the whole
/// are the words of the first text and then those of the second.
pub proof fn words_of_spaced(a: Seq<char>, b: Seq<char>)
    ensures
        words_of(a + seq![' '] + b) == words_of(a) + words_of(b),
    decreases a.len(),
{
    let s = a + seq![' '] + b;
    if a.len() == 0 {
        assert(s.drop_first() =~= b);
        assert(words_of(a) + words_of(b) =~= words_of(b));
    } else if space(a[0]) {
        let t = a.drop_first();
        words_of_spaced(t, b);
        assert(s.drop_first() =~= t + seq![' '] + b);
    } else {
        word_len_is_bounded(a);
        let n = word_len(a) as int;
        assert forall|j: int| 0 <= j < n implies !space(#[trigger] s[j]) by {
            assert(s[j] == a[j]);
        }
        if n < a.len() {
            assert(s[n] == a[n]);
        }
        words_of_leading_word(s, n);
        words_of_spaced(a.skip(n), b);
        assert(s.take(n) =~= a.take(n));
        assert(s.skip(n) =~= a.skip(n) + seq![' '] + b);
        assert(words_of(a) + words_of(b) =~= seq![a.take(n)] + (words_of(a.skip(n)) + words_of(
            b,
        )));
    }
}

/// A word, taken as a text, is its own single word.
pub proof fn words_of_word(w: Seq<char>)
    requires
        is_word(w),
    ensures
        words_of(w) == seq![w],
{
    words_of_leading_word(w, w.len() as int);
    assert(w.take(w.len() as int) =~= w);
    assert(w.skip(w.len() as int) =~= Seq::<char>::empty());
    assert(seq![w] + Seq::<Seq<char>>::empty() =~= seq![w]);
}

/// Joining and cutting are inverse on lists of words: a list of words, joined
/// with spaces and cut again, is the list itself.
pub proof fn words_of_joined(words: Seq<Seq<char>>)
    requires
        forall|k: int| 0 <= k < words.len() ==> is_word(#[trigger] words[k]),
    ensures
        words_of(joined(words)) == words,
    decreases words.len(),
{
    if words.len() == 0 {
    } else if words.len() == 1 {
        words_of_word(words[0]);
        assert(seq![words[0]] =~= words);
    } else {
        let front = words.drop_last();
        words_of_joined(front);
        words_of_spaced(joined(front), words.last());
        words_of_word(words.last());
        assert(front + seq![words.last()] =~= words);
    }
}

/// Cutting a text into words and joining them again leaves the words as they
/// were: only the whitespace between them is lost.
pub proof fn words_survive_joining(s: Seq<char>)
    ensures
        words_of(joined(words_of(s))) == words_of(s),
{
    words_are_words(s);
    words_of_joined(words_of(s));
}

/// Tells whether `c` is ASCII whitespace.
pub fn is_space(c: char) -> (r: bool)
    ensures
        r == space(c),
{
    match c {
        ' ' | '\t' | '\n' | '\x0C' | '\r' => true,
        _ => false,
    }
}

/// Cuts `sentence` into its words.
///
/// The result is empty where the sentence holds nothing but whitespace.
pub fn words(sentence: &str) -> (r: Vec<&str>)
    ensures
        r.deep_view() == words_of(sentence@),
{
    broadcast use vstd::string::group_string_axioms;

    let ghost s = sentence@;
    let len = sentence.unicode_len();
    let mut out: Vec<&str> = Vec::new();
    let mut start: usize = 0;
    let mut in_word = false;
    let mut i: usize = 0;
    assert(s.skip(0) =~= s);
    assert(out.deep_view() =~= Seq::<Seq<char>>::empty());
    assert(Seq::<Seq<char>>::empty() + words_of(s) =~= words_of(s));
    for ch in it: sentence.chars()
        invariant
            it.seq() == s,
            s == sentence@,
            len == s.len(),
            i == it.index(),
            in_word ==> start < i && forall|j: int| start <= j < i ==> !space(#[trigger] s[j]),
            words_of(s) == out.deep_view() + words_of(
                s.skip(if in_word { start as int } else { i as int }),
            ),
    {
        let ghost before = out.deep_view();
        if is_space(ch) {
            if in_word {
                out.push(sentence.substring_char(start, i));
                in_word = false;
                proof {
                    let t = s.skip(start as int);
                    let n = i - start;
                    assert forall|j: int| 0 <= j < n implies !space(#[trigger] t[j]) by {
                        assert(t[j] == s[start + j]);
                    }
                    assert(t[n] == s[i as int]);
                    words_of_leading_word(t, n);
                    assert(t.take(n) =~= s.subrange(start as int, i as int));
                    assert(t.skip(n) =~= s.skip(i as int));
                    assert(out.deep_view() =~= before.push(t.take(n)));
                    assert(before + (seq![t.take(n)] + words_of(s.skip(i as int)))
                        =~= out.deep_view() + words_of(s.skip(i as int)));
                }
            }
            proof {
                let t = s.skip(i as int);
                assert(t[0] == s[i as int]);
                assert(t.drop_first() =~= s.skip(i + 1));
            }
        } else if !in_word {
            start = i;
            in_word = true;
        }
        i = i + 1;
    }
    if in_word {
        let ghost before = out.deep_view();
        out.push(sentence.substring_char(start, len));
        proof {
            let t = s.skip(start as int);
            let n = len - start;
            assert forall|j: int| 0 <= j < n implies !space(#[trigger] t[j]) by {
                assert(t[j] == s[start + j]);
            }
            words_of_leading_word(t, n);
            assert(t.take(n) =~= s.subrange(start as int, len as int));
            assert(t.skip(n) =~= Seq::<char>::empty());
            assert(out.deep_view() =~= before.push(t.take(n)));
            assert(before + (seq![t.take(n)] + Seq::<Seq<char>>::empty()) =~= out.deep_view());
        }
    } else {
        assert(s.skip(len as int) =~= Seq::<char>::empty());
        assert(out.deep_view() + Seq::<Seq<char>>::empty() =~= out.deep_view());
    }
    out
}

/// Puts `words` together with one space between neighbours.
pub fn join(words: &Vec<&str>) -> (r: String)
    ensures
        r@ == joined(words.deep_view()),
{
    let ghost ws = words.deep_view();
    let mut out = String::new();
    let mut i: usize = 0;
    assert(ws.take(0) =~= Seq::<Seq<char>>::empty());
    while i < words.len()
        invariant
            ws == words.deep_view(),
            i <= words.len(),
            out@ == joined(ws.take(i as int)),
        decreases words.len() - i,
    {
        proof {
            let next = ws.take(i + 1);
            reveal_strlit(" ");
            assert(" "@ =~= seq![' ']);
            assert(next.drop_last() =~= ws.take(i as int));
            assert(next.last() == words@[i as int]@);
        }
        if i > 0 {
            out.append(" ");
        }
        out.append(words[i]);
        i = i + 1;
    }
    assert(ws.take(i as int) =~= ws);
    out
}

} // verus!
