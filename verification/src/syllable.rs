//! Cutting a word into syllables.
//!
//! A word is a sequence of characters. A syllable ends wherever a vowel is
//! followed by a consonant, unless that consonant is the last character of
//! the word: a single trailing character never forms a syllable of its own.

use vstd::prelude::*;
use vstd::seq_lib::lemma_flatten_concat;

verus! {

/// The vowels are `a`, `e`, `i`, `o` and `u` in either case; `y` is a consonant.
pub open spec fn vowel(c: char) -> bool {
    ||| c == 'a' || c == 'e' || c == 'i' || c == 'o' || c == 'u'
    ||| c == 'A' || c == 'E' || c == 'I' || c == 'O' || c == 'U'
}

/// A syllable of `w` ends just before position `i`: the character before `i`
/// is a vowel, the one at `i` is a consonant, and at least two characters
/// remain from `i` on.
pub open spec fn is_boundary(w: Seq<char>, i: int) -> bool {
    &&& 1 <= i
    &&& i + 2 <= w.len()
    &&& vowel(w[i - 1])
    &&& !vowel(w[i])
}

/// The boundaries of `w` that lie below `n`, in ascending order.
pub open spec fn boundaries_below(w: Seq<char>, n: int) -> Seq<int>
    decreases n,
{
    if n <= 0 {
        Seq::empty()
    } else if is_boundary(w, n - 1) {
        boundaries_below(w, n - 1).push(n - 1)
    } else {
        boundaries_below(w, n - 1)
    }
}

/// All boundaries of `w`, in ascending order.
pub open spec fn boundaries(w: Seq<char>) -> Seq<int> {
    boundaries_below(w, w.len() as int)
}

/// Where piece `k` begins when a word is cut at `cuts`.
pub open spec fn piece_start(cuts: Seq<int>, k: int) -> int {
    if k == 0 {
        0
    } else {
        cuts[k - 1]
    }
}

/// Where piece `k` ends when `w` is cut at `cuts`.
pub open spec fn piece_end(w: Seq<char>, cuts: Seq<int>, k: int) -> int {
    if k == cuts.len() {
        w.len() as int
    } else {
        cuts[k]
    }
}

/// The pieces that remain when `w` is cut at each position of `cuts`.
pub open spec fn pieces(w: Seq<char>, cuts: Seq<int>) -> Seq<Seq<char>> {
    Seq::new(
        cuts.len() + 1,
        |k: int| w.subrange(piece_start(cuts, k), piece_end(w, cuts, k)),
    )
}

/// The syllables of `w`: the word cut at each of its boundaries.
pub open spec fn syllables_of(w: Seq<char>) -> Seq<Seq<char>> {
    pieces(w, boundaries(w))
}

/// `cuts` ascends strictly and stays between 1 and the length of `w`.
pub open spec fn ascending_within(w: Seq<char>, cuts: Seq<int>) -> bool {
    &&& forall|j: int| 0 <= j < cuts.len() ==> 1 <= #[trigger] cuts[j] < w.len()
    &&& forall|j: int, k: int| 0 <= j < k < cuts.len() ==> cuts[j] < cuts[k]
}

/// The boundaries below `n` are exactly the positions below `n` at which a
/// syllable ends, each listed once, in ascending order.
pub proof fn boundaries_below_are_exact(w: Seq<char>, n: int)
    ensures
        ascending_within(w, boundaries_below(w, n)),
        forall|j: int|
            0 <= j < boundaries_below(w, n).len() ==> #[trigger] boundaries_below(w, n)[j] < n,
        forall|i: int| #[trigger]
            boundaries_below(w, n).contains(i) <==> i < n && is_boundary(w, i),
    decreases n,
{
    let b = boundaries_below(w, n);
    if n > 0 {
        boundaries_below_are_exact(w, n - 1);
        let p = boundaries_below(w, n - 1);
        assert forall|i: int| #[trigger] b.contains(i) <==> i < n && is_boundary(w, i) by {
            if is_boundary(w, n - 1) {
                if b.contains(i) {
                    let j = choose|j: int| 0 <= j < b.len() && b[j] == i;
                    if j < p.len() {
                        assert(p.contains(b[j]));
                    }
                }
                if i < n && is_boundary(w, i) {
                    if i == n - 1 {
                        assert(b[p.len() as int] == i);
                    } else {
                        assert(p.contains(i));
                        let j = choose|j: int| 0 <= j < p.len() && p[j] == i;
                        assert(b[j] == i);
                    }
                }
            } else {
                assert(p.contains(i) <==> i < n - 1 && is_boundary(w, i));
            }
        }
    } else {
        assert forall|i: int| #[trigger] b.contains(i) <==> i < n && is_boundary(w, i) by {}
    }
}

/// Every boundary of a word is listed among its boundaries, no other position
/// is, and the list ascends strictly.
pub proof fn boundaries_are_exact(w: Seq<char>)
    ensures
        ascending_within(w, boundaries(w)),
        forall|i: int| #[trigger] boundaries(w).contains(i) <==> is_boundary(w, i),
{
    boundaries_below_are_exact(w, w.len() as int);
}

/// Cutting a word at ascending positions loses nothing: the first `m` pieces,
/// put together, are the word up to where piece `m` begins.
proof fn pieces_prefix(w: Seq<char>, cuts: Seq<int>, m: int)
    requires
        ascending_within(w, cuts),
        0 <= m <= cuts.len(),
    ensures
        pieces(w, cuts).take(m).flatten() == w.subrange(0, piece_start(cuts, m)),
    decreases m,
{
    let ps = pieces(w, cuts);
    if m == 0 {
        assert(ps.take(0) =~= Seq::<Seq<char>>::empty());
        assert(ps.take(0).flatten() =~= w.subrange(0, 0));
    } else {
        pieces_prefix(w, cuts, m - 1);
        assert(ps.take(m) =~= ps.take(m - 1).push(ps[m - 1]));
        ps.take(m - 1).lemma_flatten_push(ps[m - 1]);
        assert(w.subrange(0, piece_start(cuts, m - 1)) + ps[m - 1] =~= w.subrange(
            0,
            piece_start(cuts, m),
        ));
    }
}

/// Cutting a word at ascending positions loses nothing: the pieces, put
/// together in order, are the word.
pub proof fn pieces_are_lossless(w: Seq<char>, cuts: Seq<int>)
    requires
        ascending_within(w, cuts),
    ensures
        pieces(w, cuts).flatten() == w,
{
    let ps = pieces(w, cuts);
    let m = cuts.len() as int;
    pieces_prefix(w, cuts, m);
    assert(ps =~= ps.take(m).push(ps[m]));
    ps.take(m).lemma_flatten_push(ps[m]);
    assert(w.subrange(0, piece_start(cuts, m)) + ps[m] =~= w);
}

/// The syllables of a word, put together in order, are the word.
pub proof fn syllables_are_lossless(w: Seq<char>)
    ensures
        syllables_of(w).flatten() == w,
{
    boundaries_are_exact(w);
    pieces_are_lossless(w, boundaries(w));
}

/// Every word has at least one syllable, and no syllable of a word that has
/// characters is empty.
pub proof fn syllables_are_nonempty(w: Seq<char>)
    ensures
        syllables_of(w).len() >= 1,
        w.len() > 0 ==> forall|k: int|
            0 <= k < syllables_of(w).len() ==> (#[trigger] syllables_of(w)[k]).len() > 0,
{
    boundaries_are_exact(w);
}

/// The empty word has one syllable, which is empty.
pub proof fn syllables_of_empty()
    ensures
        syllables_of(Seq::<char>::empty()) == seq![Seq::<char>::empty()],
{
    let w = Seq::<char>::empty();
    assert(boundaries(w) =~= Seq::<int>::empty());
    assert(syllables_of(w)[0] =~= w);
    assert(syllables_of(w) =~= seq![w]);
}

/// Each syllable is a stretch of the word: syllable `k` holds the characters
/// from where it begins to where it ends, and begins where syllable `k - 1`
/// ended.
pub proof fn syllables_are_contiguous(w: Seq<char>, k: int)
    requires
        0 <= k < syllables_of(w).len(),
    ensures
        0 <= piece_start(boundaries(w), k) <= piece_end(w, boundaries(w), k) <= w.len(),
        syllables_of(w)[k] == w.subrange(
            piece_start(boundaries(w), k),
            piece_end(w, boundaries(w), k),
        ),
        k > 0 ==> piece_start(boundaries(w), k) == piece_end(w, boundaries(w), k - 1),
{
    boundaries_are_exact(w);
}

/// The syllables before syllable `k`, put together, are the word up to where
/// syllable `k` begins, and those after it are the word from where it ends.
pub proof fn syllables_around(w: Seq<char>, k: int)
    requires
        0 <= k < syllables_of(w).len(),
    ensures
        syllables_of(w).take(k).flatten() == w.subrange(0, piece_start(boundaries(w), k)),
        syllables_of(w).skip(k + 1).flatten() == w.subrange(
            piece_end(w, boundaries(w), k),
            w.len() as int,
        ),
{
    let cuts = boundaries(w);
    let ps = syllables_of(w);
    let end = piece_end(w, cuts, k);
    boundaries_are_exact(w);
    pieces_prefix(w, cuts, k);
    syllables_are_lossless(w);
    let front = ps.take(k + 1).flatten();
    let back = ps.skip(k + 1).flatten();
    assert(ps =~= ps.take(k + 1) + ps.skip(k + 1));
    lemma_flatten_concat(ps.take(k + 1), ps.skip(k + 1));
    if k < cuts.len() {
        pieces_prefix(w, cuts, k + 1);
    } else {
        assert(ps.take(k + 1) =~= ps);
    }
    assert(front == w.subrange(0, end));
    assert(w == front + back);
    assert forall|i: int| 0 <= i < back.len() implies back[i] == w[end + i] by {
        assert((front + back)[end + i] == back[i]);
    }
    assert(back =~= w.subrange(end, w.len() as int));
}

/// Tells whether `x` is a vowel.
pub fn is_vowel(x: char) -> (r: bool)
    ensures
        r == vowel(x),
{
    match x {
        'a' | 'e' | 'i' | 'o' | 'u' => true,
        'A' | 'E' | 'I' | 'O' | 'U' => true,
        _ => false,
    }
}

/// Cuts `word` into its syllables.
///
/// The result is never empty, and its strings, put together in order, are
/// `word`. The empty word gives one empty syllable.
pub fn syllables(word: &str) -> (r: Vec<&str>)
    ensures
        r.deep_view() == syllables_of(word@),
        r.deep_view().flatten() == word@,
        r.len() >= 1,
{
    broadcast use vstd::string::group_string_axioms;

    let len = word.unicode_len();
    let mut out: Vec<&str> = Vec::new();
    let mut last_bound: usize = 0;
    let mut was_vowel = false;
    let mut i: usize = 0;
    let ghost mut cuts: Seq<int> = Seq::empty();
    for ch in it: word.chars()
        invariant
            it.seq() == word@,
            len == word@.len(),
            i == it.index(),
            was_vowel == (i > 0 && vowel(word@[i - 1])),
            cuts == boundaries_below(word@, i as int),
            last_bound == piece_start(cuts, cuts.len() as int),
            last_bound <= i,
            out.len() == cuts.len(),
            forall|k: int|
                0 <= k < out.len() ==> (#[trigger] out@[k])@ == word@.subrange(
                    piece_start(cuts, k),
                    cuts[k],
                ),
    {
        let v = is_vowel(ch);
        if was_vowel && !v && len - i >= 2 {
            out.push(word.substring_char(last_bound, i));
            last_bound = i;
            proof {
                cuts = cuts.push(i as int);
            }
        }
        was_vowel = v;
        i = i + 1;
    }
    out.push(word.substring_char(last_bound, len));
    proof {
        assert(out.deep_view() =~= syllables_of(word@));
        syllables_are_lossless(word@);
    }
    out
}

} // verus!
