//! Fuzzy matching shared by every picker's search, and the `‹›` markers round
//! matched characters.

use nucleo_matcher::pattern::{AtomKind, CaseMatching, Normalization, Pattern};
use nucleo_matcher::{Config, Matcher, Utf32Str};
use vstd::prelude::*;
use crate::text::chars_of;

verus! {

// ---- matching -----------------------------------------------------------------

/// `nucleo_matcher::Matcher`: scratch memory that a scoring pass uses again and
/// again.
#[verifier::external_type_specification]
#[verifier::external_body]
pub struct ExMatcher(Matcher);

/// `Pattern::score` of the pattern `query` on the text `hay`.
pub uninterp spec fn fuzzy_score(query: Seq<char>, hay: Seq<char>) -> Option<u32>;

/// `Pattern::indices` of the pattern `query` on the text `hay`: the score and
/// the positions of the matched characters, in no promised order.
pub uninterp spec fn fuzzy_indices(query: Seq<char>, hay: Seq<char>) -> Option<(u32, Seq<u32>)>;

/// The words of the pattern `query`, as `Pattern::parse` reads them: for each, whether
/// its letters may stand apart, and its letters.
pub uninterp spec fn pattern_words(query: Seq<char>) -> Seq<(bool, Seq<char>)>;

/// The letters of `hay` that are matched: those of `Utf32Str::new`.
pub uninterp spec fn text_letters(hay: Seq<char>) -> Seq<char>;

/// `chars::to_lower_case` of `c`: the letter that capitals and their like fold to.
pub uninterp spec fn folded(c: char) -> char;

/// `chars::normalize` of `c`: the letter without its accents.
pub uninterp spec fn unaccented(c: char) -> char;

/// `char::is_lowercase` of `c`.
pub uninterp spec fn lowercase(c: char) -> bool;

/// The longest query that is scored: up to this length the scores of its words add
/// up in 32 bits.
pub const MAX_QUERY: usize = 0x0420_0000;

/// The most letters of a text that are scored: the matcher counts them in 32 bits.
pub const MAX_LETTERS: usize = 0xffff_ffff;

// ---- scores that fit ------------------------------------------------------------

/// Up to this length the score of a word fits in 16 bits on every text.
pub const SURE_WORD: usize = 2520;

/// Whether the letter `c` of a text may match one of the word `w`: any beyond ASCII,
/// and one that `w` holds, as it stands or as a small letter.
pub open spec fn may_match(c: char, w: Seq<char>) -> bool {
    c as u32 >= 128 || w.contains(c) || ('A' <= c <= 'Z' && w.contains((c as u32 + 32) as char))
}

/// What a letter of ASCII is.
#[derive(Clone, Copy, PartialEq, Eq, Structural)]
pub enum Sort {
    White,
    Sign,
    Divider,
    Small,
    Capital,
    Digit,
}

/// What the letter `c` of ASCII is.
pub open spec fn sort_of(c: char) -> Sort {
    if 'a' <= c <= 'z' {
        Sort::Small
    } else if 'A' <= c <= 'Z' {
        Sort::Capital
    } else if '0' <= c <= '9' {
        Sort::Digit
    } else if c == ' ' || c == '\t' || c == '\n' || c == '\u{c}' || c == '\r' {
        Sort::White
    } else if c == '/' || c == ',' || c == ':' || c == ';' || c == '|' {
        Sort::Divider
    } else {
        Sort::Sign
    }
}

/// What a letter of the sort `s` is worth behind one of the sort `before`, over any
/// other: the first of a word more than one inside it.
pub open spec fn bonus(before: Sort, s: Sort) -> int {
    let word = s == Sort::Small || s == Sort::Capital || s == Sort::Digit;
    if word && before == Sort::White {
        10
    } else if word && before == Sort::Divider {
        9
    } else if word && before == Sort::Sign {
        8
    } else if (before == Sort::Small && s == Sort::Capital) || (before != Sort::Digit && s
        == Sort::Digit) {
        5
    } else if s == Sort::White {
        10
    } else if s == Sort::Sign {
        8
    } else {
        0
    }
}

/// The most that the letter `n - 1` of `h` is worth over any other.
pub open spec fn bonus_at(h: Seq<char>, n: int) -> int {
    if h[n - 1] as u32 >= 128 || (n > 1 && h[n - 2] as u32 >= 128) {
        10
    } else {
        bonus(
            if n > 1 {
                sort_of(h[n - 2])
            } else {
                Sort::White
            },
            sort_of(h[n - 1]),
        )
    }
}

/// The most that a letter is worth in the stretch of letters that may match and that
/// ends the first `n` of `h`.
pub open spec fn stretch_bonus(h: Seq<char>, w: Seq<char>, n: int) -> int
    decreases n,
{
    if n <= 0 || !may_match(h[n - 1], w) {
        0
    } else if stretch_bonus(h, w, n - 1) > bonus_at(h, n) {
        stretch_bonus(h, w, n - 1)
    } else {
        bonus_at(h, n)
    }
}

/// The most that the letter `n - 1` of `h` adds to a score.
pub open spec fn gain(h: Seq<char>, w: Seq<char>, n: int) -> int {
    16 + if stretch_bonus(h, w, n) < 4 && n > 1 && may_match(h[n - 2], w) {
        4
    } else {
        stretch_bonus(h, w, n)
    }
}

/// The most that the score can be behind the first `n` letters of `h`. A letter that
/// cannot match costs one at least.
pub open spec fn total(h: Seq<char>, w: Seq<char>, n: int) -> int
    decreases n,
{
    if n <= 0 {
        0
    } else if may_match(h[n - 1], w) {
        total(h, w, n - 1) + gain(h, w, n)
    } else if total(h, w, n - 1) > 0 {
        total(h, w, n - 1) - 1
    } else {
        0
    }
}

/// The most that the score can be anywhere in the first `n` letters of `h`.
pub open spec fn top_total(h: Seq<char>, w: Seq<char>, n: int) -> int
    decreases n,
{
    if n <= 0 {
        0
    } else if total(h, w, n) > top_total(h, w, n - 1) {
        total(h, w, n)
    } else {
        top_total(h, w, n - 1)
    }
}

/// The most that any one of the first `n` letters of `h` adds to a score.
pub open spec fn top_gain(h: Seq<char>, w: Seq<char>, n: int) -> int
    decreases n,
{
    if n <= 0 {
        16
    } else if may_match(h[n - 1], w) && gain(h, w, n) > top_gain(h, w, n - 1) {
        gain(h, w, n)
    } else {
        top_gain(h, w, n - 1)
    }
}

/// Whether the score of the word `w` on the letters `h` fits in 16 bits, by the most
/// that it can be, whichever letters match: this many times the best of them, or all
/// of them together. The first letter that matches is worth its bonus twice.
pub open spec fn score_fits(w: Seq<char>, h: Seq<char>) -> bool {
    let n = h.len() as int;
    ||| w.len() <= SURE_WORD
    ||| w.len() > n
    ||| (w.len() + 1) * top_gain(h, w, n) - 16 <= 0xffff
    ||| top_total(h, w, n) + 10 <= 0xffff
}

// ---- letters that are missed -----------------------------------------------------

/// Whether the letter `c` of a text is found where capitals do not count, and then
/// missed where accents do: a small letter that folds to another.
pub open spec fn missed(c: char) -> bool {
    lowercase(c) && folded(c) != c
}

/// Whether `w` holds a letter with an accent, which it is then matched with.
pub open spec fn accented(w: Seq<char>) -> bool {
    exists|i: int| 0 <= i < w.len() && unaccented(#[trigger] w[i]) != w[i]
}

/// Whether `w` holds a capital, which it is then matched with.
pub open spec fn capitalised(w: Seq<char>) -> bool {
    exists|i: int| 0 <= i < w.len() && folded(#[trigger] w[i]) != w[i]
}

/// The place of the first letter of `h` from `i` on that folds to `c`; the end where
/// there is none.
pub open spec fn first_folded(h: Seq<char>, c: char, i: int) -> int
    decreases h.len() - i,
{
    if i >= h.len() {
        h.len() as int
    } else if folded(h[i]) == c {
        i
    } else {
        first_folded(h, c, i + 1)
    }
}

/// The place behind the last of the first `n` letters of `h` that folds to `c`; the
/// start where there is none.
pub open spec fn last_folded(h: Seq<char>, c: char, n: int) -> int
    decreases n,
{
    if n <= 0 {
        0
    } else if folded(h[n - 1]) == c {
        n
    } else {
        last_folded(h, c, n - 1)
    }
}

/// `n` up to the next multiple of `k`.
pub open spec fn rounded_up(n: int, k: int) -> int {
    (n + k - 1) / k * k
}

/// Whether `n` letters are looked for among `len` in every way: where these are too
/// many for the matcher's memory, it takes the first way that it finds.
pub open spec fn matrix_fits(len: int, n: int) -> bool {
    &&& len <= 65_535
    &&& n <= 2048
    &&& len * n <= 102_400
    &&& rounded_up(rounded_up(5 * len, 2) + 2 * n, 8) + 8 * (len + 1 - n) + (len + 1 - n) * n
        <= 133_120
}

/// Whether the matcher fails on the word `w` and the letters `h`: it is looked for in
/// every way, with its accents and without regard to capitals, from a first letter on
/// that is then missed.
pub open spec fn misfolds(w: Seq<char>, h: Seq<char>) -> bool {
    let first = first_folded(h, w[0], 0);
    let end = last_folded(h, w.last(), h.len() as int);
    &&& 2 <= w.len() < h.len()
    &&& accented(w)
    &&& !capitalised(w)
    &&& first < h.len()
    &&& missed(h[first])
    &&& end - first > w.len()
    &&& matrix_fits(end - first, w.len() as int)
}

/// Whether the word `w`, whose letters may stand apart where `apart`, can be scored on
/// the letters `h`.
pub open spec fn word_scorable(apart: bool, w: Seq<char>, h: Seq<char>) -> bool {
    &&& score_fits(w, h)
    &&& apart && w.len() < h.len() ==> w.len() * h.len() <= usize::MAX && !misfolds(w, h)
}

/// Whether `query` can be scored on `hay`.
pub open spec fn scorable(query: Seq<char>, hay: Seq<char>) -> bool {
    let words = pattern_words(query);
    &&& query.len() <= MAX_QUERY
    &&& text_letters(hay).len() <= MAX_LETTERS
    &&& forall|i: int|
        0 <= i < words.len() ==> word_scorable(
            (#[trigger] words[i]).0,
            words[i].1,
            text_letters(hay),
        )
}

// ---- scoring ------------------------------------------------------------------------

/// The score of `query` on `hay`, if it matches. What cannot be scored does not
/// match.
pub open spec fn score_of(query: Seq<char>, hay: Seq<char>) -> Option<u32> {
    if scorable(query, hay) {
        fuzzy_score(query, hay)
    } else {
        None
    }
}

/// The score of `query` on `hay` and the positions of the matched characters,
/// if it matches. What cannot be scored does not match.
pub open spec fn match_of(query: Seq<char>, hay: Seq<char>) -> Option<(u32, Seq<u32>)> {
    if scorable(query, hay) {
        fuzzy_indices(query, hay)
    } else {
        None
    }
}

/// A fresh matcher with fzf-style defaults: `Matcher::new`. Use one across a
/// scoring pass. Nothing is claimed of it: no result depends on what it holds.
#[verifier::external_body]
pub fn matcher() -> (m: Matcher) {
    Matcher::new(Config::DEFAULT)
}

/// `Pattern::score`, with smart case and smart normalisation: a function of the
/// pattern and the text alone, since the matcher's settings are set first and
/// its memory only serves as scratch space. Left out is what makes it panic: scores
/// and lengths that may leave their bits, and words on which its two passes differ.
#[verifier::external_body]
fn pattern_score(m: &mut Matcher, query: &str, hay: &str) -> (r: Option<u32>)
    requires
        scorable(query@, hay@),
    ensures
        r == fuzzy_score(query@, hay@),
{
    m.config = Config::DEFAULT;
    let mut buf: Vec<char> = Vec::new();
    let p = Pattern::parse(query, CaseMatching::Smart, Normalization::Smart);
    p.score(Utf32Str::new(hay, &mut buf), m)
}

/// `Pattern::indices`, with smart case and smart normalisation: a function of
/// the pattern and the text alone. The positions count from the start of the
/// text; nothing is claimed of their order, and one may come twice. Left out is what
/// [`pattern_score`] leaves out.
#[verifier::external_body]
fn pattern_indices(m: &mut Matcher, query: &str, hay: &str) -> (r: Option<(u32, Vec<u32>)>)
    requires
        scorable(query@, hay@),
    ensures
        match r {
            Some(found) => fuzzy_indices(query@, hay@) == Some((found.0, found.1@)),
            None => fuzzy_indices(query@, hay@) is None,
        },
{
    m.config = Config::DEFAULT;
    let mut buf: Vec<char> = Vec::new();
    let mut found: Vec<u32> = Vec::new();
    let p = Pattern::parse(query, CaseMatching::Smart, Normalization::Smart);
    let score = p.indices(Utf32Str::new(hay, &mut buf), m, &mut found)?;
    Some((score, found))
}

/// `nucleo_matcher::chars::to_lower_case`: a look-up in a table, named by [`folded`].
pub assume_specification[ nucleo_matcher::chars::to_lower_case ](c: char) -> (r: char)
    ensures
        r == folded(c),
;

/// `nucleo_matcher::chars::normalize`: a look-up in a table, named by [`unaccented`].
pub assume_specification[ nucleo_matcher::chars::normalize ](c: char) -> (r: char)
    ensures
        r == unaccented(c),
;

/// `char::is_lowercase`: a property of the letter alone, named by [`lowercase`].
pub assume_specification[ char::is_lowercase ](c: char) -> (r: bool)
    ensures
        r == lowercase(c),
;

/// What [`words_of`] returns, in plain values.
pub open spec fn word_views(v: Seq<(bool, Vec<char>)>) -> Seq<(bool, Seq<char>)> {
    Seq::new(v.len(), |i: int| (v[i].0, v[i].1@))
}

/// `Pattern::parse`, with smart case and smart normalisation, as the words that it
/// gives: whether one is of the kind `AtomKind::Fuzzy`, and its letters. A function of
/// the query alone, named by [`pattern_words`].
#[verifier::external_body]
fn words_of(query: &str) -> (words: Vec<(bool, Vec<char>)>)
    ensures
        word_views(words@) == pattern_words(query@),
{
    let p = Pattern::parse(query, CaseMatching::Smart, Normalization::Smart);
    p.atoms
        .iter()
        .map(|a| (matches!(a.kind, AtomKind::Fuzzy), a.needle_text().chars().collect()))
        .collect()
}

/// `Utf32Str::new`, as the letters that it holds: a function of the text alone, named
/// by [`text_letters`].
#[verifier::external_body]
fn letters_of(hay: &str) -> (letters: Vec<char>)
    ensures
        letters@ == text_letters(hay@),
{
    let mut buf: Vec<char> = Vec::new();
    Utf32Str::new(hay, &mut buf).chars().collect()
}

/// Whether `w` holds `c`.
fn holds(w: &Vec<char>, c: char) -> (r: bool)
    ensures
        r == w@.contains(c),
{
    let mut i: usize = 0;
    while i < w.len()
        invariant
            i <= w@.len(),
            forall|j: int| 0 <= j < i ==> #[trigger] w@[j] != c,
        decreases w@.len() - i,
    {
        if w[i] == c {
            return true;
        }
        i += 1;
    }
    false
}

/// Whether the letter `c` of a text may match one of the word `w`.
fn might_match(c: char, w: &Vec<char>) -> (r: bool)
    ensures
        r == may_match(c, w@),
{
    if c as u32 >= 128 || holds(w, c) {
        true
    } else if 'A' <= c && c <= 'Z' {
        let small: u8 = c as u8 + 32;
        holds(w, small as char)
    } else {
        false
    }
}

/// What the letter `c` of ASCII is.
fn find_sort(c: char) -> (s: Sort)
    ensures
        s == sort_of(c),
{
    if 'a' <= c && c <= 'z' {
        Sort::Small
    } else if 'A' <= c && c <= 'Z' {
        Sort::Capital
    } else if '0' <= c && c <= '9' {
        Sort::Digit
    } else if c == ' ' || c == '\t' || c == '\n' || c == '\u{c}' || c == '\r' {
        Sort::White
    } else if c == '/' || c == ',' || c == ':' || c == ';' || c == '|' {
        Sort::Divider
    } else {
        Sort::Sign
    }
}

/// The most that the letter `n - 1` of `h` is worth over any other.
fn find_bonus(h: &Vec<char>, n: usize) -> (b: u64)
    requires
        0 < n <= h@.len(),
    ensures
        b == bonus_at(h@, n as int),
        b <= 10,
{
    if h[n - 1] as u32 >= 128 || (n > 1 && h[n - 2] as u32 >= 128) {
        return 10;
    }
    let before = if n > 1 {
        find_sort(h[n - 2])
    } else {
        Sort::White
    };
    let s = find_sort(h[n - 1]);
    let word = s == Sort::Small || s == Sort::Capital || s == Sort::Digit;
    if word && before == Sort::White {
        10
    } else if word && before == Sort::Divider {
        9
    } else if word && before == Sort::Sign {
        8
    } else if (before == Sort::Small && s == Sort::Capital) || (before != Sort::Digit && s
        == Sort::Digit) {
        5
    } else if s == Sort::White {
        10
    } else if s == Sort::Sign {
        8
    } else {
        0
    }
}

/// Whether the score of the word `w` on the letters `h` fits in 16 bits.
fn does_score_fit(w: &Vec<char>, h: &Vec<char>) -> (r: bool)
    requires
        h@.len() <= MAX_LETTERS,
    ensures
        r == score_fits(w@, h@),
{
    if w.len() <= SURE_WORD || w.len() > h.len() {
        return true;
    }
    let mut stretch: u64 = 0;
    let mut sum: u64 = 0;
    let mut top_sum: u64 = 0;
    let mut top: u64 = 16;
    let mut may_before = false;
    let mut n: usize = 0;
    while n < h.len()
        invariant
            n <= h@.len() <= MAX_LETTERS,
            stretch == stretch_bonus(h@, w@, n as int),
            stretch <= 10,
            sum == total(h@, w@, n as int),
            top_sum == top_total(h@, w@, n as int),
            top == top_gain(h@, w@, n as int),
            sum <= 26 * n,
            top_sum <= 26 * n,
            16 <= top <= 26,
            may_before == (n > 0 && may_match(h@[n - 1], w@)),
        decreases h@.len() - n,
    {
        n += 1;
        if might_match(h[n - 1], w) {
            let b = find_bonus(h, n);
            if b >= stretch {
                stretch = b;
            }
            let more: u64 = if stretch < 4 && may_before {
                4
            } else {
                stretch
            };
            assert(16 + more == gain(h@, w@, n as int));
            sum = sum + 16 + more;
            if 16 + more > top {
                top = 16 + more;
            }
            may_before = true;
        } else {
            stretch = 0;
            if sum > 0 {
                sum = sum - 1;
            }
            may_before = false;
        }
        if sum > top_sum {
            top_sum = sum;
        }
    }
    let longer: u64 = w.len() as u64 + 1;
    assert(16 <= longer * top <= 0x1_0000_0000 * 26) by (nonlinear_arith)
        requires
            1 <= longer <= 0x1_0000_0000,
            16 <= top <= 26,
    ;
    longer * top - 16 <= 0xffff || top_sum + 10 <= 0xffff
}

/// Whether `w` holds a letter with an accent.
fn is_accented(w: &Vec<char>) -> (r: bool)
    ensures
        r == accented(w@),
{
    let mut i: usize = 0;
    while i < w.len()
        invariant
            i <= w@.len(),
            forall|j: int| 0 <= j < i ==> unaccented(#[trigger] w@[j]) == w@[j],
        decreases w@.len() - i,
    {
        if nucleo_matcher::chars::normalize(w[i]) != w[i] {
            return true;
        }
        i += 1;
    }
    false
}

/// Whether `w` holds a capital.
fn is_capitalised(w: &Vec<char>) -> (r: bool)
    ensures
        r == capitalised(w@),
{
    let mut i: usize = 0;
    while i < w.len()
        invariant
            i <= w@.len(),
            forall|j: int| 0 <= j < i ==> folded(#[trigger] w@[j]) == w@[j],
        decreases w@.len() - i,
    {
        if nucleo_matcher::chars::to_lower_case(w[i]) != w[i] {
            return true;
        }
        i += 1;
    }
    false
}

/// Whether `n` letters are looked for among `len` in every way.
fn does_matrix_fit(len: usize, n: usize) -> (r: bool)
    requires
        n <= len,
    ensures
        r == matrix_fits(len as int, n as int),
{
    if len > 65_535 || n > 2048 {
        return false;
    }
    let len: u64 = len as u64;
    let n: u64 = n as u64;
    assert(len * n <= 65_535 * 2048) by (nonlinear_arith)
        requires
            len <= 65_535,
            n <= 2048,
    ;
    let ways: u64 = len + 1 - n;
    assert(ways * n <= 65_536 * 2048) by (nonlinear_arith)
        requires
            ways <= 65_536,
            n <= 2048,
    ;
    let rows: u64 = (5 * len + 1) / 2 * 2 + 2 * n;
    len * n <= 102_400 && (rows + 7) / 8 * 8 + 8 * ways + ways * n <= 133_120
}

/// Whether the matcher fails on the word `w` and the letters `h`.
fn does_misfold(w: &Vec<char>, h: &Vec<char>) -> (r: bool)
    ensures
        r == misfolds(w@, h@),
{
    if w.len() < 2 || w.len() >= h.len() || !is_accented(w) || is_capitalised(w) {
        return false;
    }
    let mut first: usize = 0;
    while first < h.len() && nucleo_matcher::chars::to_lower_case(h[first]) != w[0]
        invariant
            w@.len() >= 2,
            first <= h@.len(),
            first_folded(h@, w@[0], 0) == first_folded(h@, w@[0], first as int),
        decreases h@.len() - first,
    {
        first += 1;
    }
    if first == h.len() {
        return false;
    }
    let c = h[first];
    if !c.is_lowercase() || nucleo_matcher::chars::to_lower_case(c) == c {
        return false;
    }
    let last = w[w.len() - 1];
    let mut end: usize = h.len();
    while end > 0 && nucleo_matcher::chars::to_lower_case(h[end - 1]) != last
        invariant
            end <= h@.len(),
            last_folded(h@, last, h@.len() as int) == last_folded(h@, last, end as int),
        decreases end,
    {
        end -= 1;
    }
    end > first && end - first > w.len() && does_matrix_fit(end - first, w.len())
}

/// Whether `a * b` can be told in a machine word.
fn is_product_small(a: usize, b: usize) -> (r: bool)
    ensures
        r == (a * b <= usize::MAX),
{
    assert(a * b <= 0xffff_ffff_ffff_ffff * 0xffff_ffff_ffff_ffff) by (nonlinear_arith)
        requires
            a <= 0xffff_ffff_ffff_ffff,
            b <= 0xffff_ffff_ffff_ffff,
    ;
    (a as u128) * (b as u128) <= usize::MAX as u128
}

/// Whether `query` can be scored on `hay`.
fn can_score(query: &str, hay: &str) -> (r: bool)
    ensures
        r == scorable(query@, hay@),
{
    let letters = letters_of(hay);
    if chars_of(query).len() > MAX_QUERY || letters.len() > MAX_LETTERS {
        return false;
    }
    let words = words_of(query);
    let mut i: usize = 0;
    while i < words.len()
        invariant
            i <= words@.len(),
            word_views(words@) == pattern_words(query@),
            letters@ == text_letters(hay@),
            letters@.len() <= MAX_LETTERS,
            forall|j: int|
                0 <= j < i ==> word_scorable(
                    (#[trigger] pattern_words(query@)[j]).0,
                    pattern_words(query@)[j].1,
                    text_letters(hay@),
                ),
        decreases words@.len() - i,
    {
        let w = &words[i].1;
        assert(pattern_words(query@)[i as int] == (words@[i as int].0, w@));
        if !does_score_fit(w, &letters) {
            return false;
        }
        if words[i].0 && w.len() < letters.len() && (!is_product_small(w.len(), letters.len())
            || does_misfold(w, &letters)) {
            return false;
        }
        i += 1;
    }
    true
}

/// The score of `query` on `hay`, if it matches.
pub fn score(m: &mut Matcher, query: &str, hay: &str) -> (r: Option<u32>)
    ensures
        r == score_of(query@, hay@),
{
    if can_score(query, hay) {
        pattern_score(m, query, hay)
    } else {
        None
    }
}

/// The score of `query` on `hay` and the positions of the matched characters,
/// if it matches.
pub fn find_match(m: &mut Matcher, query: &str, hay: &str) -> (r: Option<(u32, Vec<u32>)>)
    ensures
        match r {
            Some(found) => match_of(query@, hay@) == Some((found.0, found.1@)),
            None => match_of(query@, hay@) is None,
        },
{
    if can_score(query, hay) {
        pattern_indices(m, query, hay)
    } else {
        None
    }
}

// ---- highlight markers -------------------------------------------------------

/// Whether the first `n` of `indices` grow strictly.
pub open spec fn grows(indices: Seq<u32>, n: int) -> bool {
    forall|a: int, b: int| 0 <= a < b < n ==> #[trigger] indices[a] < #[trigger] indices[b]
}

/// Whether the character at `i` is a matched one: one of `indices`, as far as
/// these grow.
pub open spec fn is_hit(indices: Seq<u32>, i: int) -> bool {
    exists|j: int| 0 <= j < indices.len() && #[trigger] indices[j] == i && grows(indices, j + 1)
}

/// For each of the first `n` characters, whether it is a matched one.
pub open spec fn hits(indices: Seq<u32>, n: nat) -> Seq<bool> {
    Seq::new(n, |i: int| is_hit(indices, i))
}

/// For each of the first `n` characters, whether its place is one of `indices`.
pub open spec fn picked(indices: Seq<u32>, n: nat) -> Seq<bool> {
    Seq::new(n, |i: int| exists|j: int| 0 <= j < indices.len() && #[trigger] indices[j] == i)
}

/// Where the positions that a search found grow, a character is hit exactly where its
/// place is one of them.
pub proof fn found_positions_are_hit(indices: Seq<u32>, n: nat)
    requires
        grows(indices, indices.len() as int),
    ensures
        hits(indices, n) == picked(indices, n),
{
    assert forall|i: int| 0 <= i < n implies hits(indices, n)[i] == picked(indices, n)[i] by {
        if exists|j: int| 0 <= j < indices.len() && #[trigger] indices[j] == i {
            let j = choose|j: int| 0 <= j < indices.len() && #[trigger] indices[j] == i;
            assert(grows(indices, j + 1));
        }
    }
}

/// The character at `i` with the markers that open and close a run of hits.
pub open spec fn marked_char(s: Seq<char>, hit: Seq<bool>, i: int) -> Seq<char> {
    (if hit[i] && (i == 0 || !hit[i - 1]) {
        seq!['‹']
    } else {
        seq![]
    }) + seq![s[i]] + (if hit[i] && (i + 1 == s.len() || !hit[i + 1]) {
        seq!['›']
    } else {
        seq![]
    })
}

/// The first `n` characters of `s` with markers round each run of hits.
pub open spec fn marked_up_to(s: Seq<char>, hit: Seq<bool>, n: int) -> Seq<char>
    decreases n,
{
    if n <= 0 {
        seq![]
    } else {
        marked_up_to(s, hit, n - 1) + marked_char(s, hit, n - 1)
    }
}

/// `s` with markers round each run of hits.
pub open spec fn marked(s: Seq<char>, hit: Seq<bool>) -> Seq<char> {
    marked_up_to(s, hit, s.len() as int)
}

/// The number at `next` is hit at its own place, if the numbers grow up to it.
proof fn lemma_hit_next(indices: Seq<u32>, next: int, i: int)
    requires
        0 <= next <= indices.len(),
        grows(indices, next),
        forall|j: int| 0 <= j < next ==> #[trigger] indices[j] < i,
        next < indices.len() && grows(indices, next + 1) ==> indices[next] >= i,
    ensures
        is_hit(indices, i) <==> next < indices.len() && indices[next] == i && grows(
            indices,
            next + 1,
        ),
{
    if is_hit(indices, i) {
        let j = choose|j: int|
            0 <= j < indices.len() && #[trigger] indices[j] == i && grows(indices, j + 1);
        assert(j >= next);
        if j > next {
            assert(indices[next] < indices[j]);
            assert forall|a: int, b: int| 0 <= a < b < next + 1 implies #[trigger] indices[a]
                < #[trigger] indices[b] by {}
            assert(grows(indices, next + 1));
        }
    }
}

/// Wrap each run of matched characters of `s` in `‹…›`. `indices` holds the
/// positions of the matched characters, ascending; one that does not grow ends
/// the marking.
pub fn highlight_indices(s: &str, indices: &Vec<u32>) -> (out: String)
    requires
        s@.len() <= 0x1_0000_0000,
    ensures
        out@ == marked(s@, hits(indices@, s@.len())),
{
    let v = chars_of(s);
    let ghost hit = hits(indices@, s@.len());
    let mut out = String::new();
    let mut in_match = false;
    let mut next: usize = 0;
    let mut i: usize = 0;
    assert(out@ + (if in_match { seq!['›'] } else { seq![] }) == marked_up_to(s@, hit, 0));
    while i < v.len()
        invariant
            i <= v@.len() <= 0x1_0000_0000,
            v@ == s@,
            hit == hits(indices@, s@.len()),
            next <= indices@.len(),
            grows(indices@, next as int),
            forall|j: int| 0 <= j < next ==> #[trigger] indices@[j] < i,
            next < indices@.len() && grows(indices@, next + 1) ==> indices@[next as int] >= i,
            in_match == (i > 0 && hit[i - 1]),
            in_match ==> (i == s@.len() ==> out@.push('›') == marked_up_to(s@, hit, i as int)),
            in_match ==> (i < s@.len() ==> out@ + (if hit[i as int] {
                seq![]
            } else {
                seq!['›']
            }) == marked_up_to(s@, hit, i as int)),
            !in_match ==> out@ == marked_up_to(s@, hit, i as int),
        decreases v@.len() - i,
    {
        let ghost start = marked_up_to(s@, hit, i as int);
        let ghost was = out@;
        proof {
            lemma_hit_next(indices@, next as int, i as int);
        }
        let c = v[i];
        assert(i as u64 <= 0xffff_ffff);
        if next < indices.len() && indices[next] as u64 == i as u64 {
            let ghost grown = grows(indices@, next + 1);
            assert(grown) by {
                assert forall|a: int, b: int| 0 <= a < b < next + 1 implies #[trigger] indices@[a]
                    < #[trigger] indices@[b] by {
                    if b == next {
                        assert(indices@[a] < i);
                    }
                }
            }
            assert(hit[i as int]);
            if !in_match {
                out.push('‹');
                in_match = true;
            }
            out.push(c);
            next += 1;
            proof {
                let m = marked_char(s@, hit, i as int);
                let more = i + 1 < s@.len() && hit[i + 1];
                if more {
                    assert(out@ == start + m);
                    assert(out@ + Seq::<char>::empty() == out@);
                } else {
                    assert(out@.push('›') == start + m);
                    assert(out@ + seq!['›'] == out@.push('›'));
                }
                if next < indices@.len() && grows(indices@, next + 1) {
                    assert(indices@[next - 1] < indices@[next as int]);
                }
            }
        } else {
            assert(!hit[i as int]);
            if in_match {
                out.push('›');
                in_match = false;
            }
            assert(out@ == start);
            out.push(c);
            assert(out@ == start + marked_char(s@, hit, i as int));
        }
        i += 1;
    }
    if in_match {
        out.push('›');
    }
    out
}

} // verus!
