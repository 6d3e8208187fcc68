//! Character-level text functions: trimming, padding, splitting and
//! joining.
//!
//! Contracts speak of a string as the sequence of its characters.

use vstd::prelude::*;

verus! {

/// `String::push` appends one character and changes nothing else.
pub assume_specification[ String::push ](s: &mut String, c: char)
    ensures
        final(s)@ == old(s)@.push(c),
;

/// `str::eq` compares two strings character by character.
pub assume_specification[ <str as PartialEq>::eq ](a: &str, b: &str) -> (r: bool)
    ensures
        r == (a@ == b@),
;

// ---- sequences of characters -----------------------------------------------

/// The characters of `s`, in order.
pub fn chars_of(s: &str) -> (v: Vec<char>)
    ensures
        v@ == s@,
{
    let mut v: Vec<char> = Vec::new();
    for c in it: s.chars()
        invariant
            it.seq() == s@,
            v@ == s@.take(it.index()),
    {
        v.push(c);
        assert(s@.take(it.index()).push(c) == s@.take(it.index() + 1));
    }
    v
}

/// The string made of the characters `from..to` of `v`.
pub fn substring(v: &Vec<char>, from: usize, to: usize) -> (s: String)
    requires
        from <= to <= v@.len(),
    ensures
        s@ == v@.subrange(from as int, to as int),
{
    let mut s = String::new();
    let mut i: usize = from;
    while i < to
        invariant
            from <= i <= to <= v@.len(),
            s@ == v@.subrange(from as int, i as int),
        decreases to - i,
    {
        s.push(v[i]);
        assert(v@.subrange(from as int, i as int).push(v@[i as int]) == v@.subrange(
            from as int,
            i + 1,
        ));
        i += 1;
    }
    s
}

/// The views of the strings of `v`.
pub open spec fn views(v: Seq<String>) -> Seq<Seq<char>> {
    Seq::new(v.len(), |i: int| v[i]@)
}

/// The view of an optional string.
pub open spec fn opt_view(o: Option<String>) -> Option<Seq<char>> {
    match o {
        Some(s) => Some(s@),
        None => None,
    }
}

/// A copy of an optional string.
pub fn opt_copy(o: &Option<String>) -> (r: Option<String>)
    ensures
        r == *o,
{
    match o {
        Some(s) => Some(s.clone()),
        None => None,
    }
}

/// A copy of a list of strings.
pub fn copy_strings(v: &Vec<String>) -> (r: Vec<String>)
    ensures
        views(r@) == views(v@),
        r@ == v@,
{
    let mut r: Vec<String> = Vec::new();
    let mut i: usize = 0;
    while i < v.len()
        invariant
            i <= v@.len(),
            r@ == v@.take(i as int),
        decreases v@.len() - i,
    {
        r.push(v[i].clone());
        assert(v@.take(i as int).push(v@[i as int]) == v@.take(i + 1));
        i += 1;
    }
    assert(v@.take(v@.len() as int) == v@);
    r
}

/// Whether one of the strings of `v` is `s`.
pub fn contains_string(v: &Vec<String>, s: &str) -> (r: bool)
    ensures
        r == views(v@).contains(s@),
{
    let mut i: usize = 0;
    while i < v.len()
        invariant
            i <= v@.len(),
            forall|j: int| 0 <= j < i ==> views(v@)[j] != s@,
        decreases v@.len() - i,
    {
        if v[i].as_str().eq(s) {
            assert(views(v@)[i as int] == s@);
            return true;
        }
        i += 1;
    }
    false
}

// ---- classes of characters --------------------------------------------------

/// The Unicode `White_Space` characters.
pub open spec fn is_white(c: char) -> bool {
    ||| '\u{9}' <= c <= '\u{d}'
    ||| c == ' '
    ||| c == '\u{85}'
    ||| c == '\u{a0}'
    ||| c == '\u{1680}'
    ||| '\u{2000}' <= c <= '\u{200a}'
    ||| c == '\u{2028}'
    ||| c == '\u{2029}'
    ||| c == '\u{202f}'
    ||| c == '\u{205f}'
    ||| c == '\u{3000}'
}

/// Whether `c` is a Unicode white-space character.
pub fn is_whitespace(c: char) -> (r: bool)
    ensures
        r == is_white(c),
{
    ('\u{9}' <= c && c <= '\u{d}') || c == ' ' || c == '\u{85}' || c == '\u{a0}' || c == '\u{1680}'
        || ('\u{2000}' <= c && c <= '\u{200a}') || c == '\u{2028}' || c == '\u{2029}' || c
        == '\u{202f}' || c == '\u{205f}' || c == '\u{3000}'
}

/// The Unicode control characters: C0, DEL and C1.
pub open spec fn is_control(c: char) -> bool {
    c <= '\u{1f}' || '\u{7f}' <= c <= '\u{9f}'
}

/// `c` with an ASCII capital replaced by its small letter.
pub open spec fn lower(c: char) -> char {
    if 'A' <= c <= 'Z' {
        ((c as u8 + 32) as u8) as char
    } else {
        c
    }
}

/// `s` with every ASCII capital replaced by its small letter.
pub open spec fn lowered(s: Seq<char>) -> Seq<char> {
    Seq::new(s.len(), |i: int| lower(s[i]))
}

/// `c` with an ASCII capital replaced by its small letter.
pub fn lower_char(c: char) -> (r: char)
    ensures
        r == lower(c),
{
    if 'A' <= c && c <= 'Z' {
        (c as u8 + 32) as char
    } else {
        c
    }
}

/// `s` with every ASCII capital replaced by its small letter.
pub fn to_lower(s: &str) -> (r: String)
    ensures
        r@ == lowered(s@),
{
    let v = chars_of(s);
    let mut r = String::new();
    let mut i: usize = 0;
    while i < v.len()
        invariant
            i <= v@.len(),
            v@ == s@,
            r@ == lowered(s@).take(i as int),
        decreases v@.len() - i,
    {
        r.push(lower_char(v[i]));
        assert(lowered(s@).take(i as int).push(lower(s@[i as int])) == lowered(s@).take(i + 1));
        i += 1;
    }
    assert(lowered(s@).take(s@.len() as int) == lowered(s@));
    r
}

// ---- trimming ---------------------------------------------------------------

/// `s` without its leading white space.
pub open spec fn trimmed_start(s: Seq<char>) -> Seq<char>
    decreases s.len(),
{
    if s.len() > 0 && is_white(s[0]) {
        trimmed_start(s.drop_first())
    } else {
        s
    }
}

/// `s` without its trailing white space.
pub open spec fn trimmed_end(s: Seq<char>) -> Seq<char>
    decreases s.len(),
{
    if s.len() > 0 && is_white(s.last()) {
        trimmed_end(s.drop_last())
    } else {
        s
    }
}

/// `s` without white space at either end.
pub open spec fn trimmed(s: Seq<char>) -> Seq<char> {
    trimmed_end(trimmed_start(s))
}

/// The first index of `v` that does not hold white space, or its length.
pub fn start_of_text(v: &Vec<char>) -> (k: usize)
    ensures
        k <= v@.len(),
        trimmed_start(v@) == v@.skip(k as int),
{
    let mut k: usize = 0;
    assert(v@.skip(0) == v@);
    while k < v.len() && is_whitespace(v[k])
        invariant
            k <= v@.len(),
            trimmed_start(v@) == trimmed_start(v@.skip(k as int)),
        decreases v@.len() - k,
    {
        assert(v@.skip(k as int).drop_first() == v@.skip(k + 1));
        k += 1;
    }
    k
}

/// The end of the text in `v[from..to]`: the white space behind it left out.
pub fn end_of_text(v: &Vec<char>, from: usize, to: usize) -> (k: usize)
    requires
        from <= to <= v@.len(),
    ensures
        from <= k <= to,
        trimmed_end(v@.subrange(from as int, to as int)) == v@.subrange(from as int, k as int),
{
    let mut k: usize = to;
    while from < k && is_whitespace(v[k - 1])
        invariant
            from <= k <= to <= v@.len(),
            trimmed_end(v@.subrange(from as int, to as int)) == trimmed_end(
                v@.subrange(from as int, k as int),
            ),
        decreases k,
    {
        assert(v@.subrange(from as int, k as int).drop_last() == v@.subrange(from as int, k - 1));
        k -= 1;
    }
    k
}

/// `s` without white space at either end.
pub fn trim(s: &str) -> (r: String)
    ensures
        r@ == trimmed(s@),
{
    let v = chars_of(s);
    let a = start_of_text(&v);
    let b = end_of_text(&v, a, v.len());
    assert(v@.skip(a as int) == v@.subrange(a as int, v@.len() as int));
    substring(&v, a, b)
}

// ---- padding and clipping ---------------------------------------------------

/// `n` spaces.
pub open spec fn spaces(n: int) -> Seq<char> {
    Seq::new((if n > 0 { n } else { 0 }) as nat, |i: int| ' ')
}

/// `s` with spaces before it, up to `width` characters.
pub open spec fn right_aligned(s: Seq<char>, width: int) -> Seq<char> {
    spaces(width - s.len()) + s
}

/// `s` with spaces behind it, up to `width` characters.
pub open spec fn left_aligned(s: Seq<char>, width: int) -> Seq<char> {
    s + spaces(width - s.len())
}

/// `n` spaces.
pub fn blank(n: usize) -> (r: String)
    ensures
        r@ == spaces(n as int),
{
    let mut r = String::new();
    let mut i: usize = 0;
    while i < n
        invariant
            i <= n,
            r@ == spaces(i as int),
        decreases n - i,
    {
        r.push(' ');
        i += 1;
        assert(spaces(i - 1).push(' ') == spaces(i as int));
    }
    r
}

/// `s` with spaces before it, up to `width` characters.
pub fn pad_left(s: &str, width: usize) -> (r: String)
    ensures
        r@ == right_aligned(s@, width as int),
{
    let n: usize = chars_of(s).len();
    let mut r = blank(if n < width { width - n } else { 0 });
    assert(r@ == spaces(width - s@.len()));
    r.append(s);
    r
}

/// `s` with spaces behind it, up to `width` characters.
pub fn pad_right(s: &str, width: usize) -> (r: String)
    ensures
        r@ == left_aligned(s@, width as int),
{
    let n: usize = chars_of(s).len();
    let gap = blank(if n < width { width - n } else { 0 });
    assert(gap@ == spaces(width - s@.len()));
    let mut r = s.to_owned();
    r.append(gap.as_str());
    r
}

/// `s` cut down to `max` characters, the last of them an ellipsis.
pub open spec fn clipped(s: Seq<char>, max: int) -> Seq<char> {
    if s.len() <= max {
        s
    } else if max > 0 {
        s.take(max - 1).push('…')
    } else {
        seq!['…']
    }
}

/// Trim a column value to `max` characters, marking the cut with an ellipsis.
pub fn clip(s: &str, max: usize) -> (r: String)
    ensures
        r@ == clipped(s@, max as int),
{
    let v = chars_of(s);
    if v.len() <= max {
        s.to_owned()
    } else {
        let keep: usize = if max > 0 { max - 1 } else { 0 };
        let mut r = substring(&v, 0, keep);
        r.push('…');
        assert(v@.subrange(0, keep as int) == v@.take(keep as int));
        assert(max == 0 ==> r@ == seq!['…']);
        r
    }
}

/// A space and the text behind it, where there is one.
pub open spec fn spaced(o: Option<Seq<char>>) -> Seq<char> {
    match o {
        Some(s) => seq![' '] + s,
        None => seq![],
    }
}

/// Each of `parts` behind a space.
pub open spec fn all_spaced(parts: Seq<Seq<char>>) -> Seq<char>
    decreases parts.len(),
{
    if parts.len() == 0 {
        seq![]
    } else {
        all_spaced(parts.drop_last()) + spaced(Some(parts.last()))
    }
}

/// Append a space and `s` to `out`.
pub fn push_spaced(out: &mut String, s: &str)
    ensures
        final(out)@ == old(out)@ + spaced(Some(s@)),
{
    let ghost before = out@;
    out.push(' ');
    out.append(s);
    assert(out@ == before + spaced(Some(s@)));
}

/// Append a space and the text to `out`, where there is one.
pub fn push_spaced_opt(out: &mut String, o: &Option<String>)
    ensures
        final(out)@ == old(out)@ + spaced(opt_view(*o)),
{
    match o {
        Some(s) => push_spaced(out, s.as_str()),
        None => {
            assert(out@ + Seq::<char>::empty() == out@);
        },
    }
}

/// Append each of `parts` behind a space to `out`.
pub fn push_all_spaced(out: &mut String, parts: &Vec<String>)
    ensures
        final(out)@ == old(out)@ + all_spaced(views(parts@)),
{
    let ghost before = out@;
    let mut i: usize = 0;
    assert(before + all_spaced(views(parts@).take(0)) == before);
    while i < parts.len()
        invariant
            i <= parts@.len(),
            out@ == before + all_spaced(views(parts@).take(i as int)),
        decreases parts@.len() - i,
    {
        let ghost longer = views(parts@).take(i + 1);
        assert(longer.drop_last() == views(parts@).take(i as int));
        push_spaced(out, parts[i].as_str());
        assert(out@ == before + all_spaced(longer));
        i += 1;
    }
    assert(views(parts@).take(parts@.len() as int) == views(parts@));
}

/// The text `o`, or `other` where there is none.
pub open spec fn text_or(o: Option<Seq<char>>, other: Seq<char>) -> Seq<char> {
    match o {
        Some(s) => s,
        None => other,
    }
}

/// The text `o`, or `other` where there is none.
pub fn opt_or(o: &Option<String>, other: &str) -> (r: String)
    ensures
        r@ == text_or(opt_view(*o), other@),
{
    match o {
        Some(s) => s.clone(),
        None => other.to_owned(),
    }
}

// ---- joining and splitting ---------------------------------------------------

/// The strings of `parts` with `sep` between each two.
pub open spec fn joined(parts: Seq<Seq<char>>, sep: Seq<char>) -> Seq<char>
    decreases parts.len(),
{
    if parts.len() == 0 {
        seq![]
    } else if parts.len() == 1 {
        parts[0]
    } else {
        joined(parts.drop_last(), sep) + sep + parts.last()
    }
}

/// The strings of `v` with `sep` between each two.
pub fn join(v: &Vec<String>, sep: &str) -> (r: String)
    ensures
        r@ == joined(views(v@), sep@),
{
    let mut r = String::new();
    let mut i: usize = 0;
    while i < v.len()
        invariant
            i <= v@.len(),
            r@ == joined(views(v@).take(i as int), sep@),
        decreases v@.len() - i,
    {
        let ghost shorter = views(v@).take(i as int);
        let ghost longer = views(v@).take(i + 1);
        assert(longer.drop_last() == shorter);
        assert(longer.last() == v@[i as int]@);
        if i > 0 {
            r.append(sep);
        }
        r.append(v[i].as_str());
        assert(i == 0 ==> r@ == v@[0]@);
        i += 1;
    }
    assert(views(v@).take(v@.len() as int) == views(v@));
    r
}

/// The pieces of `s` between the occurrences of `sep`; there is always one.
pub open spec fn pieces(s: Seq<char>, sep: char) -> Seq<Seq<char>>
    decreases s.len(),
{
    if s.len() == 0 {
        seq![seq![]]
    } else if s.last() == sep {
        pieces(s.drop_last(), sep).push(seq![])
    } else {
        let p = pieces(s.drop_last(), sep);
        p.update(p.len() - 1, p.last().push(s.last()))
    }
}

/// There is always a piece.
pub proof fn lemma_pieces_nonempty(s: Seq<char>, sep: char)
    ensures
        pieces(s, sep).len() > 0,
    decreases s.len(),
{
    if s.len() > 0 {
        lemma_pieces_nonempty(s.drop_last(), sep);
    }
}

/// The pieces of `s` between the occurrences of `sep`.
pub fn split(s: &str, sep: char) -> (r: Vec<String>)
    ensures
        views(r@) == pieces(s@, sep),
        r@.len() > 0,
{
    let v = chars_of(s);
    let mut r: Vec<String> = Vec::new();
    let mut cur = String::new();
    let mut i: usize = 0;
    assert(views(r@).push(cur@) == pieces(v@.take(0), sep));
    while i < v.len()
        invariant
            i <= v@.len(),
            views(r@).push(cur@) == pieces(v@.take(i as int), sep),
        decreases v@.len() - i,
    {
        let c = v[i];
        let ghost before = views(r@).push(cur@);
        assert(v@.take(i + 1).drop_last() == v@.take(i as int));
        if c == sep {
            let ghost done = r@;
            let ghost piece = cur@;
            r.push(cur);
            cur = String::new();
            assert(views(r@) == views(done).push(piece));
            assert(views(r@).push(cur@) == before.push(seq![]));
        } else {
            cur.push(c);
            assert(views(r@).push(cur@) == before.update(before.len() - 1, before.last().push(c)));
        }
        i += 1;
    }
    assert(v@.take(v@.len() as int) == v@);
    let ghost done = r@;
    let ghost piece = cur@;
    r.push(cur);
    assert(views(r@) == views(done).push(piece));
    r
}

/// Whether `c` does not occur in `s`.
pub open spec fn free_of(s: Seq<char>, c: char) -> bool {
    forall|i: int| 0 <= i < s.len() ==> #[trigger] s[i] != c
}

/// Text without a separator is one piece.
pub proof fn lemma_one_piece(s: Seq<char>, sep: char)
    requires
        free_of(s, sep),
    ensures
        pieces(s, sep) == seq![s],
    decreases s.len(),
{
    if s.len() > 0 {
        let t = s.drop_last();
        assert(free_of(t, sep)) by {
            assert(forall|i: int| 0 <= i < t.len() ==> t[i] == s[i]);
        }
        lemma_one_piece(t, sep);
        assert(s[s.len() - 1] != sep);
        assert(t.push(s.last()) == s);
        assert(pieces(s, sep) == seq![s]);
    } else {
        assert(s == Seq::<char>::empty());
        assert(pieces(s, sep) == seq![s]);
    }
}

/// What stands behind the last separator is the last piece.
pub proof fn lemma_last_piece(a: Seq<char>, sep: char, b: Seq<char>)
    requires
        free_of(b, sep),
    ensures
        pieces(a + seq![sep] + b, sep) == pieces(a, sep).push(b),
    decreases b.len(),
{
    let t = a + seq![sep] + b;
    if b.len() == 0 {
        assert(b == Seq::<char>::empty());
        assert(t.drop_last() == a);
        assert(pieces(t, sep) == pieces(a, sep).push(b));
    } else {
        let b0 = b.drop_last();
        assert(free_of(b0, sep)) by {
            assert(forall|i: int| 0 <= i < b0.len() ==> b0[i] == b[i]);
        }
        lemma_last_piece(a, sep, b0);
        assert(t.drop_last() == a + seq![sep] + b0);
        assert(b[b.len() - 1] != sep);
        assert(t.last() == b.last());
        assert(b0.push(b.last()) == b);
        assert(pieces(t, sep) == pieces(a, sep).push(b));
    }
}

/// Splitting takes apart what joining put together, where no part holds the
/// separator and there is at least one part.
pub proof fn split_undoes_join(parts: Seq<Seq<char>>, sep: char)
    requires
        parts.len() > 0,
        forall|i: int| 0 <= i < parts.len() ==> free_of(#[trigger] parts[i], sep),
    ensures
        pieces(joined(parts, seq![sep]), sep) == parts,
    decreases parts.len(),
{
    if parts.len() == 1 {
        lemma_one_piece(parts[0], sep);
        assert(seq![parts[0]] == parts);
    } else {
        let p = parts.drop_last();
        assert forall|i: int| 0 <= i < p.len() implies free_of(#[trigger] p[i], sep) by {
            assert(p[i] == parts[i]);
        }
        split_undoes_join(p, sep);
        assert(free_of(parts[parts.len() - 1], sep));
        lemma_last_piece(joined(p, seq![sep]), sep, parts.last());
        assert(p.push(parts.last()) == parts);
    }
}

/// Joining puts together what splitting took apart.
pub proof fn join_undoes_split(s: Seq<char>, sep: char)
    ensures
        joined(pieces(s, sep), seq![sep]) == s,
    decreases s.len(),
{
    lemma_pieces_nonempty(s, sep);
    if s.len() > 0 {
        let t = s.drop_last();
        join_undoes_split(t, sep);
        lemma_pieces_nonempty(t, sep);
        let p = pieces(t, sep);
        let q = pieces(s, sep);
        if s.last() == sep {
            assert(q.drop_last() == p);
            assert(joined(q, seq![sep]) == t + seq![sep] + Seq::<char>::empty());
            assert(joined(q, seq![sep]) == s);
        } else {
            if p.len() == 1 {
                assert(joined(q, seq![sep]) == t.push(s.last()));
            } else {
                assert(q.drop_last() == p.drop_last());
                assert(joined(q, seq![sep]) == joined(p, seq![sep]).push(s.last()));
            }
            assert(t.push(s.last()) == s);
        }
    } else {
        assert(joined(pieces(s, sep), seq![sep]) == s);
    }
}

/// The index of the first `c` in `s`, or its length.
pub open spec fn first_at(s: Seq<char>, c: char) -> int
    decreases s.len(),
{
    if s.len() == 0 || s[0] == c {
        0
    } else {
        1 + first_at(s.drop_first(), c)
    }
}

/// The first place of `c` in `v`, or its length.
pub fn find_char(v: &Vec<char>, c: char) -> (k: usize)
    ensures
        k <= v@.len(),
        k == first_at(v@, c),
        forall|j: int| 0 <= j < k ==> v@[j] != c,
        k < v@.len() ==> v@[k as int] == c,
{
    let mut k: usize = 0;
    assert(v@.skip(0) == v@);
    while k < v.len() && v[k] != c
        invariant
            k <= v@.len(),
            first_at(v@, c) == k + first_at(v@.skip(k as int), c),
            forall|j: int| 0 <= j < k ==> v@[j] != c,
        decreases v@.len() - k,
    {
        assert(v@.skip(k as int).drop_first() == v@.skip(k + 1));
        k += 1;
    }
    k
}

/// The words of `s`: its maximal runs of characters that are not white space.
pub open spec fn words(s: Seq<char>) -> Seq<Seq<char>>
    decreases s.len(),
{
    if s.len() == 0 {
        seq![]
    } else if is_white(s.last()) {
        words(s.drop_last())
    } else if s.len() == 1 || is_white(s[s.len() - 2]) {
        words(s.drop_last()).push(seq![s.last()])
    } else {
        let w = words(s.drop_last());
        w.update(w.len() - 1, w.last().push(s.last()))
    }
}

/// The words of `s`: its maximal runs of characters that are not white space.
pub fn split_words(s: &str) -> (r: Vec<String>)
    ensures
        views(r@) == words(s@),
{
    let v = chars_of(s);
    let mut r: Vec<String> = Vec::new();
    let mut cur = String::new();
    let mut i: usize = 0;
    assert(views(r@) == words(v@.take(0)));
    while i < v.len()
        invariant
            i <= v@.len(),
            (cur@.len() > 0) == (i > 0 && !is_white(v@[i - 1])),
            cur@.len() == 0 ==> views(r@) == words(v@.take(i as int)),
            cur@.len() > 0 ==> views(r@).push(cur@) == words(v@.take(i as int)),
        decreases v@.len() - i,
    {
        let c = v[i];
        let ghost t = v@.take(i + 1);
        let ghost open = views(r@).push(cur@);
        assert(t.drop_last() == v@.take(i as int));
        if is_whitespace(c) {
            if cur.as_str().is_empty() {
            } else {
                let ghost done = r@;
                let ghost piece = cur@;
                r.push(cur);
                cur = String::new();
                assert(views(r@) == views(done).push(piece));
            }
        } else {
            let ghost was = cur@;
            cur.push(c);
            assert(was.len() == 0 ==> was.push(c) == seq![c]);
            assert(views(r@).push(cur@) == open.update(open.len() - 1, open.last().push(c)));
        }
        i += 1;
    }
    assert(v@.take(v@.len() as int) == v@);
    if cur.as_str().is_empty() {
    } else {
        let ghost done = r@;
        let ghost piece = cur@;
        r.push(cur);
        assert(views(r@) == views(done).push(piece));
    }
    r
}

/// The lines of `s`. A carriage return before a line feed belongs to neither
/// line, and what follows the last line feed is a line only if it is not empty.
pub open spec fn lines_of(s: Seq<char>) -> Seq<Seq<char>> {
    let p = pieces(s, '\n');
    let closed = Seq::new((p.len() - 1) as nat, |i: int| without_return(p[i]));
    if p.last().len() == 0 {
        closed
    } else {
        closed.push(p.last())
    }
}

/// `s` without a carriage return at its end.
pub open spec fn without_return(s: Seq<char>) -> Seq<char> {
    if s.len() > 0 && s.last() == '\r' {
        s.drop_last()
    } else {
        s
    }
}

/// The lines of `s`.
pub fn lines(s: &str) -> (r: Vec<String>)
    ensures
        views(r@) == lines_of(s@),
{
    let p = split(s, '\n');
    let ghost q = pieces(s@, '\n');
    assert(views(p@).len() == p@.len());
    let mut r: Vec<String> = Vec::new();
    let mut i: usize = 0;
    while i < p.len() - 1
        invariant
            views(p@) == q,
            p@.len() == q.len(),
            p@.len() > 0,
            i <= p@.len() - 1,
            views(r@) == Seq::new(i as nat, |j: int| without_return(q[j])),
        decreases p@.len() - i,
    {
        assert(q[i as int] == p@[i as int]@);
        let v = chars_of(p[i].as_str());
        let n: usize = if v.len() > 0 && v[v.len() - 1] == '\r' {
            v.len() - 1
        } else {
            v.len()
        };
        let line = substring(&v, 0, n);
        assert(line@ == without_return(q[i as int]));
        let ghost done = r@;
        let ghost lv = line@;
        r.push(line);
        assert(views(r@) == views(done).push(lv));
        i += 1;
        assert(views(r@) == Seq::new(i as nat, |j: int| without_return(q[j])));
    }
    let last = p[i].clone();
    assert(last@ == q.last());
    if !last.as_str().is_empty() {
        let ghost done = r@;
        let ghost lv = last@;
        r.push(last);
        assert(views(r@) == views(done).push(lv));
    }
    r
}

/// The beginning of `s`, up to the first of the characters `stops`.
pub open spec fn up_to(s: Seq<char>, stops: Seq<char>) -> Seq<char>
    decreases s.len(),
{
    if s.len() == 0 || stops.contains(s[0]) {
        seq![]
    } else {
        seq![s[0]] + up_to(s.drop_first(), stops)
    }
}

/// `s` without the characters `c` at its start.
pub open spec fn without_leading(s: Seq<char>, c: char) -> Seq<char>
    decreases s.len(),
{
    if s.len() > 0 && s[0] == c {
        without_leading(s.drop_first(), c)
    } else {
        s
    }
}

/// `s` without the characters `c` at its end.
pub open spec fn without_trailing(s: Seq<char>, c: char) -> Seq<char>
    decreases s.len(),
{
    if s.len() > 0 && s.last() == c {
        without_trailing(s.drop_last(), c)
    } else {
        s
    }
}

/// `s` without the characters `c` at its start.
pub fn trim_leading(s: &str, c: char) -> (r: String)
    ensures
        r@ == without_leading(s@, c),
{
    let v = chars_of(s);
    let mut k: usize = 0;
    assert(v@.skip(0) == v@);
    while k < v.len() && v[k] == c
        invariant
            k <= v@.len(),
            without_leading(v@, c) == without_leading(v@.skip(k as int), c),
        decreases v@.len() - k,
    {
        assert(v@.skip(k as int).drop_first() == v@.skip(k + 1));
        k += 1;
    }
    assert(v@.skip(k as int) == v@.subrange(k as int, v@.len() as int));
    substring(&v, k, v.len())
}

/// `s` without the characters `c` at its end.
pub fn trim_trailing(s: &str, c: char) -> (r: String)
    ensures
        r@ == without_trailing(s@, c),
{
    let v = chars_of(s);
    let mut k: usize = v.len();
    assert(v@.take(v@.len() as int) == v@);
    while k > 0 && v[k - 1] == c
        invariant
            k <= v@.len(),
            without_trailing(v@, c) == without_trailing(v@.take(k as int), c),
        decreases k,
    {
        assert(v@.take(k as int).drop_last() == v@.take(k - 1));
        k -= 1;
    }
    assert(v@.take(k as int) == v@.subrange(0, k as int));
    substring(&v, 0, k)
}

// ---- the order of strings ----------------------------------------------------------

/// Whether `a` stands before `b` in the order of strings, which goes by their
/// first difference.
pub open spec fn text_before(a: Seq<char>, b: Seq<char>) -> bool
    decreases a.len(),
{
    if b.len() == 0 {
        false
    } else if a.len() == 0 {
        true
    } else if a[0] == b[0] {
        text_before(a.drop_first(), b.drop_first())
    } else {
        a[0] < b[0]
    }
}

/// The order of strings is total.
pub proof fn lemma_text_order_total(a: Seq<char>, b: Seq<char>)
    ensures
        !text_before(a, a),
        !(text_before(a, b) && text_before(b, a)),
        a != b ==> text_before(a, b) || text_before(b, a),
    decreases a.len(),
{
    if a.len() > 0 {
        if b.len() > 0 {
            lemma_text_order_total(a.drop_first(), b.drop_first());
            if a[0] == b[0] && a.drop_first() == b.drop_first() {
                assert(a == seq![a[0]] + a.drop_first());
                assert(b == seq![b[0]] + b.drop_first());
            }
        } else {
            lemma_text_order_total(a.drop_first(), a.drop_first());
        }
    } else if b.len() == 0 {
        assert(a == b);
    }
}

/// The order of strings is transitive.
pub proof fn lemma_text_order_transitive(a: Seq<char>, b: Seq<char>, c: Seq<char>)
    requires
        text_before(a, b),
        text_before(b, c),
    ensures
        text_before(a, c),
    decreases a.len(),
{
    if a.len() > 0 && a[0] == b[0] && b[0] == c[0] {
        lemma_text_order_transitive(a.drop_first(), b.drop_first(), c.drop_first());
    }
}

/// Whether `a` stands before `b` in the order of strings.
pub fn stands_before(a: &str, b: &str) -> (r: bool)
    ensures
        r == text_before(a@, b@),
{
    let x = chars_of(a);
    let y = chars_of(b);
    let mut i: usize = 0;
    assert(x@.skip(0) == x@);
    assert(y@.skip(0) == y@);
    while i < x.len() && i < y.len() && x[i] == y[i]
        invariant
            i <= x@.len(),
            i <= y@.len(),
            text_before(x@, y@) == text_before(x@.skip(i as int), y@.skip(i as int)),
        decreases x@.len() - i,
    {
        assert(x@.skip(i as int).drop_first() == x@.skip(i + 1));
        assert(y@.skip(i as int).drop_first() == y@.skip(i + 1));
        i += 1;
    }
    if i >= y.len() {
        false
    } else if i >= x.len() {
        true
    } else {
        x[i] < y[i]
    }
}

/// Whether `s` begins with `prefix`.
pub open spec fn has_prefix(s: Seq<char>, prefix: Seq<char>) -> bool {
    prefix.len() <= s.len() && s.take(prefix.len() as int) == prefix
}

/// Whether `s` begins with `prefix`.
pub fn starts_with(s: &str, prefix: &str) -> (r: bool)
    ensures
        r == has_prefix(s@, prefix@),
{
    let a = chars_of(s);
    let b = chars_of(prefix);
    if b.len() > a.len() {
        return false;
    }
    let mut i: usize = 0;
    while i < b.len()
        invariant
            i <= b@.len() <= a@.len(),
            a@ == s@,
            b@ == prefix@,
            a@.take(i as int) == b@.take(i as int),
        decreases b@.len() - i,
    {
        if a[i] != b[i] {
            assert(a@.take(b@.len() as int)[i as int] != b@[i as int]);
            return false;
        }
        assert(a@.take(i + 1) == a@.take(i as int).push(a@[i as int]));
        assert(b@.take(i + 1) == b@.take(i as int).push(b@[i as int]));
        i += 1;
    }
    assert(b@.take(b@.len() as int) == b@);
    true
}

} // verus!
