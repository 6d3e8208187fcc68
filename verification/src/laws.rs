//! What the functions on text, numbers and addresses promise, told by what goes in and what comes out.

use vstd::prelude::*;
use crate::net::{dotted, dotted_round_trip, undotted};
use crate::number::{
    decimal, decimal_round_trip, digit_value, digits_value, parsed, parsed_i32, signed_decimal,
};
use crate::text::{
    all_spaced, clipped, first_at, free_of, has_prefix, is_control, is_white, joined, lemma_last_piece, lemma_one_piece,
    lemma_pieces_nonempty, left_aligned, lines_of, lowered, pieces, right_aligned, spaces,
    split_undoes_join, text_before, trimmed, trimmed_end, trimmed_start, up_to, without_leading,
    without_trailing, words,
};

verus! {

/// Whether all of `s` is white space.
pub open spec fn blank(s: Seq<char>) -> bool {
    forall|i: int| 0 <= i < s.len() ==> is_white(#[trigger] s[i])
}

/// Whether no white space occurs in `s`.
pub open spec fn unbroken(s: Seq<char>) -> bool {
    forall|i: int| 0 <= i < s.len() ==> !is_white(#[trigger] s[i])
}

/// Whether `s` neither begins nor ends with white space.
pub open spec fn tight(s: Seq<char>) -> bool {
    s.len() > 0 ==> !is_white(s[0]) && !is_white(s.last())
}

proof fn lemma_trimmed_start(a: Seq<char>, s: Seq<char>)
    requires
        blank(a),
        s.len() > 0 ==> !is_white(s[0]),
    ensures
        trimmed_start(a + s) == s,
    decreases a.len(),
{
    if a.len() > 0 {
        assert((a + s)[0] == a[0]);
        assert((a + s).drop_first() == a.drop_first() + s);
        assert(blank(a.drop_first())) by {
            assert forall|i: int| 0 <= i < a.drop_first().len() implies is_white(
                #[trigger] a.drop_first()[i],
            ) by {
                assert(a.drop_first()[i] == a[i + 1]);
            }
        }
        lemma_trimmed_start(a.drop_first(), s);
    } else {
        assert(a + s == s);
    }
}

proof fn lemma_trimmed_end(s: Seq<char>, b: Seq<char>)
    requires
        blank(b),
        s.len() > 0 ==> !is_white(s.last()),
    ensures
        trimmed_end(s + b) == s,
    decreases b.len(),
{
    if b.len() > 0 {
        assert((s + b).last() == b.last());
        assert(b[b.len() - 1] == b.last());
        assert((s + b).drop_last() == s + b.drop_last());
        assert(blank(b.drop_last())) by {
            assert forall|i: int| 0 <= i < b.drop_last().len() implies is_white(
                #[trigger] b.drop_last()[i],
            ) by {
                assert(b.drop_last()[i] == b[i]);
            }
        }
        lemma_trimmed_end(s, b.drop_last());
    } else {
        assert(s + b == s);
    }
}

/// Trimming takes away the white space round a text, all of it, and nothing else.
pub proof fn trimming_takes_the_ends(a: Seq<char>, s: Seq<char>, b: Seq<char>)
    requires
        blank(a),
        blank(b),
        tight(s),
    ensures
        trimmed(a + s + b) == s,
{
    assert(a + s + b == a + (s + b));
    if s.len() > 0 {
        assert((s + b)[0] == s[0]);
        lemma_trimmed_start(a, s + b);
        lemma_trimmed_end(s, b);
    } else {
        let t = a + b;
        assert(a + (s + b) == t + s);
        assert(blank(t)) by {
            assert forall|i: int| 0 <= i < t.len() implies is_white(#[trigger] t[i]) by {
                if i < a.len() {
                    assert(t[i] == a[i]);
                } else {
                    assert(t[i] == b[i - a.len()]);
                }
            }
        }
        lemma_trimmed_start(t, s);
        assert(trimmed_end(s) == s);
    }
}

/// What white space there is, told by its characters: the space, the ASCII controls
/// that move the cursor, and no letter or digit.
pub proof fn spaces_and_breaks_are_white(c: char)
    ensures
        c == ' ' || c == '\t' || c == '\n' || c == '\r' ==> is_white(c),
        '!' <= c <= '~' ==> !is_white(c),
        is_white(c) <==> 9 <= c as int <= 13 || c as int == 32 || c as int == 0x85 || c as int
            == 0xa0 || c as int == 0x1680 || 0x2000 <= c as int <= 0x200a || c as int == 0x2028
            || c as int == 0x2029 || c as int == 0x202f || c as int == 0x205f || c as int == 0x3000,
{
}

/// The control characters are those below the space, and those from the delete character
/// up to the no-break space.
pub proof fn controls_are_told_by_number(c: char)
    ensures
        is_control(c) <==> (c as int) < 32 || 127 <= c as int <= 159,
{
}

/// Capital ASCII letters become small ones, and everything else stays.
pub proof fn lowering_keeps_all_but_capitals(s: Seq<char>, i: int)
    requires
        0 <= i < s.len(),
    ensures
        lowered(s).len() == s.len(),
        'A' <= s[i] <= 'Z' ==> lowered(s)[i] as int - 'a' as int == s[i] as int - 'A' as int,
        !('A' <= s[i] <= 'Z') ==> lowered(s)[i] == s[i],
{
}

/// A character is found at its first place, or, where it is missing, behind the end.
pub proof fn first_place_is_found(a: Seq<char>, c: char, b: Seq<char>)
    requires
        free_of(a, c),
    ensures
        first_at(a, c) == a.len(),
        first_at(a + seq![c] + b, c) == a.len(),
    decreases a.len(),
{
    let s = a + seq![c] + b;
    if a.len() > 0 {
        assert(s[0] == a[0]);
        assert(s.drop_first() == a.drop_first() + seq![c] + b);
        assert(free_of(a.drop_first(), c)) by {
            assert forall|i: int| 0 <= i < a.drop_first().len() implies #[trigger] a.drop_first()[i]
                != c by {
                assert(a.drop_first()[i] == a[i + 1]);
            }
        }
        first_place_is_found(a.drop_first(), c, b);
    } else {
        assert(s[0] == c);
    }
}

/// A text begins with `a` exactly where something behind `a` makes it up.
pub proof fn prefixes_begin_the_text(s: Seq<char>, a: Seq<char>, b: Seq<char>)
    ensures
        has_prefix(a + b, a),
        has_prefix(s, a) ==> s == a + s.skip(a.len() as int),
{
    assert((a + b).take(a.len() as int) == a);
    if has_prefix(s, a) {
        assert(s == s.take(a.len() as int) + s.skip(a.len() as int));
    }
}

// ---- words -------------------------------------------------------------------------

proof fn lemma_word_behind(s: Seq<char>, w: Seq<char>)
    requires
        unbroken(w),
        w.len() > 0,
        s.len() == 0 || is_white(s.last()),
    ensures
        words(s + w) == words(s).push(w),
    decreases w.len(),
{
    let t = s + w;
    assert(t.last() == w.last());
    assert(w[w.len() - 1] == w.last());
    assert(!is_white(t.last()));
    if w.len() == 1 {
        assert(t.drop_last() == s);
        assert(w == seq![w.last()]);
        if s.len() > 0 {
            assert(t[t.len() - 2] == s.last());
        }
    } else {
        let v = w.drop_last();
        assert(unbroken(v)) by {
            assert forall|i: int| 0 <= i < v.len() implies !is_white(#[trigger] v[i]) by {
                assert(v[i] == w[i]);
            }
        }
        lemma_word_behind(s, v);
        assert(t.drop_last() == s + v);
        assert(t[t.len() - 2] == w[w.len() - 2]);
        assert(v.push(w.last()) == w);
        let p = words(s).push(v);
        assert(p.update(p.len() - 1, p.last().push(w.last())) == words(s).push(w));
    }
}

proof fn lemma_white_behind(s: Seq<char>, b: Seq<char>)
    requires
        blank(b),
    ensures
        words(s + b) == words(s),
    decreases b.len(),
{
    if b.len() > 0 {
        let c = b.drop_last();
        assert((s + b).last() == b.last());
        assert(b[b.len() - 1] == b.last());
        assert((s + b).drop_last() == s + c);
        assert(blank(c)) by {
            assert forall|i: int| 0 <= i < c.len() implies is_white(#[trigger] c[i]) by {
                assert(c[i] == b[i]);
            }
        }
        lemma_white_behind(s, c);
    } else {
        assert(s + b == s);
    }
}

/// Each stretch without white space is a word, and white space round the words,
/// whichever it is and however much, makes no difference.
pub proof fn words_stand_between_white_space(s: Seq<char>, a: Seq<char>, w: Seq<char>, b: Seq<char>)
    requires
        blank(a),
        blank(b),
        a.len() > 0 || s.len() == 0,
        unbroken(w),
        w.len() > 0,
    ensures
        words(s + a + w + b) == words(s).push(w),
        words(s + a) == words(s),
        words(Seq::<char>::empty()).len() == 0,
{
    lemma_white_behind(s, a);
    let t = s + a;
    if a.len() > 0 {
        assert(t.last() == a[a.len() - 1]);
    }
    lemma_word_behind(t, w);
    lemma_white_behind(t + w, b);
}

// ---- columns -----------------------------------------------------------------------

/// A text that is put in a column is kept whole; blanks fill the column up behind it or
/// in front of it.
pub proof fn columns_keep_the_text(s: Seq<char>, width: int)
    ensures
        left_aligned(s, width).take(s.len() as int) == s,
        blank(left_aligned(s, width).skip(s.len() as int)),
        right_aligned(s, width).skip(right_aligned(s, width).len() - s.len()) == s,
        s.len() <= width ==> left_aligned(s, width).len() == width && right_aligned(s, width).len()
            == width,
        s.len() >= width ==> left_aligned(s, width) == s && right_aligned(s, width) == s,
{
    let l = left_aligned(s, width);
    let r = right_aligned(s, width);
    assert(l.take(s.len() as int) == s);
    assert(l.skip(s.len() as int) == spaces(width - s.len()));
    assert(r.skip(r.len() - s.len()) == s);
}

/// A text that fits is not clipped; one that does not is cut to the width, and its last
/// place shows that it was.
pub proof fn clipping_keeps_the_beginning(s: Seq<char>, max: int)
    requires
        max > 0,
    ensures
        s.len() <= max ==> clipped(s, max) == s,
        s.len() > max ==> clipped(s, max).len() == max && clipped(s, max).last() == '…'
            && clipped(s, max).drop_last() == s.take(max - 1),
{
    if s.len() > max {
        assert(s.take(max - 1).push('…').drop_last() == s.take(max - 1));
    }
}

// ---- parts of a text ---------------------------------------------------------------

/// What stands before the first of the stops is told apart.
pub proof fn the_stretch_before_a_stop(a: Seq<char>, c: char, b: Seq<char>, stops: Seq<char>)
    requires
        forall|i: int| 0 <= i < a.len() ==> !stops.contains(#[trigger] a[i]),
        stops.contains(c),
    ensures
        up_to(a, stops) == a,
        up_to(a + seq![c] + b, stops) == a,
    decreases a.len(),
{
    let s = a + seq![c] + b;
    if a.len() > 0 {
        let t = a.drop_first();
        assert(s[0] == a[0]);
        assert(s.drop_first() == t + seq![c] + b);
        assert forall|i: int| 0 <= i < t.len() implies !stops.contains(#[trigger] t[i]) by {
            assert(t[i] == a[i + 1]);
        }
        the_stretch_before_a_stop(t, c, b, stops);
        assert(seq![a[0]] + t == a);
    } else {
        assert(s[0] == c);
    }
}

/// Leading repetitions of a character are taken away, all of them, and nothing else.
pub proof fn leading_characters_go(n: nat, c: char, s: Seq<char>)
    requires
        s.len() > 0 ==> s[0] != c,
    ensures
        without_leading(Seq::new(n, |i: int| c) + s, c) == s,
    decreases n,
{
    let t = Seq::new(n, |i: int| c) + s;
    if n > 0 {
        assert(t.drop_first() == Seq::new((n - 1) as nat, |i: int| c) + s);
        leading_characters_go((n - 1) as nat, c, s);
    } else {
        assert(t == s);
    }
}

/// Trailing repetitions of a character are taken away, all of them, and nothing else.
pub proof fn trailing_characters_go(n: nat, c: char, s: Seq<char>)
    requires
        s.len() > 0 ==> s.last() != c,
    ensures
        without_trailing(s + Seq::new(n, |i: int| c), c) == s,
    decreases n,
{
    let t = s + Seq::new(n, |i: int| c);
    if n > 0 {
        assert(t.last() == c);
        assert(t.drop_last() == s + Seq::new((n - 1) as nat, |i: int| c));
        trailing_characters_go((n - 1) as nat, c, s);
    } else {
        assert(t == s);
    }
}

/// Texts stand in the order of their first characters that differ, and a beginning
/// stands before the whole.
pub proof fn texts_stand_in_order(a: Seq<char>, x: char, s: Seq<char>, y: char, t: Seq<char>)
    ensures
        x < y ==> text_before(a + seq![x] + s, a + seq![y] + t),
        text_before(a, a + seq![y] + t),
    decreases a.len(),
{
    let l = a + seq![x] + s;
    let r = a + seq![y] + t;
    if a.len() > 0 {
        let b = a.drop_first();
        assert(l[0] == a[0] && r[0] == a[0]);
        assert(l.drop_first() == b + seq![x] + s);
        assert(r.drop_first() == b + seq![y] + t);
        texts_stand_in_order(b, x, s, y, t);
    } else {
        assert(l[0] == x && r[0] == y);
    }
}

/// Joined texts stand one behind the other with the separator between them.
pub proof fn joining_puts_the_separator_between(
    a: Seq<Seq<char>>,
    b: Seq<char>,
    sep: Seq<char>,
)
    ensures
        joined(seq![b], sep) == b,
        a.len() > 0 ==> joined(a.push(b), sep) == joined(a, sep) + sep + b,
        joined(Seq::<Seq<char>>::empty(), sep) == Seq::<char>::empty(),
{
    assert(a.push(b).drop_last() == a);
}

/// A text without the separator is one piece, and behind a separator begins a new one.
pub proof fn separators_part_the_pieces(a: Seq<char>, b: Seq<char>, sep: char)
    requires
        free_of(b, sep),
    ensures
        pieces(b, sep) == seq![b],
        pieces(a + seq![sep] + b, sep) == pieces(a, sep).push(b),
{
    lemma_one_piece(b, sep);
    lemma_last_piece(a, sep, b);
}

/// A text without the separator in front of one is the first piece.
pub proof fn the_first_piece_stands_in_front(a: Seq<char>, sep: char, b: Seq<char>)
    requires
        free_of(a, sep),
    ensures
        pieces(a + seq![sep] + b, sep) == seq![a] + pieces(b, sep),
    decreases b.len(),
{
    let s = a + seq![sep] + b;
    if b.len() == 0 {
        let e = Seq::<char>::empty();
        lemma_last_piece(a, sep, e);
        lemma_one_piece(a, sep);
        assert(b == e);
        assert(pieces(b, sep) == seq![e]);
        assert(seq![a].push(e) == seq![a] + seq![e]);
    } else {
        let c = b.drop_last();
        the_first_piece_stands_in_front(a, sep, c);
        lemma_pieces_nonempty(c, sep);
        assert(s.drop_last() == a + seq![sep] + c);
        assert(s.last() == b.last());
        let p = pieces(c, sep);
        let q = seq![a] + p;
        if b.last() == sep {
            assert(q.push(seq![]) == seq![a] + p.push(seq![]));
        } else {
            assert(q.last() == p.last());
            assert(q.update(q.len() - 1, q.last().push(b.last())) == seq![a] + p.update(
                p.len() - 1,
                p.last().push(b.last()),
            ));
        }
    }
}

/// Lines that are written one below the other are read back, whether or not the last one
/// is ended.
pub proof fn lines_are_read_back(lines: Seq<Seq<char>>)
    requires
        lines.len() > 0,
        forall|i: int|
            0 <= i < lines.len() ==> free_of(#[trigger] lines[i], '\n') && (lines[i].len() > 0
                ==> lines[i].last() != '\r'),
    ensures
        lines_of(joined(lines, seq!['\n']) + seq!['\n']) == lines,
        lines.last().len() > 0 ==> lines_of(joined(lines, seq!['\n'])) == lines,
{
    let t = joined(lines, seq!['\n']);
    let e = Seq::<char>::empty();
    split_undoes_join(lines, '\n');
    lemma_last_piece(t, '\n', e);
    assert(t + seq!['\n'] + e == t + seq!['\n']);
    assert(lines_of(t + seq!['\n']) =~= lines);
    if lines.last().len() > 0 {
        assert(lines_of(t) =~= lines);
    }
}

// ---- numbers ---------------------------------------------------------------------------

/// A number that is written in decimal is read back where it is not too large, and not
/// read where it is.
pub proof fn written_numbers_are_read_back(n: nat, max: nat)
    ensures
        n <= max ==> parsed(decimal(n), 10, max) == Some(n),
        n > max ==> parsed(decimal(n), 10, max) is None,
        n <= 0x7fff_ffff ==> parsed_i32(signed_decimal(n as int)) == Some(n as int),
        0 < n <= 0x8000_0000 ==> parsed_i32(signed_decimal(-(n as int))) == Some(-(n as int)),
{
    decimal_round_trip(n);
    assert('0' <= decimal(n)[0] <= '9');
    if 0 < n {
        let s = signed_decimal(-(n as int));
        assert(s.drop_first() == decimal(n));
        assert(s[0] == '-');
    }
}

/// A digit behind a number counts once, and what stands before it counts as often as
/// there are digits.
pub proof fn digits_count_by_place(s: Seq<char>, c: char, radix: nat)
    requires
        s.len() > 0,
    ensures
        digits_value(s, radix) is Some && digit_value(c, radix) is Some ==> digits_value(
            s.push(c),
            radix,
        ) == Some(digits_value(s, radix)->0 * radix + digit_value(c, radix)->0),
        digit_value(c, radix) is None ==> digits_value(s.push(c), radix) is None,
        digits_value(seq![c], radix) == digit_value(c, radix),
{
    assert(s.push(c).drop_last() == s);
}

/// Digits count up from nought, letters go on from ten, and capitals count like small
/// letters; no digit reaches the radix.
pub proof fn digits_count_up(c: char, radix: nat)
    requires
        2 <= radix <= 36,
    ensures
        '0' <= c <= '9' && radix > c as int - '0' as int ==> digit_value(c, radix) == Some(
            (c as int - '0' as int) as nat,
        ),
        'a' <= c <= 'z' && radix > c as int - 'a' as int + 10 ==> digit_value(c, radix) == Some(
            (c as int - 'a' as int + 10) as nat,
        ),
        'A' <= c <= 'Z' && radix > c as int - 'A' as int + 10 ==> digit_value(c, radix) == Some(
            (c as int - 'A' as int + 10) as nat,
        ),
        digit_value(c, radix) is Some ==> digit_value(c, radix)->0 < radix && ('0' <= c <= '9'
            || 'a' <= c <= 'z' || 'A' <= c <= 'Z'),
{
}

// ---- addresses -------------------------------------------------------------------------

proof fn lemma_high_part(q: int, r: int, k: int)
    requires
        k > 0,
        0 <= r < k,
    ensures
        (q * k + r) / k == q,
        (q * k + r) % k == r,
{
    vstd::arithmetic::div_mod::lemma_fundamental_div_mod_converse(q * k + r, k, q, r);
}

proof fn lemma_octets_of(n: int, a: int, b: int, c: int, d: int)
    requires
        0 <= a < 256,
        0 <= b < 256,
        0 <= c < 256,
        0 <= d < 256,
        n == a * 0x100_0000 + b * 0x1_0000 + c * 0x100 + d,
    ensures
        (n / 0x100_0000) % 256 == a,
        (n / 0x1_0000) % 256 == b,
        (n / 0x100) % 256 == c,
        n % 256 == d,
{
    lemma_high_part(a, b * 0x1_0000 + c * 0x100 + d, 0x100_0000);
    lemma_high_part(a * 256 + b, c * 0x100 + d, 0x1_0000);
    lemma_high_part(a, b, 256);
    lemma_high_part(a * 0x1_0000 + b * 0x100 + c, d, 0x100);
    lemma_high_part(a * 256 + b, c, 256);
}

/// An address is written as its four octets, the highest first, and read so.
pub proof fn addresses_are_written_by_octet(bits: u32, a: u8, b: u8, c: u8, d: u8)
    requires
        bits == a * 0x100_0000 + b * 0x1_0000 + c * 0x100 + d,
    ensures
        ({
            let text = decimal(a as nat) + seq!['.'] + decimal(b as nat) + seq!['.'] + decimal(
                c as nat,
            ) + seq!['.'] + decimal(d as nat);
            dotted(bits) == text && undotted(text) == Some(bits)
        }),
{
    lemma_octets_of(bits as int, a as int, b as int, c as int, d as int);
    dotted_round_trip(bits);
}

/// Four numbers up to 255, without leading noughts, are an address, and nothing else is.
pub proof fn addresses_are_four_octets(parts: Seq<Seq<char>>, i: int)
    requires
        parts.len() > 0,
        forall|j: int| 0 <= j < parts.len() ==> free_of(#[trigger] parts[j], '.'),
        0 <= i < parts.len(),
    ensures
        parts.len() != 4 ==> undotted(joined(parts, seq!['.'])) is None,
        parts[i].len() == 0 || parts[i].len() > 3 ==> undotted(joined(parts, seq!['.'])) is None,
        parts[i].len() > 1 && parts[i][0] == '0' ==> undotted(joined(parts, seq!['.'])) is None,
        digits_value(parts[i], 10) is Some && digits_value(parts[i], 10)->0 > 255 ==> undotted(
            joined(parts, seq!['.']),
        ) is None,
{
    split_undoes_join(parts, '.');
}

// ---- spaces and signs --------------------------------------------------------------------

/// Texts that are listed one behind the other each have a space before them.
pub proof fn listed_texts_have_a_space_before_them(parts: Seq<Seq<char>>, t: Seq<char>)
    ensures
        all_spaced(Seq::<Seq<char>>::empty()).len() == 0,
        all_spaced(parts.push(t)) == all_spaced(parts) + seq![' '] + t,
{
    assert(parts.push(t).drop_last() == parts);
    assert(all_spaced(parts.push(t)) =~= all_spaced(parts) + seq![' '] + t);
}

/// A number has a sign where it is negative, and none otherwise.
pub proof fn negative_numbers_have_a_sign(n: int)
    ensures
        n >= 0 ==> signed_decimal(n) == decimal(n as nat),
        n < 0 ==> signed_decimal(n) == seq!['-'] + decimal((-n) as nat),
{
}

} // verus!
