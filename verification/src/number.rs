//! Numbers in text: decimal notation, and parsing in a given radix.

use vstd::prelude::*;
use crate::text::{chars_of, substring};

verus! {

/// The decimal digit `d`.
pub open spec fn digit(d: nat) -> char {
    ('0' as u32 + d as u32) as char
}

/// `n` in decimal notation.
pub open spec fn decimal(n: nat) -> Seq<char>
    decreases n,
{
    if n < 10 {
        seq![digit(n)]
    } else {
        decimal(n / 10).push(digit(n % 10))
    }
}

/// `n` in decimal notation, with a minus sign where it is negative.
pub open spec fn signed_decimal(n: int) -> Seq<char> {
    if n < 0 {
        seq!['-'] + decimal((-n) as nat)
    } else {
        decimal(n as nat)
    }
}

/// `n` in decimal notation.
pub fn decimal_of(n: u64) -> (r: String)
    ensures
        r@ == decimal(n as nat),
    decreases n,
{
    let c = (48 + (n % 10) as u8) as char;
    let mut r = if n < 10 {
        String::new()
    } else {
        decimal_of(n / 10)
    };
    r.push(c);
    assert(n < 10 ==> r@ == seq![digit(n as nat)]);
    r
}

/// `n` in decimal notation, with a minus sign where it is negative.
pub fn signed_decimal_of(n: i64) -> (r: String)
    ensures
        r@ == signed_decimal(n as int),
{
    if n < 0 {
        let mut r = String::new();
        r.push('-');
        let m: u64 = (-(n as i128)) as u64;
        let d = decimal_of(m);
        r.append(d.as_str());
        assert(r@ == seq!['-'] + decimal((-n) as nat));
        r
    } else {
        decimal_of(n as u64)
    }
}

/// What the digit `c` stands for in `radix`, if it is one.
pub open spec fn digit_value(c: char, radix: nat) -> Option<nat> {
    let v = if '0' <= c <= '9' {
        (c as nat - '0' as nat) as nat
    } else if 'a' <= c <= 'z' {
        (c as nat - 'a' as nat + 10) as nat
    } else if 'A' <= c <= 'Z' {
        (c as nat - 'A' as nat + 10) as nat
    } else {
        radix
    };
    if v < radix {
        Some(v)
    } else {
        None
    }
}

/// What the digits `s` stand for in `radix`: nothing where there are none, or
/// where one is no digit.
pub open spec fn digits_value(s: Seq<char>, radix: nat) -> Option<nat>
    decreases s.len(),
{
    if s.len() == 0 {
        None
    } else if s.len() == 1 {
        digit_value(s[0], radix)
    } else {
        match (digits_value(s.drop_last(), radix), digit_value(s.last(), radix)) {
            (Some(v), Some(d)) => Some(v * radix + d),
            _ => None,
        }
    }
}

/// The number `s` in `radix`, with or without a plus sign, where it is at most
/// `max`.
pub open spec fn parsed(s: Seq<char>, radix: nat, max: nat) -> Option<nat> {
    let t = if s.len() > 0 && s[0] == '+' {
        s.drop_first()
    } else {
        s
    };
    match digits_value(t, radix) {
        Some(v) => if v <= max {
            Some(v)
        } else {
            None
        },
        None => None,
    }
}

/// A number only grows with further digits.
proof fn lemma_value_grows(s: Seq<char>, k: int, radix: nat)
    requires
        0 < k <= s.len(),
        radix > 0,
    ensures
        digits_value(s, radix) is Some ==> digits_value(s.take(k), radix) is Some && digits_value(
            s.take(k),
            radix,
        )->0 <= digits_value(s, radix)->0,
    decreases s.len() - k,
{
    if k < s.len() {
        lemma_value_grows(s, k + 1, radix);
        let t = s.take(k + 1);
        assert(t.drop_last() == s.take(k));
        if digits_value(t, radix) is Some {
            let v = digits_value(s.take(k), radix)->0;
            assert(v * radix >= v) by (nonlinear_arith)
                requires
                    radix > 0,
                    v >= 0,
            ;
        }
    } else {
        assert(s.take(k) == s);
    }
}

/// What the digit `c` stands for in `radix`, or `radix` where it is none.
fn digit_or_radix(c: char, radix: u64) -> (d: u64)
    requires
        radix <= 36,
    ensures
        d == match digit_value(c, radix as nat) {
            Some(v) => v,
            None => radix as nat,
        },
{
    let code: u64 = c as u64;
    let d: u64 = if '0' <= c && c <= '9' {
        code - 48
    } else if 'a' <= c && c <= 'z' {
        code - 87
    } else if 'A' <= c && c <= 'Z' {
        code - 55
    } else {
        radix
    };
    if d < radix {
        d
    } else {
        radix
    }
}

/// The number `s` in `radix`, with or without a plus sign, where it is at most
/// `max`.
pub fn parse(s: &str, radix: u64, max: u64) -> (r: Option<u64>)
    requires
        2 <= radix <= 36,
    ensures
        match parsed(s@, radix as nat, max as nat) {
            Some(v) => r == Some(v as u64),
            None => r is None,
        },
        r is Some ==> r->0 == parsed(s@, radix as nat, max as nat)->0,
{
    let v = chars_of(s);
    let start: usize = if v.len() > 0 && v[0] == '+' {
        1
    } else {
        0
    };
    let ghost t = v@.skip(start as int);
    assert(t == if s@.len() > 0 && s@[0] == '+' { s@.drop_first() } else { s@ });
    if start == v.len() {
        return None;
    }
    let mut acc: u64 = 0;
    let mut i: usize = start;
    while i < v.len()
        invariant
            2 <= radix <= 36,
            start <= i <= v@.len(),
            t == v@.skip(start as int),
            acc <= max,
            i == start ==> acc == 0,
            i > start ==> digits_value(t.take(i - start), radix as nat) == Some(acc as nat),
            t == if s@.len() > 0 && s@[0] == '+' { s@.drop_first() } else { s@ },
        decreases v@.len() - i,
    {
        let ghost k = i + 1 - start;
        assert(t.take(k).drop_last() == t.take(k - 1));
        assert(t.take(k).last() == v@[i as int]);
        let d = digit_or_radix(v[i], radix);
        if d >= radix {
            proof {
                lemma_value_grows(t, k, radix as nat);
            }
            return None;
        }
        assert(acc * radix <= u64::MAX * 36) by (nonlinear_arith)
            requires
                0 <= acc <= u64::MAX,
                0 <= radix <= 36,
        ;
        let wide: u128 = (acc as u128) * (radix as u128) + d as u128;
        if wide > max as u128 {
            proof {
                lemma_value_grows(t, k, radix as nat);
            }
            return None;
        }
        acc = wide as u64;
        i += 1;
    }
    assert(t.take(t.len() as int) == t);
    Some(acc)
}

/// The signed 32-bit number `s` in decimal notation, if it is one.
pub open spec fn parsed_i32(s: Seq<char>) -> Option<int> {
    if s.len() > 0 && s[0] == '-' {
        match digits_value(s.drop_first(), 10) {
            Some(v) => if v <= 0x8000_0000 {
                Some(-v)
            } else {
                None
            },
            None => None,
        }
    } else {
        match parsed(s, 10, 0x7fff_ffff) {
            Some(v) => Some(v as int),
            None => None,
        }
    }
}

/// The signed 32-bit number `s` in decimal notation, if it is one.
pub fn parse_i32(s: &str) -> (r: Option<i32>)
    ensures
        match parsed_i32(s@) {
            Some(v) => r == Some(v as i32) && r->0 == v,
            None => r is None,
        },
{
    let v = chars_of(s);
    if v.len() > 0 && v[0] == '-' {
        let rest = substring(&v, 1, v.len());
        assert(rest@ == s@.drop_first());
        if v.len() > 1 && v[1] == '+' {
            assert(rest@[0] == '+');
            proof {
                lemma_value_grows(rest@, 1, 10);
                assert(rest@.take(1) == seq!['+']);
                assert(digits_value(seq!['+'], 10) is None);
            }
            return None;
        }
        match parse(rest.as_str(), 10, 0x8000_0000) {
            Some(n) => Some((-(n as i64)) as i32),
            None => None,
        }
    } else {
        match parse(s, 10, 0x7fff_ffff) {
            Some(n) => Some(n as i32),
            None => None,
        }
    }
}

/// The decimal digits of a number are digits, and stand for it.
pub proof fn decimal_round_trip(n: nat)
    ensures
        decimal(n).len() > 0,
        digits_value(decimal(n), 10) == Some(n),
        forall|i: int| 0 <= i < decimal(n).len() ==> '0' <= #[trigger] decimal(n)[i] <= '9',
    decreases n,
{
    if n >= 10 {
        decimal_round_trip(n / 10);
        let s = decimal(n);
        assert(s.drop_last() == decimal(n / 10));
    }
}

} // verus!
