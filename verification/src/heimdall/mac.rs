//! What the bits of a hardware address say about it.
//!
//! Beyond the vendor prefix, all of it lies in the two lowest bits of the first
//! octet: bit 0 tells a group address from that of one card, and bit 1 one that
//! was set locally (by privacy randomisation, a virtual machine or by hand) from
//! one assigned by a vendor.

use vstd::prelude::*;
use crate::number::{digit_value, digits_value, parse, parsed};
use crate::text::{chars_of, trim, trimmed, up_to};

verus! {

/// What a hardware address's bits say about it.
#[derive(Clone, Copy, Debug, PartialEq, Eq, Structural)]
pub enum Kind {
    /// Assigned by a vendor to one card: the vendor prefix has a meaning.
    Universal,
    /// Set locally, on one card: the vendor prefix has no meaning.
    Local,
    /// A group address: multicast, or the all-ones broadcast.
    Group,
}

/// What the first octet `n` of an address says about it.
pub open spec fn kind_of(n: nat) -> Kind {
    if n % 2 == 1 {
        Kind::Group
    } else if (n / 2) % 2 == 1 {
        Kind::Local
    } else {
        Kind::Universal
    }
}

/// What the address `mac` says about itself: its first field is an octet in
/// hexadecimal notation.
pub open spec fn classified(mac: Seq<char>) -> Option<Kind> {
    match parsed(trimmed(up_to(mac, seq![':', '-'])), 16, 255) {
        Some(n) => Some(kind_of(n)),
        None => None,
    }
}

/// The first field of `mac`.
fn first_field(mac: &str) -> (r: String)
    ensures
        r@ == up_to(mac@, seq![':', '-']),
{
    let ghost stops = seq![':', '-'];
    let v = chars_of(mac);
    let mut r = String::new();
    let mut i: usize = 0;
    assert(v@.skip(0) == v@);
    assert(r@ + up_to(v@, stops) == up_to(v@, stops));
    while i < v.len() && v[i] != ':' && v[i] != '-'
        invariant
            i <= v@.len(),
            stops == seq![':', '-'],
            r@ + up_to(v@.skip(i as int), stops) == up_to(v@, stops),
        decreases v@.len() - i,
    {
        let ghost rest = v@.skip(i as int);
        assert(rest.drop_first() == v@.skip(i + 1));
        assert(!stops.contains(rest[0]));
        let ghost before = r@;
        r.push(v[i]);
        assert(before + (seq![rest[0]] + up_to(rest.drop_first(), stops)) == r@ + up_to(
            rest.drop_first(),
            stops,
        ));
        i += 1;
    }
    let ghost rest = v@.skip(i as int);
    assert(rest.len() > 0 ==> rest[0] == v@[i as int]);
    assert(stops[0] == ':' && stops[1] == '-');
    assert(rest.len() > 0 ==> stops.contains(rest[0]));
    assert(r@ + Seq::<char>::empty() == r@);
    r
}

/// What the address `mac`, written `aa:bb:cc:…` or `aa-bb-cc-…`, says about
/// itself. `None` where its first field is no octet in hexadecimal notation.
pub fn classify(mac: &str) -> (r: Option<Kind>)
    ensures
        r == classified(mac@),
{
    let field = first_field(mac);
    let field = trim(field.as_str());
    match parse(field.as_str(), 16, 255) {
        Some(n) => Some(
            if n % 2 == 1 {
                Kind::Group
            } else if (n / 2) % 2 == 1 {
                Kind::Local
            } else {
                Kind::Universal
            },
        ),
        None => None,
    }
}

/// The second digit of an address tells whether it was set locally on one card:
/// it is then one of 2, 6, A and E.
pub proof fn local_has_telling_digit(a: char, b: char)
    requires
        digit_value(a, 16) is Some,
        digit_value(b, 16) is Some,
    ensures
        ({
            let n = parsed(seq![a, b], 16, 255);
            let d = digit_value(b, 16)->0;
            n is Some && (kind_of(n->0) == Kind::Local <==> d == 2 || d == 6 || d == 10 || d == 14)
        }),
{
    let s = seq![a, b];
    assert(s.drop_last() == seq![a]);
    assert(digits_value(s.drop_last(), 16) == digit_value(a, 16));
    assert(a != '+');
    let da = digit_value(a, 16)->0;
    let db = digit_value(b, 16)->0;
    assert(digits_value(s, 16) == Some(da * 16 + db));
}

} // verus!
