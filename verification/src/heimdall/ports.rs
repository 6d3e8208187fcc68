//! The ports that an on-demand scan probes.

use vstd::prelude::*;
use vstd::seq_lib::{to_multiset_build, to_multiset_insert};

verus! {

/// Common service ports.
pub const COMMON_PORTS: [u16; 32] = [
    21, 22, 23, 25, 53, 80, 110, 139, 143, 443, 445, 554, 587, 631, 993, 995, 1883, 3000, 3306,
    3389, 5000, 5432, 5900, 6379, 8000, 8080, 8081, 8443, 8883, 9000, 9090, 32400,
];

/// Whether `ports` grow.
pub open spec fn ascending(ports: Seq<u16>) -> bool {
    forall|i: int, j: int| 0 <= i < j < ports.len() ==> #[trigger] ports[i] <= #[trigger] ports[j]
}

/// The ports `found`, from the smallest to the largest.
pub fn sort_ports(found: &Vec<u16>) -> (r: Vec<u16>)
    ensures
        ascending(r@),
        r@.to_multiset() == found@.to_multiset(),
{
    let mut r: Vec<u16> = Vec::new();
    let mut i: usize = 0;
    assert(found@.take(0) == r@);
    while i < found.len()
        invariant
            i <= found@.len(),
            ascending(r@),
            r@.to_multiset() == found@.take(i as int).to_multiset(),
        decreases found@.len() - i,
    {
        let x = found[i];
        let mut pos: usize = 0;
        while pos < r.len() && r[pos] <= x
            invariant
                pos <= r@.len(),
                forall|j: int| 0 <= j < pos ==> #[trigger] r@[j] <= x,
            decreases r@.len() - pos,
        {
            pos += 1;
        }
        let ghost before = r@;
        r.insert(pos, x);
        assert(ascending(r@)) by {
            assert forall|a: int, b: int| 0 <= a < b < r@.len() implies #[trigger] r@[a]
                <= #[trigger] r@[b] by {
                let oa = if a < pos { a } else { a - 1 };
                let ob = if b < pos { b } else { b - 1 };
                if a != pos {
                    assert(r@[a] == before[oa]);
                }
                if b != pos {
                    assert(r@[b] == before[ob]);
                }
                if a == pos && pos < before.len() {
                    assert(before[pos as int] > x);
                }
            }
        }
        assert(r@ == before.insert(pos as int, x));
        assert(found@.take(i + 1) == found@.take(i as int).push(x));
        proof {
            to_multiset_insert(before, pos as int, x);
            to_multiset_build(found@.take(i as int), x);
        }
        i += 1;
    }
    assert(found@.take(found@.len() as int) == found@);
    r
}

} // verus!
