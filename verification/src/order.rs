//! The order of hashes: byte by byte, the first difference decides.

use core::cmp::Ordering;
use vstd::prelude::*;
use vstd::std_specs::cmp::PartialOrdSpecImpl;

verus! {

/// The first position at which `a` and `b` differ, or the length of the
/// shorter if one is the start of the other.
pub open spec fn first_difference(a: Seq<u8>, b: Seq<u8>) -> int
    decreases a.len(),
{
    if a.len() == 0 || b.len() == 0 || a[0] != b[0] {
        0
    } else {
        1 + first_difference(a.drop_first(), b.drop_first())
    }
}

/// Whether `a` comes before `b`: at the first position where they differ, the
/// byte of `a` is the smaller one.
pub open spec fn comes_before(a: Seq<u8>, b: Seq<u8>) -> bool {
    let at = first_difference(a, b);
    at < a.len() && at < b.len() && a[at] < b[at]
}

/// `first_difference` is a position where the two runs differ, after a
/// common start.
pub proof fn lemma_first_difference(a: Seq<u8>, b: Seq<u8>)
    requires
        a.len() == b.len(),
    ensures
        0 <= first_difference(a, b) <= a.len(),
        first_difference(a, b) == first_difference(b, a),
        forall|i: int| 0 <= i < first_difference(a, b) ==> a[i] == b[i],
        first_difference(a, b) < a.len() ==> a[first_difference(a, b)] != b[first_difference(a, b)],
        first_difference(a, b) == a.len() <==> a == b,
    decreases a.len(),
{
    if a.len() > 0 && a[0] == b[0] {
        let x = a.drop_first();
        let y = b.drop_first();
        lemma_first_difference(x, y);
        assert forall|i: int| 0 <= i < first_difference(a, b) implies a[i] == b[i] by {
            if i > 0 {
                assert(a[i] == x[i - 1] && b[i] == y[i - 1]);
            }
        }
        if first_difference(a, b) < a.len() {
            let at = first_difference(x, y);
            assert(a[at + 1] == x[at] && b[at + 1] == y[at]);
        }
        if x == y {
            assert(a =~= b);
        }
        if a == b {
            assert(x =~= y);
        }
    } else if a.len() == 0 {
        assert(a =~= b);
    }
}

/// A position where two runs differ, after a common start, is their first difference.
pub proof fn lemma_first_difference_is(a: Seq<u8>, b: Seq<u8>, at: int)
    requires
        a.len() == b.len(),
        0 <= at <= a.len(),
        forall|i: int| 0 <= i < at ==> a[i] == b[i],
        at < a.len() ==> a[at] != b[at],
    ensures
        first_difference(a, b) == at,
{
    lemma_first_difference(a, b);
}

/// Of two runs of one length, exactly one holds: the first comes before the
/// second, they are the same, or the second comes before the first.
pub proof fn lemma_order_total(a: Seq<u8>, b: Seq<u8>)
    requires
        a.len() == b.len(),
    ensures
        comes_before(a, b) || a == b || comes_before(b, a),
        !(comes_before(a, b) && a == b),
        !(comes_before(a, b) && comes_before(b, a)),
        !(a == b && comes_before(b, a)),
{
    lemma_first_difference(a, b);
}

/// The order is transitive.
pub proof fn lemma_order_transitive(a: Seq<u8>, b: Seq<u8>, c: Seq<u8>)
    requires
        a.len() == b.len(),
        b.len() == c.len(),
        comes_before(a, b),
        comes_before(b, c),
    ensures
        comes_before(a, c),
{
    lemma_first_difference(a, b);
    lemma_first_difference(b, c);
    let ab = first_difference(a, b);
    let bc = first_difference(b, c);
    let at = if ab <= bc { ab } else { bc };
    lemma_first_difference_is(a, c, at);
}

/// The first position at which two arrays differ, or thirty-two.
fn first_differing_byte(a: &[u8; 32], b: &[u8; 32]) -> (at: usize)
    ensures
        at == first_difference(a@, b@),
        at <= 32,
{
    let mut i: usize = 0;
    while i < 32 && a[i] == b[i]
        invariant
            i <= 32,
            forall|j: int| 0 <= j < i ==> a@[j] == b@[j],
        decreases 32 - i,
    {
        i += 1;
    }
    proof {
        lemma_first_difference_is(a@, b@, i as int);
    }
    i
}

impl PartialOrd for crate::hash::Hash {
    fn partial_cmp(&self, other: &crate::hash::Hash) -> (order: Option<Ordering>) {
        let at = first_differing_byte(&self.0, &other.0);
        proof {
            lemma_first_difference(self@, other@);
        }
        if at == 32 {
            Some(Ordering::Equal)
        } else if self.0[at] < other.0[at] {
            Some(Ordering::Less)
        } else {
            Some(Ordering::Greater)
        }
    }
}

impl PartialOrdSpecImpl for crate::hash::Hash {
    open spec fn obeys_partial_cmp_spec() -> bool {
        true
    }

    open spec fn partial_cmp_spec(&self, other: &crate::hash::Hash) -> Option<Ordering> {
        if self@ == other@ {
            Some(Ordering::Equal)
        } else if comes_before(self@, other@) {
            Some(Ordering::Less)
        } else {
            Some(Ordering::Greater)
        }
    }
}

} // verus!
