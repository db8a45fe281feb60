//! The report of a port scan: which ports answered, in ascending order.

use vstd::prelude::*;
use vstd::seq_lib::{to_multiset_build, to_multiset_insert};

verus! {

/// The ports of `results` that were found open, in the order given.
pub open spec fn open_of(results: Seq<(u16, bool)>) -> Seq<u16>
    decreases results.len(),
{
    if results.len() == 0 {
        Seq::empty()
    } else if results.last().1 {
        open_of(results.drop_last()).push(results.last().0)
    } else {
        open_of(results.drop_last())
    }
}

pub open spec fn ascending(s: Seq<u16>) -> bool {
    forall|i: int, j: int| 0 <= i < j < s.len() ==> s[i] <= s[j]
}

/// Puts `p` into the ascending `v` after the entries not above it.
fn insert_sorted(v: &mut Vec<u16>, p: u16)
    requires
        ascending(old(v)@),
    ensures
        ascending(final(v)@),
        final(v)@.to_multiset() == old(v)@.to_multiset().insert(p),
{
    let mut k: usize = 0;
    while k < v.len() && v[k] <= p
        invariant
            k <= v@.len(),
            forall|j: int| 0 <= j < k ==> v@[j] <= p,
        decreases v@.len() - k,
    {
        k = k + 1;
    }
    proof {
        to_multiset_insert(v@, k as int, p);
    }
    let ghost before = v@;
    v.insert(k, p);
    proof {
        assert forall|i: int, j: int| 0 <= i < j < v@.len() implies v@[i] <= v@[j] by {
            if j < k {
                assert(v@[i] == before[i] && v@[j] == before[j]);
            } else if j == k {
                assert(v@[i] == before[i]);
            } else if i == k {
                assert(v@[j] == before[j - 1]);
                assert(before[k as int] > p);
                if j - 1 > k {
                    assert(before[k as int] <= before[j - 1]);
                }
            } else if i < k {
                assert(v@[i] == before[i]);
                assert(v@[j] == before[j - 1]);
            } else {
                assert(v@[i] == before[i - 1]);
                assert(v@[j] == before[j - 1]);
            }
        }
    }
}

/// The open ports among the scan's results, in ascending order.
pub fn open_ports(results: &[(u16, bool)]) -> (ports: Vec<u16>)
    ensures
        ascending(ports@),
        ports@.to_multiset() == open_of(results@).to_multiset(),
{
    let mut ports: Vec<u16> = Vec::new();
    let mut i: usize = 0;
    while i < results.len()
        invariant
            i <= results@.len(),
            ascending(ports@),
            ports@.to_multiset() == open_of(results@.take(i as int)).to_multiset(),
        decreases results@.len() - i,
    {
        proof {
            assert(results@.take(i + 1).drop_last() =~= results@.take(i as int));
        }
        let (port, open) = results[i];
        if open {
            insert_sorted(&mut ports, port);
            proof {
                to_multiset_build(open_of(results@.take(i as int)), port);
            }
        }
        i = i + 1;
    }
    proof {
        assert(results@.take(i as int) =~= results@);
    }
    ports
}

} // verus!
