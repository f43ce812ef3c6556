//! Stable ordering by size, largest first, as the front ends list entries
//! and workspace groups.
use vstd::prelude::*;
use crate::model::{Entry, WorkspaceGroup};

verus! {

/// Something with a size in bytes.
pub trait ByteSized {
    /// The size in bytes.
    spec fn byte_size(&self) -> nat;

    /// The size in bytes.
    fn bytes(&self) -> (r: u64)
        ensures
            r == self.byte_size(),
    ;
}

impl ByteSized for Entry {
    open spec fn byte_size(&self) -> nat {
        self.size_bytes as nat
    }

    fn bytes(&self) -> (r: u64) {
        self.size_bytes
    }
}

impl ByteSized for WorkspaceGroup {
    open spec fn byte_size(&self) -> nat {
        self.total_size_bytes as nat
    }

    fn bytes(&self) -> (r: u64) {
        self.total_size_bytes
    }
}

/// `out` is `input` reordered by `perm` (`out[i]` is `input[perm[i]]`, each
/// index used once), largest size first, items of equal size in their
/// input order.
pub open spec fn stable_desc<T: ByteSized>(input: Seq<T>, out: Seq<T>, perm: Seq<int>) -> bool {
    &&& out.len() == input.len()
    &&& perm.len() == input.len()
    &&& forall|i: int| 0 <= i < out.len() ==> 0 <= #[trigger] perm[i] < input.len()
    &&& forall|i: int| 0 <= i < out.len() ==> #[trigger] out[i] == input[perm[i]]
    &&& forall|i: int, j: int| 0 <= i < j < out.len() ==> #[trigger] perm[i] != #[trigger] perm[j]
    &&& forall|i: int, j: int|
        0 <= i < j < out.len() ==> (#[trigger] out[i]).byte_size() >= (#[trigger] out[j]).byte_size()
    &&& forall|i: int, j: int|
        0 <= i < j < out.len() && (#[trigger] out[i]).byte_size() == (#[trigger] out[j]).byte_size()
            ==> perm[i] < perm[j]
}

/// Sorts by size, largest first; items of equal size keep their order
/// (a stable sort, as `sort_by` with a descending size comparison is).
pub fn sort_by_size_desc<T: ByteSized>(items: Vec<T>) -> (r: Vec<T>)
    ensures
        exists|perm: Seq<int>| stable_desc(items@, r@, perm),
{
    let ghost input = items@;
    let mut rest = items;
    let mut out: Vec<T> = Vec::new();
    let ghost mut perm: Seq<int> = seq![];
    while rest.len() > 0
        invariant
            rest@ == input.take(rest@.len() as int),
            rest@.len() <= input.len(),
            out@.len() == perm.len(),
            out@.len() + rest@.len() == input.len(),
            forall|i: int| 0 <= i < out@.len() ==> rest@.len() <= #[trigger] perm[i] < input.len(),
            forall|i: int| 0 <= i < out@.len() ==> #[trigger] out@[i] == input[perm[i]],
            forall|i: int, j: int| 0 <= i < j < out@.len() ==> #[trigger] perm[i] != #[trigger] perm[j],
            forall|i: int, j: int|
                0 <= i < j < out@.len() ==> (#[trigger] out@[i]).byte_size() >= (
                #[trigger] out@[j]).byte_size(),
            forall|i: int, j: int|
                0 <= i < j < out@.len() && (#[trigger] out@[i]).byte_size() == (
                #[trigger] out@[j]).byte_size() ==> perm[i] < perm[j],
        decreases rest@.len(),
    {
        let ghost k = rest@.len() - 1;
        let e = rest.pop().unwrap();
        assert(e == input[k]);
        assert(rest@ =~= input.take(k));
        let size = e.bytes();
        let mut j: usize = 0;
        while j < out.len() && out[j].bytes() > size
            invariant
                j <= out@.len(),
                size == e.byte_size(),
                forall|i: int| 0 <= i < j ==> (#[trigger] out@[i]).byte_size() > e.byte_size(),
            decreases out@.len() - j,
        {
            j = j + 1;
        }
        let ghost old_out = out@;
        let ghost old_perm = perm;
        out.insert(j, e);
        proof {
            perm = perm.insert(j as int, k);
            assert forall|i: int| 0 <= i < out@.len() implies #[trigger] out@[i] == input[perm[i]] by {
                if i < j {
                    assert(out@[i] == old_out[i] && perm[i] == old_perm[i]);
                } else if i > j {
                    assert(out@[i] == old_out[i - 1] && perm[i] == old_perm[i - 1]);
                }
            }
            assert forall|i: int| 0 <= i < out@.len() implies k <= #[trigger] perm[i] < input.len() by {
                if i < j {
                    assert(perm[i] == old_perm[i]);
                } else if i > j {
                    assert(perm[i] == old_perm[i - 1]);
                }
            }
            assert forall|a: int, b: int| 0 <= a < b < out@.len() implies #[trigger] perm[a]
                != #[trigger] perm[b] by {
                if a < j && b < j {
                    assert(perm[a] == old_perm[a] && perm[b] == old_perm[b]);
                } else if a < j && b > j {
                    assert(perm[a] == old_perm[a] && perm[b] == old_perm[b - 1]);
                } else if a > j {
                    assert(perm[a] == old_perm[a - 1] && perm[b] == old_perm[b - 1]);
                } else if a == j {
                    assert(perm[b] == old_perm[b - 1]);
                } else {
                    assert(perm[a] == old_perm[a]);
                }
            }
            assert forall|a: int, b: int| 0 <= a < b < out@.len() implies (
            #[trigger] out@[a]).byte_size() >= (#[trigger] out@[b]).byte_size() by {
                if j < old_out.len() {
                    assert(old_out[j as int].byte_size() <= e.byte_size());
                }
                if a < j && b < j {
                    assert(out@[a] == old_out[a] && out@[b] == old_out[b]);
                } else if a < j && b > j {
                    assert(out@[a] == old_out[a] && out@[b] == old_out[b - 1]);
                } else if a > j {
                    assert(out@[a] == old_out[a - 1] && out@[b] == old_out[b - 1]);
                } else if a == j {
                    assert(out@[b] == old_out[b - 1]);
                    if b - 1 > j {
                        assert(old_out[j as int].byte_size() >= old_out[b - 1].byte_size());
                    }
                } else {
                    assert(out@[a] == old_out[a]);
                }
            }
            assert forall|a: int, b: int|
                0 <= a < b < out@.len() && (#[trigger] out@[a]).byte_size() == (
                #[trigger] out@[b]).byte_size() implies perm[a] < perm[b] by {
                if a < j && b < j {
                    assert(out@[a] == old_out[a] && out@[b] == old_out[b]);
                    assert(perm[a] == old_perm[a] && perm[b] == old_perm[b]);
                } else if a < j && b > j {
                    assert(out@[a] == old_out[a] && out@[b] == old_out[b - 1]);
                    assert(perm[a] == old_perm[a] && perm[b] == old_perm[b - 1]);
                    if j < old_out.len() {
                        assert(old_out[j as int].byte_size() <= e.byte_size());
                        if b - 1 > j {
                            assert(old_out[j as int].byte_size() >= old_out[b - 1].byte_size());
                        }
                    }
                } else if a > j {
                    assert(out@[a] == old_out[a - 1] && out@[b] == old_out[b - 1]);
                    assert(perm[a] == old_perm[a - 1] && perm[b] == old_perm[b - 1]);
                } else if a == j {
                    assert(perm[b] == old_perm[b - 1]);
                } else {
                    assert(out@[a] == old_out[a]);
                }
            }
        }
    }
    assert(stable_desc(input, out@, perm));
    out
}

/// `out` is `sorted` with each group's entries sorted by size, largest
/// first (stably); roots and totals kept.
pub open spec fn entries_sorted_within(sorted: Seq<WorkspaceGroup>, out: Seq<WorkspaceGroup>) -> bool {
    &&& out.len() == sorted.len()
    &&& forall|i: int|
        0 <= i < out.len() ==> (#[trigger] out[i]).root == sorted[i].root
            && out[i].total_size_bytes == sorted[i].total_size_bytes
            && exists|p: Seq<int>| stable_desc(sorted[i].entries@, out[i].entries@, p)
}

/// Orders workspace groups for display: groups by total size, largest
/// first, and the entries of each group by size, largest first (both
/// stable).
pub fn arrange_groups(groups: Vec<WorkspaceGroup>) -> (r: Vec<WorkspaceGroup>)
    ensures
        exists|sorted: Seq<WorkspaceGroup>, perm: Seq<int>|
            stable_desc(groups@, sorted, perm) && entries_sorted_within(sorted, r@),
{
    let mut sorted = sort_by_size_desc(groups);
    let ghost s0 = sorted@;
    let mut out: Vec<WorkspaceGroup> = Vec::new();
    let ghost mut n: int = 0;
    assert(s0.skip(0) =~= s0);
    while sorted.len() > 0
        invariant
            0 <= n <= s0.len(),
            sorted@ == s0.skip(n),
            out@.len() == n,
            forall|i: int|
                0 <= i < n ==> (#[trigger] out@[i]).root == s0[i].root && out@[i].total_size_bytes
                    == s0[i].total_size_bytes && exists|p: Seq<int>|
                    stable_desc(s0[i].entries@, out@[i].entries@, p),
        decreases sorted@.len(),
    {
        let g = sorted.remove(0);
        assert(sorted@ =~= s0.skip(n + 1));
        assert(g == s0[n]);
        let ghost ge = g.entries@;
        assert(ge == s0[n].entries@);
        let entries = sort_by_size_desc(g.entries);
        let ghost pe = choose|p: Seq<int>| stable_desc(ge, entries@, p);
        let ng = WorkspaceGroup { root: g.root, entries, total_size_bytes: g.total_size_bytes };
        let ghost before = out@;
        out.push(ng);
        proof {
            assert forall|i: int|
                0 <= i < n + 1 implies (#[trigger] out@[i]).root == s0[i].root
                    && out@[i].total_size_bytes == s0[i].total_size_bytes && exists|p: Seq<int>|
                    stable_desc(s0[i].entries@, out@[i].entries@, p) by {
                if i < n {
                    assert(out@[i] == before[i]);
                } else {
                    assert(out@[i] == ng);
                    assert(stable_desc(s0[i].entries@, out@[i].entries@, pe));
                }
            }
            n = n + 1;
        }
    }
    assert(entries_sorted_within(s0, out@));
    out
}

} // verus!
