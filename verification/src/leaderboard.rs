//! Leaderboard ranking: orders catalog positions by registration count,
//! highest first, with ties broken by catalog order.

use crate::catalog::CatalogEntry;
use crate::catalog::CatalogEntryView;
use crate::registry::RegistrationStore;
use vstd::prelude::*;

verus! {

/// The ranking order is correct and stable: counts never rise along the
/// order, and equal counts keep their catalog order.
pub open spec fn sorted_stable(counts: Seq<usize>, order: Seq<usize>) -> bool {
    forall|p: int, q: int|
        0 <= p < q < order.len() ==> {
            ||| counts[(#[trigger] order[p]) as int] > counts[(#[trigger] order[q]) as int]
            ||| (counts[order[p] as int] == counts[order[q] as int] && order[p] < order[q])
        }
}

/// Every catalog position below `m` occurs in the order.
pub open spec fn covers_upto(order: Seq<usize>, m: int) -> bool {
    forall|v: usize| v < m ==> #[trigger] order.contains(v)
}

/// The positions of a catalog of `counts.len()` entries, ranked by
/// registration count, highest first; entries with equal counts keep
/// their catalog order. The result is a permutation of the positions:
/// sortedness with stability forbids repeats, and `covers_upto` shows
/// every position present.
pub fn leaderboard_order(counts: &Vec<usize>) -> (order: Vec<usize>)
    ensures
        order@.len() == counts@.len(),
        forall|k: int| 0 <= k < order@.len() ==> (#[trigger] order@[k]) < counts@.len(),
        sorted_stable(counts@, order@),
        covers_upto(order@, counts@.len() as int),
{
    let n = counts.len();
    let mut order: Vec<usize> = Vec::new();
    let mut m: usize = 0;
    while m < n
        invariant
            n == counts@.len(),
            m <= n,
            order@.len() == m,
            forall|k: int| 0 <= k < m ==> (#[trigger] order@[k]) < m,
            sorted_stable(counts@, order@),
            covers_upto(order@, m as int),
        decreases n - m,
    {
        let mut p: usize = 0;
        while p < m && counts[order[p]] >= counts[m]
            invariant
                n == counts@.len(),
                m < n,
                order@.len() == m,
                forall|k: int| 0 <= k < m ==> (#[trigger] order@[k]) < m,
                p <= m,
                forall|j: int| 0 <= j < p ==> counts@[(#[trigger] order@[j]) as int] >= counts@[m as int],
            decreases m - p,
        {
            p += 1;
        }
        let ghost pre = order@;
        order.insert(p, m);
        proof {
            pre.insert_ensures(p as int, m);
            let cur = order@;
            assert(cur == pre.insert(p as int, m as usize));
            assert forall|k: int| 0 <= k < m + 1 implies (#[trigger] cur[k]) < m + 1 by {
                if k < p {
                    assert(cur[k] == pre[k]);
                } else if k > p {
                    assert(cur[k] == pre[k - 1]);
                }
            }
            assert forall|x: int, q: int| 0 <= x < q < cur.len() implies {
                ||| counts@[(#[trigger] cur[x]) as int] > counts@[(#[trigger] cur[q]) as int]
                ||| (counts@[cur[x] as int] == counts@[cur[q] as int] && cur[x] < cur[q])
            } by {
                if q < p {
                    assert(cur[x] == pre[x]);
                    assert(cur[q] == pre[q]);
                } else if x > p {
                    assert(cur[x] == pre[x - 1]);
                    assert(cur[q] == pre[q - 1]);
                } else if x < p && q == p {
                    assert(cur[x] == pre[x]);
                    assert(cur[q] == m as usize);
                    assert(counts@[pre[x] as int] >= counts@[m as int]);
                    assert(pre[x] < m);
                } else if x < p && q > p {
                    assert(cur[x] == pre[x]);
                    assert(cur[q] == pre[q - 1]);
                } else {
                    assert(x == p && q > p);
                    assert(cur[x] == m as usize);
                    assert(cur[q] == pre[q - 1]);
                    // the find loop stopped because position p held a
                    // strictly smaller count, and stability orders the
                    // rest of the tail below it
                    assert(p < m);
                    assert(counts@[pre[p as int] as int] < counts@[m as int]);
                    if q - 1 > p {
                        assert(counts@[pre[p as int] as int] >= counts@[pre[q - 1] as int]);
                    }
                }
            }
            assert forall|v: usize| v < m + 1 implies #[trigger] cur.contains(v) by {
                if v == m {
                    assert(cur[p as int] == m as usize);
                } else {
                    assert(pre.contains(v));
                    let k0 = choose|k0: int| 0 <= k0 < pre.len() && pre[k0] == v;
                    if k0 < p {
                        assert(cur[k0] == pre[k0]);
                    } else {
                        assert(cur[k0 + 1] == pre[k0]);
                    }
                }
            }
        }
        m += 1;
    }
    order
}

/// How many users hold a registration for the catalog entry at
/// position `i`.
pub open spec fn spec_position_count(
    store: RegistrationStore,
    cat: Seq<CatalogEntryView>,
    i: int,
) -> nat {
    store.total_count(cat[i].id)
}

/// The catalog positions ranked by live registration count, highest
/// first; positions with equal counts keep their catalog order.
pub fn leaderboard_positions(store: &RegistrationStore, catalog: &Vec<CatalogEntry>) -> (order:
    Vec<usize>)
    requires
        store.wf(),
    ensures
        order@.len() == catalog@.len(),
        forall|k: int| 0 <= k < order@.len() ==> (#[trigger] order@[k]) < catalog@.len(),
        covers_upto(order@, catalog@.len() as int),
        forall|p: int, q: int|
            0 <= p < q < order@.len() ==> {
                ||| spec_position_count(*store, catalog.deep_view(), order@[p] as int)
                    > spec_position_count(*store, catalog.deep_view(), order@[q] as int)
                ||| (spec_position_count(*store, catalog.deep_view(), order@[p] as int)
                    == spec_position_count(*store, catalog.deep_view(), order@[q] as int)
                    && order@[p] < order@[q])
            },
{
    let n = catalog.len();
    let mut counts: Vec<usize> = Vec::new();
    let mut k: usize = 0;
    while k < n
        invariant
            store.wf(),
            n == catalog@.len(),
            k <= n,
            counts@.len() == k,
            forall|j: int|
                0 <= j < k ==> (#[trigger] counts@[j]) as nat == spec_position_count(
                    *store,
                    catalog.deep_view(),
                    j,
                ),
        decreases n - k,
    {
        let c = store.count_for_event(&catalog[k].id);
        counts.push(c);
        k += 1;
    }
    leaderboard_order(&counts)
}

} // verus!
