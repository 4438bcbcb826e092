//! Loading a saved session.

use vstd::prelude::*;

use crate::action::Action;
use crate::api::{MetricStructure, QuantizationMode};

verus! {

/// What a saved session says, as far as the engine is concerned.
pub struct SavedSession {
    pub sample_rate: usize,
    /// The metric structure, or what is wrong with it.
    pub metric_structure: Result<MetricStructure, String>,
    pub sync_mode: QuantizationMode,
    /// The metronome level, in percent.
    pub metronome_volume: u8,
    /// The ids of the saved loopers, in the order of the file.
    pub looper_ids: Vec<u32>,
}

/// What loading a session begins with.
pub struct SessionStart {
    pub actions: Vec<Action>,
    /// The places of the saved loopers in the file, in the order in which they
    /// are to be restored; or what is wrong with the session.
    pub order: Result<Vec<usize>, String>,
}

/// Whether the looper at place `a` of the file comes before the one at place
/// `b`: by id, and as in the file where the ids are equal.
pub open spec fn comes_before(ids: Seq<u32>, a: usize, b: usize) -> bool {
    ids[a as int] < ids[b as int] || (ids[a as int] == ids[b as int] && a < b)
}

/// Whether an order names every place of the file once, the lower ids first.
pub open spec fn is_restore_order(ids: Seq<u32>, order: Seq<usize>) -> bool {
    &&& order.len() == ids.len()
    &&& forall|i: int| 0 <= i < order.len() ==> (#[trigger] order[i]) < ids.len()
    &&& forall|i: int, j: int|
        0 <= i < j < order.len() ==> comes_before(ids, #[trigger] order[i], #[trigger] order[j])
}

/// There is only one such order.
pub proof fn law_restore_order_unique(ids: Seq<u32>, a: Seq<usize>, b: Seq<usize>)
    requires
        ids.len() <= usize::MAX,
        is_restore_order(ids, a),
        is_restore_order(ids, b),
    ensures
        a == b,
{
    lemma_order_covers(ids, a);
    lemma_order_covers(ids, b);
    assert forall|k: int| 0 <= k < a.len() implies #[trigger] a[k] == b[k] by {
        lemma_same_at(ids, a, b, k);
    }
    assert(a =~= b);
}

/// Loopers are restored in the order of their ids, those with the same id in the
/// order of the file, and each of them once.
pub proof fn law_lower_ids_first(ids: Seq<u32>, order: Seq<usize>)
    requires
        ids.len() <= usize::MAX,
        is_restore_order(ids, order),
    ensures
        order.len() == ids.len(),
        order.no_duplicates(),
        forall|p: usize| p < ids.len() ==> order.contains(p),
        forall|i: int, j: int|
            0 <= i < j < order.len() ==> {
                &&& ids[(#[trigger] order[i]) as int] <= ids[(#[trigger] order[j]) as int]
                &&& ids[order[i] as int] == ids[order[j] as int] ==> order[i] < order[j]
            },
{
    lemma_order_covers(ids, order);
    assert forall|i: int, j: int| 0 <= i < j < order.len() implies comes_before(
        ids,
        #[trigger] order[i],
        #[trigger] order[j],
    ) by {}
}

proof fn lemma_order_covers(ids: Seq<u32>, order: Seq<usize>)
    requires
        ids.len() <= usize::MAX,
        is_restore_order(ids, order),
    ensures
        forall|p: usize| p < ids.len() ==> order.contains(p),
{
    let places = order.map_values(|p: usize| p as int);
    assert(places.no_duplicates()) by {
        assert forall|i: int, j: int|
            0 <= i < places.len() && 0 <= j < places.len() && i != j implies places[i]
            != places[j] by {
            if i < j {
                assert(comes_before(ids, order[i], order[j]));
            } else {
                assert(comes_before(ids, order[j], order[i]));
            }
        }
    }
    let range = vstd::set_lib::set_int_range(0, ids.len() as int);
    vstd::set_lib::lemma_int_range(0, ids.len() as int);
    places.unique_seq_to_set();
    assert(places.to_set().subset_of(range)) by {
        assert forall|x: int| places.to_set().contains(x) implies range.contains(x) by {
            let i = places.index_of(x);
            assert(order[i] < ids.len());
        }
    }
    vstd::set_lib::lemma_subset_equality(places.to_set(), range);
    assert forall|p: usize| p < ids.len() implies order.contains(p) by {
        assert(range.contains(p as int));
        let i = places.index_of(p as int);
        assert(order[i] == p);
    }
}

proof fn lemma_same_at(ids: Seq<u32>, a: Seq<usize>, b: Seq<usize>, k: int)
    requires
        is_restore_order(ids, a),
        is_restore_order(ids, b),
        forall|p: usize| p < ids.len() ==> a.contains(p),
        forall|p: usize| p < ids.len() ==> b.contains(p),
        0 <= k < a.len(),
    ensures
        a[k] == b[k],
    decreases k,
{
    assert forall|j: int| 0 <= j < k implies #[trigger] a[j] == b[j] by {
        lemma_same_at(ids, a, b, j);
    }
    if a[k] != b[k] {
        assert(b.contains(a[k]) && a.contains(b[k]));
        let i = b.index_of(a[k]);
        let j = a.index_of(b[k]);
        assert(b[i] == a[k] && a[j] == b[k]);
        if i < k {
            assert(a[i] == b[i]);
            assert(comes_before(ids, a[i], a[k]));
        }
        if j < k {
            assert(a[j] == b[j]);
            assert(comes_before(ids, b[j], b[k]));
        }
        assert(comes_before(ids, b[k], b[i]));
        assert(comes_before(ids, a[k], a[j]));
    }
}

/// Works out the order in which saved loopers are restored.
pub fn restore_order(ids: &Vec<u32>) -> (r: Vec<usize>)
    ensures
        is_restore_order(ids@, r@),
{
    let mut r: Vec<usize> = Vec::new();
    let mut n: usize = 0;
    while n < ids.len()
        invariant
            n <= ids.len(),
            r@.len() == n,
            forall|i: int| 0 <= i < n ==> (#[trigger] r@[i]) < n,
            forall|i: int, j: int|
                0 <= i < j < n ==> comes_before(ids@, #[trigger] r@[i], #[trigger] r@[j]),
        decreases ids.len() - n,
    {
        let mut k: usize = n;
        while k > 0 && ids[r[k - 1]] > ids[n]
            invariant
                k <= n < ids.len(),
                r@.len() == n,
                forall|i: int| 0 <= i < n ==> (#[trigger] r@[i]) < n,
                forall|i: int| k <= i < n ==> ids@[(#[trigger] r@[i]) as int] > ids@[n as int],
            decreases k,
        {
            k = k - 1;
        }
        let ghost before = r@;
        r.insert(k, n);
        proof {
            assert(r@ =~= before.insert(k as int, n));
            assert forall|i: int| 0 <= i < n + 1 implies (#[trigger] r@[i]) < n + 1 by {
                if i < k {
                    assert(r@[i] == before[i]);
                } else if i > k {
                    assert(r@[i] == before[i - 1]);
                }
            }
            assert forall|i: int, j: int| 0 <= i < j < n + 1 implies comes_before(
                ids@,
                #[trigger] r@[i],
                #[trigger] r@[j],
            ) by {
                let a = if i < k { before[i] } else { before[i - 1] };
                let b = if j < k { before[j] } else { before[j - 1] };
                if i != k && j != k {
                    assert(comes_before(ids@, a, b));
                } else if j == k {
                    if i < k - 1 {
                        assert(comes_before(ids@, before[i], before[k - 1]));
                    }
                }
            }
        }
        n = n + 1;
    }
    r
}

} // verus!
