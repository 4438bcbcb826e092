//! What the engine knows of its loopers, and how it picks among them.

use vstd::prelude::*;

use crate::api::{FrameTime, LooperMode, Part, PartSet};

verus! {

/// A looper as the engine sees it. The audio itself is kept elsewhere; whoever
/// keeps it reports each change of the looper to the engine.
#[derive(Clone, Copy, Debug, PartialEq, Eq, Structural)]
pub struct Looper {
    pub id: u32,
    /// Whether the looper is about to be removed.
    pub deleted: bool,
    /// The parts that the looper plays in.
    pub parts: PartSet,
    pub mode: LooperMode,
    /// The mode as far as the looper has acted on it itself.
    pub local_mode: LooperMode,
    /// The length of the loop in frames; 0 while nothing is recorded.
    pub length: u64,
    /// Where the loop begins.
    pub offset: FrameTime,
}

/// A way to pick loopers.
#[derive(Clone, Copy, Debug, PartialEq, Eq, Structural)]
pub enum Selector {
    Any,
    WithId(u32),
    /// Not deleted.
    Live,
    /// Not deleted, and in the part.
    LiveIn(Part),
}

impl Selector {
    /// Whether a looper is picked.
    pub open spec fn picks(self, looper: Looper) -> bool {
        match self {
            Selector::Any => true,
            Selector::WithId(id) => looper.id == id,
            Selector::Live => !looper.deleted,
            Selector::LiveIn(part) => !looper.deleted && looper.parts.has(part),
        }
    }

    fn accepts(&self, looper: &Looper) -> (r: bool)
        ensures
            r == self.picks(*looper),
    {
        match self {
            Selector::Any => true,
            Selector::WithId(id) => looper.id == *id,
            Selector::Live => !looper.deleted,
            Selector::LiveIn(part) => !looper.deleted && looper.parts.contains(*part),
        }
    }
}

/// The positions of the picked loopers, in order.
pub open spec fn positions(loopers: Seq<Looper>, selector: Selector) -> Seq<usize>
    decreases loopers.len(),
{
    if loopers.len() == 0 {
        Seq::empty()
    } else {
        let before = positions(loopers.drop_last(), selector);
        if selector.picks(loopers.last()) {
            before.push((loopers.len() - 1) as usize)
        } else {
            before
        }
    }
}

/// The positions are those of exactly the picked loopers, each once and in
/// ascending order.
pub proof fn lemma_positions(loopers: Seq<Looper>, selector: Selector)
    requires
        loopers.len() <= usize::MAX,
    ensures
        positions(loopers, selector).len() <= loopers.len(),
        forall|k: int|
            0 <= k < positions(loopers, selector).len() ==> {
                &&& (#[trigger] positions(loopers, selector)[k]) < loopers.len()
                &&& selector.picks(loopers[positions(loopers, selector)[k] as int])
            },
        forall|j: int, k: int|
            0 <= j < k < positions(loopers, selector).len() ==> positions(loopers, selector)[j]
                < positions(loopers, selector)[k],
        forall|i: int|
            0 <= i < loopers.len() && selector.picks(#[trigger] loopers[i]) ==> positions(
                loopers,
                selector,
            ).contains(i as usize),
    decreases loopers.len(),
{
    if loopers.len() > 0 {
        let shorter = loopers.drop_last();
        lemma_positions(shorter, selector);
        let before = positions(shorter, selector);
        let all = positions(loopers, selector);
        assert forall|i: int|
            0 <= i < loopers.len() && selector.picks(#[trigger] loopers[i]) implies all.contains(
            i as usize,
        ) by {
            if i < loopers.len() - 1 {
                assert(loopers[i] == shorter[i]);
                let k = before.index_of(i as usize);
                assert(all[k] == before[k]);
            } else {
                assert(all[all.len() - 1] == i as usize);
            }
        }
        assert forall|k: int| 0 <= k < all.len() implies {
            &&& (#[trigger] all[k]) < loopers.len()
            &&& selector.picks(loopers[all[k] as int])
        } by {
            if k < before.len() {
                assert(all[k] == before[k]);
                assert(loopers[before[k] as int] == shorter[before[k] as int]);
            }
        }
    }
}

/// Every looper is picked by `Any`, at its own position.
pub proof fn lemma_positions_any(loopers: Seq<Looper>)
    ensures
        positions(loopers, Selector::Any) =~= Seq::new(loopers.len(), |i: int| i as usize),
    decreases loopers.len(),
{
    if loopers.len() > 0 {
        lemma_positions_any(loopers.drop_last());
    }
}

/// Finds the positions of the picked loopers.
pub fn select(loopers: &Vec<Looper>, selector: Selector) -> (r: Vec<usize>)
    ensures
        r@ == positions(loopers@, selector),
{
    let mut r: Vec<usize> = Vec::new();
    let mut i: usize = 0;
    assert(loopers@.take(0) =~= Seq::<Looper>::empty());
    while i < loopers.len()
        invariant
            i <= loopers.len(),
            r@ == positions(loopers@.take(i as int), selector),
        decreases loopers.len() - i,
    {
        assert(loopers@.take(i + 1).drop_last() =~= loopers@.take(i as int));
        if selector.accepts(&loopers[i]) {
            r.push(i);
        }
        i = i + 1;
    }
    assert(loopers@.take(i as int) =~= loopers@);
    r
}

} // verus!
