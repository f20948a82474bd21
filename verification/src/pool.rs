//! Reconciliation of one frame's draw requests with a pool of persistent
//! render entities. The pool only ever grows: an entity that a frame does not
//! need is hidden, never removed.
use vstd::prelude::*;

verus! {

/// A persistent render entity: a visibility flag and the components that the
/// renderer reads for its kind of shape.
#[derive(Debug, PartialEq, Eq)]
pub struct PoolEntity<C> {
    pub is_visible: bool,
    pub components: C,
}

/// A draw request that determines the components of the entity showing it.
pub trait Shape: Sized {
    /// What a render entity for this kind of shape carries.
    type Components;

    /// Whether the request describes something that can be drawn at all.
    spec fn drawable(&self) -> bool;

    /// The components of an entity that shows this request.
    spec fn rendered(&self) -> Self::Components;

    /// Computes the components of an entity that shows this request.
    fn render(&self) -> (c: Self::Components)
        requires
            self.drawable(),
        ensures
            c == self.rendered(),
    ;
}

/// What one reconciliation pass did to its pool.
#[derive(Clone, Copy, Debug, PartialEq, Eq)]
pub struct FrameStats {
    /// Existing entities that were overwritten from a request and shown.
    pub updated: usize,
    /// Existing entities that no request needed and that were hidden.
    pub hidden: usize,
    /// Entities that were created because the pool was too small.
    pub created: usize,
}

/// The visible entity that shows `request`.
pub open spec fn shown<S: Shape>(request: S) -> PoolEntity<S::Components> {
    PoolEntity { is_visible: true, components: request.rendered() }
}

/// `entity` made invisible and otherwise left as it was.
pub open spec fn hidden<C>(entity: PoolEntity<C>) -> PoolEntity<C> {
    PoolEntity { is_visible: false, components: entity.components }
}

/// The larger of two lengths.
pub open spec fn longer(a: nat, b: nat) -> nat {
    if a >= b {
        a
    } else {
        b
    }
}

/// The smaller of two lengths.
pub open spec fn shorter(a: nat, b: nat) -> nat {
    if a <= b {
        a
    } else {
        b
    }
}

/// Every request in `requests` can be drawn.
pub open spec fn all_drawable<S: Shape>(requests: Seq<S>) -> bool {
    forall|i: int| 0 <= i < requests.len() ==> (#[trigger] requests[i]).drawable()
}

/// The pool after one frame: requests are paired with entities by position,
/// in insertion order. A paired entity shows its request, an entity without a
/// request is hidden, and a request without an entity gets a new one at the
/// end of the pool.
pub open spec fn reconciled<S: Shape>(
    pool: Seq<PoolEntity<S::Components>>,
    requests: Seq<S>,
) -> Seq<PoolEntity<S::Components>> {
    Seq::new(
        longer(pool.len(), requests.len()),
        |i: int|
            if i < requests.len() {
                shown(requests[i])
            } else {
                hidden(pool[i])
            },
    )
}

/// The counts of a pass over a pool of `entities` entities with `requests`
/// requests.
pub open spec fn frame_stats(entities: nat, requests: nat) -> FrameStats {
    FrameStats {
        updated: shorter(entities, requests) as usize,
        hidden: (entities - shorter(entities, requests)) as usize,
        created: (requests - shorter(entities, requests)) as usize,
    }
}

/// The pairing of one frame. Of a pool of M entities and N requests, the first
/// min(N, M) entities are overwritten from their requests and shown, the
/// other M - min(N, M) entities are hidden and otherwise left alone, and
/// N - min(N, M) entities are created, each showing its request. The pool
/// holds max(N, M) entities afterwards, so it never shrinks, and an entity is
/// visible exactly when a request was paired with it.
pub proof fn lemma_reconciled_pairing<S: Shape>(
    pool: Seq<PoolEntity<S::Components>>,
    requests: Seq<S>,
)
    requires
        pool.len() <= usize::MAX,
        requests.len() <= usize::MAX,
    ensures
        reconciled(pool, requests).len() == longer(pool.len(), requests.len()),
        reconciled(pool, requests).len() >= pool.len(),
        forall|i: int|
            0 <= i < shorter(pool.len(), requests.len()) ==> #[trigger] reconciled(
                pool,
                requests,
            )[i] == shown(requests[i]),
        forall|i: int|
            requests.len() <= i < pool.len() ==> #[trigger] reconciled(pool, requests)[i]
                == hidden(pool[i]),
        forall|i: int|
            pool.len() <= i < requests.len() ==> #[trigger] reconciled(pool, requests)[i]
                == shown(requests[i]),
        forall|i: int|
            0 <= i < reconciled(pool, requests).len() ==> ((#[trigger] reconciled(
                pool,
                requests,
            )[i]).is_visible <==> i < requests.len()),
        frame_stats(pool.len(), requests.len()).updated == shorter(pool.len(), requests.len()),
        frame_stats(pool.len(), requests.len()).hidden == if pool.len() > requests.len() {
            pool.len() - requests.len()
        } else {
            0
        },
        frame_stats(pool.len(), requests.len()).created == if requests.len() > pool.len() {
            requests.len() - pool.len()
        } else {
            0
        },
{
}

/// A frame without requests after a frame with requests hides every entity
/// of the pool, removes none and changes nothing else: the pool keeps the
/// size that the busy frame gave it, which is at least the number of its
/// requests. Further empty frames change nothing at all.
pub proof fn lemma_empty_frame_keeps_pool<S: Shape>(
    pool: Seq<PoolEntity<S::Components>>,
    requests: Seq<S>,
)
    requires
        pool.len() <= usize::MAX,
        requests.len() <= usize::MAX,
    ensures
        ({
            let busy = reconciled(pool, requests);
            let idle = reconciled(busy, Seq::<S>::empty());
            &&& idle.len() == busy.len()
            &&& idle.len() >= requests.len()
            &&& pool.len() == 0 ==> idle.len() == requests.len()
            &&& forall|i: int|
                0 <= i < idle.len() ==> #[trigger] idle[i] == hidden(busy[i]) && !idle[i].is_visible
            &&& frame_stats(busy.len(), 0) == (FrameStats {
                updated: 0,
                hidden: busy.len() as usize,
                created: 0,
            })
            &&& reconciled(idle, Seq::<S>::empty()) == idle
        }),
{
    let busy = reconciled(pool, requests);
    let idle = reconciled(busy, Seq::<S>::empty());
    assert(reconciled(idle, Seq::<S>::empty()) =~= idle);
}

/// Runs one reconciliation pass: walks `pool` and `requests` in lock-step,
/// overwrites and shows each paired entity, hides the entities left over, and
/// appends a new visible entity for each request left over.
pub fn reconcile<S: Shape>(pool: &mut Vec<PoolEntity<S::Components>>, requests: &Vec<S>) -> (stats:
    FrameStats)
    requires
        all_drawable(requests@),
    ensures
        final(pool)@ == reconciled(old(pool)@, requests@),
        stats == frame_stats(old(pool)@.len(), requests@.len()),
{
    let entities: usize = pool.len();
    let wanted: usize = requests.len();
    let paired: usize = if entities <= wanted {
        entities
    } else {
        wanted
    };
    let mut i: usize = 0;
    while i < paired
        invariant
            i <= paired,
            paired == shorter(entities as nat, wanted as nat),
            entities == old(pool)@.len(),
            wanted == requests@.len(),
            pool@.len() == entities,
            all_drawable(requests@),
            forall|k: int| 0 <= k < i ==> pool@[k] == shown(requests@[k]),
            forall|k: int| i <= k < entities ==> pool@[k] == old(pool)@[k],
        decreases paired - i,
    {
        let components = requests[i].render();
        pool[i] = PoolEntity { is_visible: true, components };
        i += 1;
    }
    while i < entities
        invariant
            paired <= i <= entities,
            paired == shorter(entities as nat, wanted as nat),
            entities == old(pool)@.len(),
            wanted == requests@.len(),
            pool@.len() == entities,
            forall|k: int| 0 <= k < paired ==> pool@[k] == shown(requests@[k]),
            forall|k: int| paired <= k < i ==> pool@[k] == hidden(old(pool)@[k]),
            forall|k: int| i <= k < entities ==> pool@[k] == old(pool)@[k],
        decreases entities - i,
    {
        pool[i].is_visible = false;
        i += 1;
    }
    let mut j: usize = paired;
    while j < wanted
        invariant
            paired <= j <= wanted,
            paired == shorter(entities as nat, wanted as nat),
            entities == old(pool)@.len(),
            wanted == requests@.len(),
            j > paired ==> paired == entities,
            pool@.len() == entities + (j - paired),
            all_drawable(requests@),
            forall|k: int| 0 <= k < paired ==> pool@[k] == shown(requests@[k]),
            forall|k: int| paired <= k < entities ==> pool@[k] == hidden(old(pool)@[k]),
            forall|k: int| entities <= k < pool@.len() ==> pool@[k] == shown(requests@[k]),
        decreases wanted - j,
    {
        let components = requests[j].render();
        pool.push(PoolEntity { is_visible: true, components });
        j += 1;
    }
    assert(pool@ =~= reconciled(old(pool)@, requests@));
    FrameStats { updated: paired, hidden: entities - paired, created: wanted - paired }
}

} // verus!
