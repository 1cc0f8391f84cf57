use vstd::prelude::*;
use std::collections::HashSet;
use crate::message::{opt_view, GossipMessage, MessageView};

verus! {

broadcast use vstd::std_specs::hash::group_hash_axioms;

/// The number of identifiers the cache remembers before it forgets them all.
pub const MAX_CACHE_SIZE: usize = 128;

/// `m` with its hop budget lowered by one.
pub open spec fn decremented(m: MessageView) -> MessageView {
    MessageView { ttl: (m.ttl - 1) as u8, ..m }
}

/// The identifiers remembered after `id` is accepted into `seen`: it is added,
/// and if that takes the set over capacity the whole set is cleared.
pub open spec fn remember(seen: Set<u32>, id: u32) -> Set<u32> {
    if seen.insert(id).len() > MAX_CACHE_SIZE {
        Set::empty()
    } else {
        seen.insert(id)
    }
}

/// The outcome of handling `m` with `seen` remembered: the identifiers
/// remembered afterwards, and the message to relay, if any.
pub open spec fn handle_spec(seen: Set<u32>, m: MessageView) -> (Set<u32>, Option<MessageView>) {
    if seen.contains(m.id) || m.ttl == 0 {
        (seen, None)
    } else {
        (remember(seen, m.id), Some(decremented(m)))
    }
}

/// A set of identifiers that a cache can hold.
pub open spec fn valid_seen(seen: Set<u32>) -> bool {
    seen.finite() && seen.len() <= MAX_CACHE_SIZE
}

/// The state and the outcomes after handling each of `ms` in turn,
/// starting with `seen` remembered.
pub open spec fn handle_all(seen: Set<u32>, ms: Seq<MessageView>) -> (Set<u32>, Seq<Option<MessageView>>)
    decreases ms.len(),
{
    if ms.len() == 0 {
        (seen, Seq::empty())
    } else {
        let prev = handle_all(seen, ms.drop_last());
        let step = handle_spec(prev.0, ms.last());
        (step.0, prev.1.push(step.1))
    }
}

/// The messages of `ms` all have a hop budget, and no two share an identifier.
pub open spec fn fresh_live_messages(ms: Seq<MessageView>) -> bool {
    &&& forall|i: int| 0 <= i < ms.len() ==> #[trigger] ms[i].ttl > 0
    &&& forall|i: int, j: int| 0 <= i < j < ms.len() ==> #[trigger] ms[i].id != #[trigger] ms[j].id
}

/// A message with a spent hop budget is always dropped, and the cache does
/// not change, whatever it remembers.
pub proof fn lemma_ttl_floor(seen: Set<u32>, m: MessageView)
    requires
        m.ttl == 0,
    ensures
        handle_spec(seen, m) == (seen, None::<MessageView>),
{
}

/// In a fresh cache, a message with a hop budget is accepted and comes back
/// with the budget lowered by one; any later message with the same
/// identifier, whatever its budget, is then dropped.
pub proof fn lemma_dedup_fresh(m: MessageView, again: MessageView)
    requires
        m.ttl > 0,
        again.id == m.id,
    ensures
        handle_spec(Set::empty(), m).1 == Some(decremented(m)),
        handle_spec(handle_spec(Set::empty(), m).0, again).1 is None,
{
    let s = Set::<u32>::empty().insert(m.id);
    assert(s.len() == 1);
}

/// Once a message has been accepted, a message with the same identifier is
/// dropped, unless accepting the first one cleared the cache.
pub proof fn lemma_dedup(seen: Set<u32>, m: MessageView, again: MessageView)
    requires
        valid_seen(seen),
        handle_spec(seen, m).1 is Some,
        again.id == m.id,
    ensures
        handle_spec(seen, m).0 == Set::<u32>::empty() || handle_spec(handle_spec(seen, m).0, again).1
            is None,
{
}

proof fn lemma_fresh_prefix(ms: Seq<MessageView>)
    requires
        fresh_live_messages(ms),
        ms.len() > 0,
    ensures
        fresh_live_messages(ms.drop_last()),
{
    let init = ms.drop_last();
    assert forall|i: int, j: int| 0 <= i < j < init.len() implies #[trigger] init[i].id
        != #[trigger] init[j].id by {
        assert(init[i] == ms[i] && init[j] == ms[j]);
    }
    assert forall|i: int| 0 <= i < init.len() implies #[trigger] init[i].ttl > 0 by {
        assert(init[i] == ms[i]);
    }
}

proof fn lemma_fill(ms: Seq<MessageView>)
    requires
        fresh_live_messages(ms),
        ms.len() <= MAX_CACHE_SIZE,
    ensures
        handle_all(Set::empty(), ms).0.finite(),
        handle_all(Set::empty(), ms).0.len() == ms.len(),
        forall|id: u32| #[trigger] handle_all(Set::empty(), ms).0.contains(id)
            <==> exists|i: int| 0 <= i < ms.len() && ms[i].id == id,
        handle_all(Set::empty(), ms).1.len() == ms.len(),
        forall|i: int| 0 <= i < ms.len() ==> #[trigger] handle_all(Set::empty(), ms).1[i] == Some(
            decremented(ms[i]),
        ),
    decreases ms.len(),
{
    if ms.len() > 0 {
        let init = ms.drop_last();
        lemma_fresh_prefix(ms);
        lemma_fill(init);
        let prev = handle_all(Set::empty(), init);
        let last = ms.last();
        assert(ms[ms.len() - 1].ttl > 0);
        if prev.0.contains(last.id) {
            let i = choose|i: int| 0 <= i < init.len() && init[i].id == last.id;
            assert(ms[i].id != ms[ms.len() - 1].id);
        }
        let s = handle_all(Set::empty(), ms).0;
        assert forall|id: u32| #[trigger] s.contains(id)
            <==> exists|i: int| 0 <= i < ms.len() && ms[i].id == id by {
            if s.contains(id) && id != last.id {
                let i = choose|i: int| 0 <= i < init.len() && init[i].id == id;
                assert(ms[i].id == id);
            }
            if s.contains(id) && id == last.id {
                assert(ms[ms.len() - 1].id == id);
            }
            if exists|i: int| 0 <= i < ms.len() && ms[i].id == id {
                let i = choose|i: int| 0 <= i < ms.len() && ms[i].id == id;
                if i < ms.len() - 1 {
                    assert(init[i].id == id);
                }
            }
        }
        let outs = handle_all(Set::empty(), ms).1;
        assert forall|i: int| 0 <= i < ms.len() implies #[trigger] outs[i] == Some(
            decremented(ms[i]),
        ) by {
            if i < ms.len() - 1 {
                assert(init[i] == ms[i]);
            }
        }
    }
}

/// Once a fresh cache has accepted one more distinct identifier than its
/// capacity, it has forgotten them all: each of those messages was relayed,
/// and any message that carries one of their identifiers and a hop budget is
/// accepted again.
pub proof fn lemma_capacity_reset(ms: Seq<MessageView>, again: MessageView)
    requires
        fresh_live_messages(ms),
        ms.len() == MAX_CACHE_SIZE + 1,
        exists|i: int| 0 <= i < ms.len() && ms[i].id == again.id,
        again.ttl > 0,
    ensures
        forall|i: int| 0 <= i < ms.len() ==> #[trigger] handle_all(Set::empty(), ms).1[i] == Some(
            decremented(ms[i]),
        ),
        handle_all(Set::empty(), ms).0 == Set::<u32>::empty(),
        handle_spec(handle_all(Set::empty(), ms).0, again).1 == Some(decremented(again)),
{
    let init = ms.drop_last();
    lemma_fresh_prefix(ms);
    lemma_fill(init);
    let prev = handle_all(Set::empty(), init);
    let last = ms.last();
    assert(ms[ms.len() - 1].ttl > 0);
    if prev.0.contains(last.id) {
        let i = choose|i: int| 0 <= i < init.len() && init[i].id == last.id;
        assert(ms[i].id != ms[ms.len() - 1].id);
    }
    assert(prev.0.insert(last.id).len() == MAX_CACHE_SIZE + 1);
    let outs = handle_all(Set::empty(), ms).1;
    assert forall|i: int| 0 <= i < ms.len() implies #[trigger] outs[i] == Some(decremented(ms[i])) by {
        if i < ms.len() - 1 {
            assert(init[i] == ms[i]);
        }
    }
}

/// Remembers which message identifiers this node has already accepted and
/// decides, for each incoming message, whether it is relayed or dropped.
pub struct GossipCache {
    seen: HashSet<u32>,
}

impl View for GossipCache {
    type V = Set<u32>;

    closed spec fn view(&self) -> Set<u32> {
        self.seen@
    }
}

impl GossipCache {
    pub open spec fn wf(&self) -> bool {
        valid_seen(self@)
    }

    /// An empty cache.
    pub fn new() -> (r: GossipCache)
        ensures
            r@ == Set::<u32>::empty(),
            r.wf(),
    {
        GossipCache { seen: HashSet::new() }
    }

    /// Whether `id` is currently remembered.
    pub fn contains(&self, id: u32) -> (r: bool)
        ensures
            r == self@.contains(id),
    {
        self.seen.contains(&id)
    }

    /// The number of identifiers currently remembered.
    pub fn len(&self) -> (r: usize)
        requires
            self.wf(),
        ensures
            r == self@.len(),
    {
        self.seen.len()
    }

    /// Accepts `msg` if its identifier is new and its hop budget is not
    /// spent, returning it with the budget lowered by one; otherwise drops it.
    /// An accepted identifier is remembered, and when that takes the cache
    /// over `MAX_CACHE_SIZE` identifiers, every identifier is forgotten.
    pub fn handle(&mut self, msg: GossipMessage) -> (r: Option<GossipMessage>)
        requires
            old(self).wf(),
        ensures
            final(self).wf(),
            (final(self)@, opt_view(r)) == handle_spec(old(self)@, msg@),
    {
        if self.seen.contains(&msg.id) {
            return None;
        }
        if msg.ttl == 0 {
            return None;
        }
        self.seen.insert(msg.id);
        if self.seen.len() > MAX_CACHE_SIZE {
            self.seen.clear();
        }
        let ghost m = msg@;
        let r = GossipMessage { ttl: msg.ttl - 1, ..msg };
        assert(r@ == decremented(m));
        Some(r)
    }
}

} // verus!
