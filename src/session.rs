use vstd::prelude::*;

use crate::universe::Universe;

verus! {

/// The ids of the universes whose send was not delivered, in render order.
pub open spec fn failed_ids(universes: Seq<Universe>, delivered: Seq<bool>) -> Seq<u16>
    decreases universes.len(),
{
    if universes.len() == 0 {
        Seq::empty()
    } else {
        let head = failed_ids(universes.drop_last(), delivered.drop_last());
        if delivered.last() {
            head
        } else {
            head.push(universes.last().id)
        }
    }
}

/// Collects the ids of the universes whose send failed, given one delivery flag
/// per universe.
pub fn failed_universes(universes: &[Universe], delivered: &[bool]) -> (r: Vec<u16>)
    requires
        universes@.len() == delivered@.len(),
    ensures
        r@ == failed_ids(universes@, delivered@),
{
    let mut failed: Vec<u16> = Vec::new();
    let mut i: usize = 0;
    while i < universes.len()
        invariant
            i <= universes@.len(),
            universes@.len() == delivered@.len(),
            failed@ == failed_ids(universes@.take(i as int), delivered@.take(i as int)),
        decreases universes@.len() - i,
    {
        assert(universes@.take(i + 1).drop_last() =~= universes@.take(i as int));
        assert(delivered@.take(i + 1).drop_last() =~= delivered@.take(i as int));
        if !delivered[i] {
            failed.push(universes[i].id);
        }
        i = i + 1;
    }
    assert(universes@.take(i as int) =~= universes@);
    assert(delivered@.take(i as int) =~= delivered@);
    failed
}

/// The universes that a transport has streamed to, each once, in the order of
/// their first send: those that need a termination signal at teardown.
pub struct Streams {
    sent: Vec<u16>,
}

impl Streams {
    /// The ids streamed to so far.
    pub closed spec fn active(&self) -> Seq<u16> {
        self.sent@
    }

    pub open spec fn wf(&self) -> bool {
        self.active().no_duplicates()
    }

    /// No universe streamed to yet.
    pub fn new() -> (r: Streams)
        ensures
            r.wf(),
            r.active() == Seq::<u16>::empty(),
    {
        Streams { sent: Vec::new() }
    }

    /// Whether `id` was streamed to.
    pub fn contains(&self, id: u16) -> (r: bool)
        ensures
            r == self.active().contains(id),
    {
        let mut i: usize = 0;
        while i < self.sent.len()
            invariant
                i <= self.sent@.len(),
                forall|j: int| 0 <= j < i ==> self.sent@[j] != id,
            decreases self.sent@.len() - i,
        {
            if self.sent[i] == id {
                return true;
            }
            i = i + 1;
        }
        false
    }

    /// Notes the universes of a render as streamed to; ids already known keep
    /// their place.
    pub fn record(&mut self, universes: &[Universe])
        requires
            old(self).wf(),
        ensures
            final(self).wf(),
            final(self).active().to_set() == old(self).active().to_set() + universes@.map_values(
                |u: Universe| u.id,
            ).to_set(),
            final(self).active().take(old(self).active().len() as int) == old(self).active(),
    {
        let ghost start = self.active();
        let ghost ids = universes@.map_values(|u: Universe| u.id);
        let mut i: usize = 0;
        while i < universes.len()
            invariant
                i <= universes@.len(),
                ids == universes@.map_values(|u: Universe| u.id),
                self.wf(),
                self.active().to_set() == start.to_set() + ids.take(i as int).to_set(),
                self.active().len() >= start.len(),
                self.active().take(start.len() as int) == start,
            decreases universes@.len() - i,
        {
            let id = universes[i].id;
            let ghost before = self.active();
            assert(ids.take(i + 1) =~= ids.take(i as int).push(id));
            if !self.contains(id) {
                self.sent.push(id);
                assert(self.active() == before.push(id));
                assert(self.active().take(start.len() as int) =~= before.take(start.len() as int));
                assert(self.active().to_set() =~= before.to_set().insert(id)) by {
                    before.lemma_push_to_set_commute(id);
                }
            }
            assert(ids.take(i + 1).to_set() =~= ids.take(i as int).to_set().insert(id)) by {
                ids.take(i as int).lemma_push_to_set_commute(id);
            }
            assert(self.active().to_set() =~= start.to_set() + ids.take(i + 1).to_set());
            i = i + 1;
        }
        assert(ids.take(i as int) =~= ids);
    }

    /// The universes to send a termination signal to, each once.
    pub fn to_terminate(&self) -> (r: Vec<u16>)
        ensures
            r@ == self.active(),
    {
        self.sent.clone()
    }
}

} // verus!
