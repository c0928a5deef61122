//! The routing table: tracks by SSRC.

use vstd::prelude::*;

use crate::media::track::TrackContext;
use crate::room::index::{
    keyed_at, keys_get, keys_insert, keys_new, keys_of, keys_remove, Place,
};

verus! {

pub struct Router {
    /// Places by SSRC.
    pub by_ssrc: dashmap::DashMap<u64, Place>,
    pub slots: Vec<Option<TrackContext>>,
}

/// Whether there is a track at a place.
pub open spec fn routed_at(slots: Seq<Option<TrackContext>>, i: int) -> bool {
    0 <= i < slots.len() && slots[i] is Some
}

impl Router {
    /// SSRCs lead to tracks, and no two to the same.
    pub open spec fn wf(&self) -> bool {
        let m = keys_of(self.by_ssrc);
        &&& forall|k: u64| #[trigger]
            m.dom().contains(k) ==> routed_at(self.slots@, m[k].0 as int)
        &&& forall|j: u64, k: u64|
            #![trigger m.dom().contains(j), m.dom().contains(k)]
            m.dom().contains(j) && m.dom().contains(k) && j != k ==> m[j].0 != m[k].0
    }

    /// The track of an SSRC.
    pub open spec fn track(&self, ssrc: u32) -> Option<TrackContext> {
        match keyed_at(keys_of(self.by_ssrc), ssrc as u64) {
            Some(p) => self.slots@[p.0 as int],
            None => None,
        }
    }

    pub fn new() -> (r: Self)
        ensures
            r.wf(),
            forall|s: u32| #[trigger] r.track(s) is None,
    {
        Router { by_ssrc: keys_new(), slots: Vec::new() }
    }

    /// Enters a track; it replaces the one that the SSRC had.
    pub fn register(&mut self, ssrc: u32, ctx: TrackContext)
        requires
            old(self).wf(),
        ensures
            final(self).wf(),
            final(self).track(ssrc) == Some(ctx),
            forall|s: u32| s != ssrc ==> #[trigger] final(self).track(s) == old(self).track(s),
    {
        let ghost before = *self;
        let i: usize = self.slots.len();
        self.slots.push(Some(ctx));
        keys_insert(&mut self.by_ssrc, ssrc as u64, (i, false));
        proof {
            let m = keys_of(self.by_ssrc);
            let b = keys_of(before.by_ssrc);
            assert forall|k: u64| #[trigger] m.dom().contains(k) implies routed_at(
                self.slots@,
                m[k].0 as int,
            ) by {
                if k != ssrc as u64 {
                    assert(b.dom().contains(k));
                    assert(routed_at(before.slots@, b[k].0 as int));
                }
            }
            assert forall|j: u64, k: u64|
                #![trigger m.dom().contains(j), m.dom().contains(k)]
                m.dom().contains(j) && m.dom().contains(k) && j != k implies m[j].0 != m[k].0 by {
                if j != ssrc as u64 {
                    assert(b.dom().contains(j));
                    assert(routed_at(before.slots@, b[j].0 as int));
                }
                if k != ssrc as u64 {
                    assert(b.dom().contains(k));
                    assert(routed_at(before.slots@, b[k].0 as int));
                }
            }
            assert forall|s: u32| s != ssrc implies #[trigger] self.track(s) == before.track(s) by {
                if b.dom().contains(s as u64) {
                    assert(routed_at(before.slots@, b[s as u64].0 as int));
                }
            }
        }
    }

    /// Takes a track out.
    pub fn unregister(&mut self, ssrc: u32)
        requires
            old(self).wf(),
        ensures
            final(self).wf(),
            final(self).track(ssrc) is None,
            forall|s: u32| s != ssrc ==> #[trigger] final(self).track(s) == old(self).track(s),
    {
        let ghost before = *self;
        if let Some(p) = keys_get(&self.by_ssrc, ssrc as u64) {
            assert(keys_of(before.by_ssrc).dom().contains(ssrc as u64));
            keys_remove(&mut self.by_ssrc, ssrc as u64);
            self.slots.set(p.0, None);
            proof {
                let m = keys_of(self.by_ssrc);
                let b = keys_of(before.by_ssrc);
                assert forall|k: u64| #[trigger] m.dom().contains(k) implies routed_at(
                    self.slots@,
                    m[k].0 as int,
                ) by {
                    assert(b.dom().contains(k));
                    assert(routed_at(before.slots@, b[k].0 as int));
                }
                assert forall|j: u64, k: u64|
                    #![trigger m.dom().contains(j), m.dom().contains(k)]
                    m.dom().contains(j) && m.dom().contains(k) && j != k implies m[j].0 != m[k].0 by {
                    assert(b.dom().contains(j) && b.dom().contains(k));
                }
                assert forall|s: u32| s != ssrc implies #[trigger] self.track(s) == before.track(s) by {
                    if b.dom().contains(s as u64) {
                        assert(routed_at(before.slots@, b[s as u64].0 as int));
                    }
                }
            }
        }
    }

    pub fn lookup(&self, ssrc: u32) -> (r: Option<&TrackContext>)
        requires
            self.wf(),
        ensures
            match r {
                Some(t) => self.track(ssrc) == Some(*t),
                None => self.track(ssrc) is None,
            },
    {
        match keys_get(&self.by_ssrc, ssrc as u64) {
            Some(p) => {
                assert(keys_of(self.by_ssrc).dom().contains(ssrc as u64));
                match &self.slots[p.0] {
                    Some(t) => Some(t),
                    None => None,
                }
            },
            None => None,
        }
    }
}

} // verus!
