use vstd::prelude::*;

use crate::fixed::POS_MAX;
use crate::vec3::Vec3;

verus! {

/// Largest radius a surfel may carry, in fixed-point units.
pub const RADIUS_MAX: i64 = 0x400_0000_0000;

/// Largest confidence value any surfel may carry (2^20).
pub const CONF_CAP_MAX: u32 = 0x10_0000;

/// An oriented disk approximating a local surface patch.
#[derive(Clone, Copy, PartialEq, Eq, Structural, Debug)]
pub struct Surfel {
    pub pos: Vec3,
    pub normal: Vec3,
    pub radius: i64,
    pub color_r: u8,
    pub color_g: u8,
    pub color_b: u8,
    pub confidence: u32,
    pub created_at: u64,
    pub last_update: u64,
}

impl Surfel {
    /// Bounds under which every fusion and projection step stays exact:
    /// position within the map range, normal nonzero and within one unit,
    /// radius non-negative and capped.
    pub open spec fn wf(self) -> bool {
        &&& self.pos@.all_within(POS_MAX as int)
        &&& self.normal@.all_within(2 * (crate::fixed::SCALE as int))
        &&& 0x4000_0000 <= self.normal.norm_sq_spec() <= 0x4_0000_0000
        &&& 0 <= self.radius <= RADIUS_MAX
        &&& self.confidence <= CONF_CAP_MAX
    }
}

/// A stable handle to a surfel: the slot it occupies and the generation the
/// slot had when the surfel was created. A reused slot carries a higher
/// generation, so a stale handle never resolves to the new occupant.
#[derive(Clone, Copy, PartialEq, Eq, Structural, Debug)]
pub struct SurfelId {
    pub slot: usize,
    pub gen: u64,
}

pub open spec fn id_key(id: SurfelId) -> (int, int) {
    (id.slot as int, id.gen as int)
}

struct ArenaSlot {
    gen: u64,
    data: Option<Surfel>,
}

/// The arena owning all live surfels: an index-addressed slot array plus a
/// free list, with generation-tagged identifiers so that removed handles are
/// detected instead of silently resolving to a reused slot.
pub struct SurfelModel {
    slots: Vec<ArenaSlot>,
    free: Vec<usize>,
    retired: Ghost<Set<(int, int)>>,
}

impl SurfelModel {
    /// Whether `id` currently resolves to a live surfel.
    pub closed spec fn contains(self, id: SurfelId) -> bool {
        &&& (id.slot as int) < self.slots@.len()
        &&& self.slots@[id.slot as int].gen == id.gen
        &&& self.slots@[id.slot as int].data is Some
    }

    /// The surfel a live handle resolves to.
    pub closed spec fn surfel_at(self, id: SurfelId) -> Surfel {
        self.slots@[id.slot as int].data->Some_0
    }

    /// Handles whose surfel was removed; they never resolve again.
    pub closed spec fn retired_ids(self) -> Set<(int, int)> {
        self.retired@
    }

    /// Number of slots the arena has ever grown to.
    pub closed spec fn slot_count(self) -> int {
        self.slots@.len() as int
    }

    pub closed spec fn wf(self) -> bool {
        &&& forall|k: (int, int)|
            #[trigger] self.retired@.contains(k) ==> 0 <= k.0 < self.slots@.len() && k.1
                <= self.slots@[k.0].gen && (k.1 == self.slots@[k.0].gen
                ==> self.slots@[k.0].data is None)
        &&& forall|j: int|
            0 <= j < self.free@.len() ==> (#[trigger] self.free@[j] as int) < self.slots@.len()
                && self.slots@[self.free@[j] as int].data is None && !self.retired@.contains(
                (self.free@[j] as int, self.slots@[self.free@[j] as int].gen as int))
        &&& forall|j1: int, j2: int|
            0 <= j1 < j2 < self.free@.len() ==> #[trigger] self.free@[j1] != #[trigger] self.free@[j2]
        &&& forall|id: SurfelId| #[trigger] self.contains(id) ==> self.surfel_at(id).wf()
    }

    /// An empty map.
    pub fn new() -> (r: SurfelModel)
        ensures
            r.wf(),
            forall|id: SurfelId| !r.contains(id),
            r.retired_ids() == Set::<(int, int)>::empty(),
    {
        SurfelModel { slots: Vec::new(), free: Vec::new(), retired: Ghost(Set::empty()) }
    }

    /// How many slots the arena has ever grown to.
    pub fn slot_len(&self) -> (r: usize)
        ensures
            r == self.slot_count(),
    {
        self.slots.len()
    }

    /// Look a handle up; a removed or never-issued handle yields `None`.
    pub fn get(&self, id: SurfelId) -> (r: Option<&Surfel>)
        ensures
            match r {
                Some(s) => self.contains(id) && *s == self.surfel_at(id),
                None => !self.contains(id),
            },
    {
        if id.slot < self.slots.len() {
            let slot = &self.slots[id.slot];
            if slot.gen == id.gen {
                match &slot.data {
                    Some(s) => Some(s),
                    None => None,
                }
            } else {
                None
            }
        } else {
            None
        }
    }

    /// Insert a new surfel and hand back a fresh handle: one that did not
    /// resolve before, is not retired, and leaves every other handle exactly
    /// as it was.
    pub fn insert(&mut self, s: Surfel) -> (id: SurfelId)
        requires
            old(self).wf(),
            s.wf(),
            old(self).slot_count() < usize::MAX,
        ensures
            final(self).wf(),
            !old(self).contains(id),
            !old(self).retired_ids().contains(id_key(id)),
            final(self).contains(id),
            final(self).surfel_at(id) == s,
            final(self).retired_ids() == old(self).retired_ids(),
            final(self).slot_count() <= old(self).slot_count() + 1,
            final(self).live_count() == old(self).live_count() + 1,
            forall|o: SurfelId|
                o != id ==> (#[trigger] final(self).contains(o) == old(self).contains(o)) && (old(
                self).contains(o) ==> final(self).surfel_at(o) == old(self).surfel_at(o)),
    {
        match self.free.pop() {
            Some(i) => {
                proof {
                    let of = old(self).free@;
                    assert(of[of.len() - 1] == i);
                    assert(forall|j: int| 0 <= j < self.free@.len() ==> self.free@[j] == of[j]);
                }
                let gen = self.slots[i].gen;
                self.slots[i] = ArenaSlot { gen, data: Some(s) };
                let id = SurfelId { slot: i, gen };
                proof {
                    Self::lemma_count_update(old(self).slots@, i as int,
                        ArenaSlot { gen, data: Some(s) }, old(self).slots@.len() as int);
                    assert forall|k: (int, int)| #[trigger] self.retired@.contains(k) implies 0
                        <= k.0 < self.slots@.len() && k.1 <= self.slots@[k.0].gen && (k.1
                        == self.slots@[k.0].gen ==> self.slots@[k.0].data is None) by {
                        assert(old(self).retired@.contains(k));
                        if k.0 == i as int {
                            assert(k != (i as int, gen as int));
                        }
                    };
                    assert forall|o: SurfelId| o != id implies (#[trigger] self.contains(o)
                        == old(self).contains(o)) && (old(self).contains(o) ==> self.surfel_at(o)
                        == old(self).surfel_at(o)) by {
                        if o.slot == i {
                            assert(old(self).slots@[i as int].data is None);
                        }
                    };
                    let of = old(self).free@;
                    assert forall|j: int| 0 <= j < self.free@.len() implies (
                    #[trigger] self.free@[j] as int) < self.slots@.len() && self.slots@[
                        self.free@[j] as int].data is None && !self.retired@.contains(
                        (self.free@[j] as int, self.slots@[self.free@[j] as int].gen as int)) by {
                        assert(self.free@[j] == of[j]);
                        assert(of[j] != of[of.len() - 1]);
                        assert((of[j] as int) < old(self).slots@.len());
                    };
                    assert forall|j1: int, j2: int| 0 <= j1 < j2 < self.free@.len() implies
                        #[trigger] self.free@[j1] != #[trigger] self.free@[j2] by {
                        assert(self.free@[j1] == of[j1] && self.free@[j2] == of[j2]);
                    };
                    assert forall|o: SurfelId| #[trigger] self.contains(o) implies self.surfel_at(
                        o).wf() by {
                        if o != id {
                            assert(old(self).contains(o));
                        }
                    };
                }
                id
            },
            None => {
                let i = self.slots.len();
                self.slots.push(ArenaSlot { gen: 0, data: Some(s) });
                let id = SurfelId { slot: i, gen: 0 };
                proof {
                    Self::lemma_count_push(old(self).slots@, ArenaSlot { gen: 0, data: Some(s) });
                    assert forall|k: (int, int)| #[trigger] self.retired@.contains(k) implies 0
                        <= k.0 < self.slots@.len() && k.1 <= self.slots@[k.0].gen && (k.1
                        == self.slots@[k.0].gen ==> self.slots@[k.0].data is None) by {
                        assert(old(self).retired@.contains(k));
                        assert(k.0 < i as int);
                        assert(self.slots@[k.0] == old(self).slots@[k.0]);
                    };
                    if old(self).retired@.contains((i as int, 0int)) {
                        assert(false);
                    }
                    assert forall|j: int| 0 <= j < self.free@.len() implies (
                    #[trigger] self.free@[j] as int) < self.slots@.len() && self.slots@[
                        self.free@[j] as int].data is None && !self.retired@.contains(
                        (self.free@[j] as int, self.slots@[self.free@[j] as int].gen as int)) by {
                        assert(old(self).free@[j] == self.free@[j]);
                        assert((self.free@[j] as int) < old(self).slots@.len());
                    };
                    assert forall|o: SurfelId| o != id implies (#[trigger] self.contains(o)
                        == old(self).contains(o)) && (old(self).contains(o) ==> self.surfel_at(o)
                        == old(self).surfel_at(o)) by {
                        if (o.slot as int) < i as int {
                            assert(self.slots@[o.slot as int] == old(self).slots@[o.slot as int]);
                        }
                    };
                    assert forall|o: SurfelId| #[trigger] self.contains(o) implies self.surfel_at(
                        o).wf() by {
                        if o != id {
                            assert(old(self).contains(o));
                        }
                    };
                }
                id
            },
        }
    }

    /// Replace the surfel a live handle resolves to, leaving identity,
    /// retirement and every other handle untouched.
    pub fn update(&mut self, id: SurfelId, s: Surfel) -> (r: bool)
        requires
            old(self).wf(),
            s.wf(),
        ensures
            final(self).wf(),
            r == old(self).contains(id),
            final(self).retired_ids() == old(self).retired_ids(),
            final(self).slot_count() == old(self).slot_count(),
            final(self).live_count() == old(self).live_count(),
            forall|o: SurfelId|
                #[trigger] final(self).contains(o) == old(self).contains(o),
            r ==> final(self).surfel_at(id) == s,
            forall|o: SurfelId|
                o != id && old(self).contains(o) ==> #[trigger] final(self).surfel_at(o) == old(
                self).surfel_at(o),
    {
        if id.slot < self.slots.len() {
            let live = self.slots[id.slot].gen == id.gen && self.slots[id.slot].data.is_some();
            if live {
                self.slots[id.slot] = ArenaSlot { gen: id.gen, data: Some(s) };
                proof {
                    Self::lemma_count_update(old(self).slots@, id.slot as int,
                        ArenaSlot { gen: id.gen, data: Some(s) }, old(self).slots@.len() as int);
                    assert forall|k: (int, int)| #[trigger] self.retired@.contains(k) implies 0
                        <= k.0 < self.slots@.len() && k.1 <= self.slots@[k.0].gen && (k.1
                        == self.slots@[k.0].gen ==> self.slots@[k.0].data is None) by {
                        assert(old(self).retired@.contains(k));
                        if k.0 == id.slot as int {
                            assert(old(self).slots@[k.0].data is Some);
                        }
                    };
                    assert forall|j: int| 0 <= j < self.free@.len() implies (
                    #[trigger] self.free@[j] as int) < self.slots@.len() && self.slots@[
                        self.free@[j] as int].data is None && !self.retired@.contains(
                        (self.free@[j] as int, self.slots@[self.free@[j] as int].gen as int)) by {
                        assert(old(self).free@[j] == self.free@[j]);
                        assert(old(self).slots@[self.free@[j] as int].data is None);
                    };
                    assert forall|o: SurfelId| #[trigger] self.contains(o) implies self.surfel_at(
                        o).wf() by {
                        if o.slot != id.slot || o.gen != id.gen {
                            assert(old(self).contains(o));
                        }
                    };
                }
                return true;
            }
            false
        } else {
            false
        }
    }

    /// Remove the surfel a handle resolves to. The handle is retired: it will
    /// never resolve again, even if the slot is reused, because reuse raises
    /// the slot's generation.
    pub fn remove(&mut self, id: SurfelId) -> (r: bool)
        requires
            old(self).wf(),
        ensures
            final(self).wf(),
            r == old(self).contains(id),
            !final(self).contains(id),
            final(self).retired_ids() == if r {
                old(self).retired_ids().insert(id_key(id))
            } else {
                old(self).retired_ids()
            },
            final(self).slot_count() == old(self).slot_count(),
            final(self).live_count() == old(self).live_count() - (if r {
                1int
            } else {
                0int
            }),
            forall|o: SurfelId|
                o != id ==> (#[trigger] final(self).contains(o) == old(self).contains(o)) && (old(
                self).contains(o) ==> final(self).surfel_at(o) == old(self).surfel_at(o)),
    {
        if id.slot < self.slots.len() {
            let live = self.slots[id.slot].gen == id.gen && self.slots[id.slot].data.is_some();
            if live {
                proof {
                    assert forall|j: int| 0 <= j < self.free@.len() implies #[trigger] self.free@[
                        j] != id.slot by {
                        assert(self.slots@[self.free@[j] as int].data is None);
                    };
                }
                let can_reuse = id.gen < 0xFFFF_FFFF_FFFF_FFFEu64;
                if can_reuse {
                    self.slots[id.slot] = ArenaSlot { gen: id.gen + 1, data: None };
                    self.free.push(id.slot);
                } else {
                    self.slots[id.slot] = ArenaSlot { gen: id.gen, data: None };
                }
                proof {
                    if id.gen < 0xFFFF_FFFF_FFFF_FFFEu64 {
                        Self::lemma_count_update(old(self).slots@, id.slot as int,
                            ArenaSlot { gen: (id.gen + 1) as u64, data: None },
                            old(self).slots@.len() as int);
                    } else {
                        Self::lemma_count_update(old(self).slots@, id.slot as int,
                            ArenaSlot { gen: id.gen, data: None }, old(self).slots@.len() as int);
                    }
                    self.retired@ = self.retired@.insert(id_key(id));
                    assert forall|k: (int, int)| #[trigger] self.retired@.contains(k) implies 0
                        <= k.0 < self.slots@.len() && k.1 <= self.slots@[k.0].gen && (k.1
                        == self.slots@[k.0].gen ==> self.slots@[k.0].data is None) by {
                        if k != id_key(id) {
                            assert(old(self).retired@.contains(k));
                        }
                    };
                    assert forall|j: int| 0 <= j < self.free@.len() implies (
                    #[trigger] self.free@[j] as int) < self.slots@.len() && self.slots@[
                        self.free@[j] as int].data is None && !self.retired@.contains(
                        (self.free@[j] as int, self.slots@[self.free@[j] as int].gen as int)) by {
                        if j < old(self).free@.len() {
                            assert(old(self).free@[j] == self.free@[j]);
                            assert(old(self).free@[j] != id.slot);
                        }
                    };
                    assert forall|o: SurfelId| o != id implies (#[trigger] self.contains(o)
                        == old(self).contains(o)) && (old(self).contains(o) ==> self.surfel_at(o)
                        == old(self).surfel_at(o)) by {
                        if o.slot == id.slot {
                            assert(old(self).slots@[id.slot as int].gen == id.gen);
                        }
                    };
                }
                return true;
            }
            false
        } else {
            false
        }
    }

    /// How many surfels are live.
    spec fn count_live_upto(slots: Seq<ArenaSlot>, n: int) -> int
        decreases n,
    {
        if n <= 0 {
            0
        } else {
            Self::count_live_upto(slots, n - 1) + if slots[n - 1].data is Some {
                1int
            } else {
                0int
            }
        }
    }

    pub closed spec fn live_count(self) -> int {
        Self::count_live_upto(self.slots@, self.slots@.len() as int)
    }

    proof fn lemma_count_agree(s1: Seq<ArenaSlot>, s2: Seq<ArenaSlot>, n: int)
        requires
            forall|j: int| 0 <= j < n ==> ((#[trigger] s1[j].data is Some) == (s2[j].data is Some)),
        ensures
            Self::count_live_upto(s1, n) == Self::count_live_upto(s2, n),
        decreases n,
    {
        if n > 0 {
            Self::lemma_count_agree(s1, s2, n - 1);
        }
    }

    proof fn lemma_count_update(s: Seq<ArenaSlot>, i: int, v: ArenaSlot, n: int)
        requires
            0 <= i < n <= s.len(),
        ensures
            Self::count_live_upto(s.update(i, v), n) == Self::count_live_upto(s, n) + (
            if v.data is Some {
                1int
            } else {
                0int
            }) - (if s[i].data is Some {
                1int
            } else {
                0int
            }),
        decreases n,
    {
        if n - 1 == i {
            Self::lemma_count_agree(s.update(i, v), s, n - 1);
        } else {
            Self::lemma_count_update(s, i, v, n - 1);
        }
    }

    proof fn lemma_count_push(s: Seq<ArenaSlot>, v: ArenaSlot)
        ensures
            Self::count_live_upto(s.push(v), s.len() as int + 1) == Self::count_live_upto(
                s, s.len() as int) + (if v.data is Some {
                1int
            } else {
                0int
            }),
    {
        Self::lemma_count_agree(s.push(v), s, s.len() as int);
    }

    pub fn len(&self) -> (r: usize)
        ensures
            r == self.live_count(),
            r == 0 ==> forall|id: SurfelId| !self.contains(id),
    {
        let mut n: usize = 0;
        let mut i: usize = 0;
        proof {
            assert(Self::count_live_upto(self.slots@, 0) == 0);
        }
        while i < self.slots.len()
            invariant
                0 <= i <= self.slots@.len(),
                n <= i,
                n == Self::count_live_upto(self.slots@, i as int),
                n == 0 ==> forall|j: int| 0 <= j < i ==> !(#[trigger] self.slots@[j].data is Some),
            decreases self.slots@.len() - i,
        {
            if self.slots[i].data.is_some() {
                n = n + 1;
            }
            i = i + 1;
        }
        n
    }

    /// Every live surfel, as a handle/value list: each listed pair resolves,
    /// and every handle that resolves is listed.
    pub fn live_surfels(&self) -> (list: Vec<(SurfelId, Surfel)>)
        ensures
            forall|j: int|
                0 <= j < list@.len() ==> self.contains(#[trigger] list@[j].0) && self.surfel_at(
                list@[j].0) == list@[j].1,
            forall|id: SurfelId|
                #[trigger] self.contains(id) ==> list@.contains((id, self.surfel_at(id))),
            forall|j1: int, j2: int|
                0 <= j1 < j2 < list@.len() ==> (#[trigger] list@[j1].0) != (
                #[trigger] list@[j2].0),
    {
        let mut list: Vec<(SurfelId, Surfel)> = Vec::new();
        let mut i: usize = 0;
        while i < self.slots.len()
            invariant
                0 <= i <= self.slots@.len(),
                forall|j: int|
                    0 <= j < list@.len() ==> self.contains(#[trigger] list@[j].0)
                        && self.surfel_at(list@[j].0) == list@[j].1,
                forall|id: SurfelId|
                    #[trigger] self.contains(id) && (id.slot as int) < i ==> list@.contains(
                    (id, self.surfel_at(id))),
                forall|j: int| 0 <= j < list@.len() ==> (#[trigger] list@[j].0.slot as int) < i,
                forall|j1: int, j2: int|
                    0 <= j1 < j2 < list@.len() ==> (#[trigger] list@[j1].0) != (
                    #[trigger] list@[j2].0),
            decreases self.slots@.len() - i,
        {
            let slot = &self.slots[i];
            match &slot.data {
                Some(s) => {
                    let id = SurfelId { slot: i, gen: slot.gen };
                    let ghost oldlist = list@;
                    list.push((id, *s));
                    proof {
                        assert(list@ == oldlist.push((id, self.surfel_at(id))));
                        assert(list@[list@.len() - 1] == (id, self.surfel_at(id)));
                        assert(forall|p: (SurfelId, Surfel)|
                            oldlist.contains(p) ==> #[trigger] list@.contains(p)) by {
                            assert(forall|j: int|
                                0 <= j < oldlist.len() ==> list@[j] == #[trigger] oldlist[j]);
                        };
                    }
                },
                None => {},
            }
            i = i + 1;
        }
        list
    }
}

/// A live handle always resolves to a well-formed surfel.
pub proof fn lemma_live_wf(m: SurfelModel, id: SurfelId)
    requires
        m.wf(),
        m.contains(id),
    ensures
        m.surfel_at(id).wf(),
{
}

/// A retired handle never resolves again: whatever later insertions reuse
/// its slot, the arena's well-formedness keeps every retired handle dead.
pub proof fn lemma_retired_never_resolves(m: SurfelModel, id: SurfelId)
    requires
        m.wf(),
        m.retired_ids().contains(id_key(id)),
    ensures
        !m.contains(id),
{
}

} // verus!
