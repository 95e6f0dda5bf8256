//! The entity store: a generational arena of units.
//!
//! A `UnitId` is an index plus the generation the slot had when the unit was
//! spawned. Despawning empties the slot for good and bumps its generation, so
//! every handle held by another unit (a target, a merge partner) dangles
//! detectably in O(1) and never comes back to life.
//!
//! `World::wf` carries the cross-entity invariants every system preserves:
//! a unit never holds an in-flight attack while it telegraphs or walks a
//! merge, merge partner pointers are mutually symmetric for as long as both
//! ends are alive and not dying, and every held handle points inside the
//! arena.

use vstd::prelude::*;

verus! {

use crate::components::{
    KnownAttacks, MergeState, Unit, UnitId, attack_merge_exclusive, known_attacks_wf, unit_wf,
};

pub struct World {
    /// One slot per index; `None` is a slot whose unit has despawned.
    pub units: Vec<Option<Unit>>,
    /// The generation of each slot, bumped on despawn.
    pub generations: Vec<u64>,
    /// Each unit's immutable move list, parallel to `units`.
    pub attacks: Vec<KnownAttacks>,
}

/// Number of live units in a slot sequence.
pub open spec fn count_live(s: Seq<Option<Unit>>) -> nat
    decreases s.len(),
{
    if s.len() == 0 {
        0
    } else {
        count_live(s.drop_last()) + if s.last() is Some {
            1nat
        } else {
            0nat
        }
    }
}

/// The handle's slot index lies inside a store of `n` slots.
pub open spec fn handle_in_range(h: UnitId, n: int) -> bool {
    (h.index as int) < n
}

/// Every handle the unit holds points inside a store of `n` slots.
pub open spec fn unit_handles_in_range(u: Unit, n: int) -> bool {
    &&& match u.target {
        Option::Some(t) => handle_in_range(t, n),
        Option::None => true,
    }
    &&& match u.active_attack {
        Option::Some(a) => handle_in_range(a.target, n),
        Option::None => true,
    }
    &&& match u.merge.spec_partner() {
        Option::Some(p) => handle_in_range(p, n),
        Option::None => true,
    }
}

impl World {
    /// Number of slots (live or freed).
    pub open spec fn n(self) -> int {
        self.units@.len() as int
    }

    /// Slot `i` currently holds a unit.
    pub open spec fn live(self, i: int) -> bool {
        0 <= i < self.n() && self.units@[i] is Some
    }

    /// The unit in slot `i`.
    pub open spec fn u(self, i: int) -> Unit
        recommends
            self.live(i),
    {
        self.units@[i]->0
    }

    /// The current handle for slot `i`.
    pub open spec fn id_of(self, i: int) -> UnitId
        recommends
            0 <= i < self.n(),
    {
        UnitId { index: i as usize, generation: self.generations@[i] }
    }

    /// The handle refers to a unit that is still alive.
    pub open spec fn valid(self, id: UnitId) -> bool {
        &&& (id.index as int) < self.n()
        &&& self.generations@[id.index as int] == id.generation
        &&& self.units@[id.index as int] is Some
    }

    pub open spec fn live_count(self) -> nat {
        count_live(self.units@)
    }

    /// The parallel columns line up.
    pub open spec fn shape_wf(self) -> bool {
        &&& self.generations@.len() == self.units@.len()
        &&& self.attacks@.len() == self.units@.len()
    }

    /// Merge partner pointers are mutually symmetric: while a unit telegraphs
    /// or walks a merge and its partner is alive and not dying, the partner is
    /// a different unit in the same phase, pointing straight back, with the
    /// same meeting point. A dangling or dying partner is tolerated until the
    /// cancellation pass runs.
    pub open spec fn partner_linked(self, i: int) -> bool
        recommends
            self.live(i),
    {
        self.u(i).dying || match self.u(i).merge {
            MergeState::Lone => true,
            MergeState::PreMerging { partner, meeting_point, .. } => {
                self.valid(partner) && !self.u(partner.index as int).dying ==> {
                    &&& partner.index as int != i
                    &&& match self.u(partner.index as int).merge {
                        MergeState::PreMerging {
                            partner: back,
                            meeting_point: back_meet,
                            ..
                        } => back == self.id_of(i) && back_meet == meeting_point,
                        _ => false,
                    }
                }
            },
            MergeState::Merging { partner, meeting_point } => {
                self.valid(partner) && !self.u(partner.index as int).dying ==> {
                    &&& partner.index as int != i
                    &&& match self.u(partner.index as int).merge {
                        MergeState::Merging { partner: back, meeting_point: back_meet } => back
                            == self.id_of(i) && back_meet == meeting_point,
                        _ => false,
                    }
                }
            },
        }
    }

    /// The store invariant: aligned columns, well-formed units and move
    /// lists, attack/merge exclusivity, merge partner symmetry, and all held
    /// handles in range.
    pub open spec fn wf(self) -> bool {
        &&& self.shape_wf()
        &&& forall|i: int| self.live(i) ==> unit_wf(#[trigger] self.u(i))
        &&& forall|i: int| self.live(i) ==> known_attacks_wf(#[trigger] self.attacks@[i])
        &&& forall|i: int| self.live(i) ==> attack_merge_exclusive(#[trigger] self.u(i))
        &&& forall|i: int|
            self.live(i) && (#[trigger] self.u(i)).merged ==> self.u(i).merge is Lone
        &&& forall|i: int| self.live(i) ==> unit_handles_in_range(#[trigger] self.u(i), self.n())
        &&& forall|i: int| #![trigger self.u(i)] self.live(i) ==> self.partner_linked(i)
    }

    pub fn new() -> (w: World)
        ensures
            w.wf(),
            w.n() == 0,
            w.live_count() == 0,
    {
        World { units: Vec::new(), generations: Vec::new(), attacks: Vec::new() }
    }

    pub fn len(&self) -> (r: usize)
        ensures
            r == self.n(),
    {
        self.units.len()
    }

    /// Read a unit through its handle; `None` once the handle dangles.
    pub fn get(&self, id: UnitId) -> (r: Option<Unit>)
        requires
            self.shape_wf(),
        ensures
            r == if self.valid(id) {
                Option::Some(self.u(id.index as int))
            } else {
                Option::<Unit>::None
            },
    {
        if id.index < self.units.len() && self.generations[id.index] == id.generation {
            self.units[id.index]
        } else {
            Option::None
        }
    }

    /// Read the unit in a slot, alive or not.
    pub fn at(&self, i: usize) -> (r: Option<Unit>)
        requires
            i < self.n(),
        ensures
            r == self.units@[i as int],
    {
        self.units[i]
    }
}

/// Updating one slot changes `count_live` exactly as the old and new contents
/// say.
pub proof fn lemma_count_live_update(s: Seq<Option<Unit>>, i: int, v: Option<Unit>)
    requires
        0 <= i < s.len(),
    ensures
        count_live(s.update(i, v)) == count_live(s) + (if v is Some {
            1int
        } else {
            0int
        }) - (if s[i] is Some {
            1int
        } else {
            0int
        }),
    decreases s.len(),
{
    let t = s.update(i, v);
    if i == s.len() - 1 {
        assert(t.drop_last() =~= s.drop_last());
    } else {
        assert(t.last() == s.last());
        assert(t.drop_last() =~= s.drop_last().update(i, v));
        lemma_count_live_update(s.drop_last(), i, v);
    }
}

/// Appending a slot adds its occupancy to `count_live`.
pub proof fn lemma_count_live_push(s: Seq<Option<Unit>>, v: Option<Unit>)
    ensures
        count_live(s.push(v)) == count_live(s) + (if v is Some {
            1int
        } else {
            0int
        }),
{
    assert(s.push(v).drop_last() =~= s);
    assert(s.push(v).last() == v);
}

/// Most systems touch only "behavioural" fields of units in place: position,
/// health, timers, flags, animation. This lemma re-establishes the store
/// invariant for any such pass: the columns and the live set are unchanged,
/// every unit stays well-formed, merge state is untouched, targets are kept
/// or cleared (never re-aimed), in-flight attacks are kept (up to the
/// hit-fired flag) or cleared, and dying only ever switches on.
pub proof fn lemma_wf_preserved(w1: World, w2: World)
    requires
        w1.wf(),
        w2.units@.len() == w1.units@.len(),
        w2.generations@ == w1.generations@,
        w2.attacks@ == w1.attacks@,
        forall|i: int| w2.live(i) <==> w1.live(i),
        forall|i: int| w2.live(i) ==> unit_wf(#[trigger] w2.u(i)),
        forall|i: int| w2.live(i) ==> #[trigger] w2.u(i).merge == w1.u(i).merge,
        forall|i: int|
            w2.live(i) && #[trigger] w2.u(i).target is Some ==> w2.u(i).target == w1.u(i).target
                || w2.valid(w2.u(i).target->0),
        forall|i: int|
            w2.live(i) && #[trigger] w2.u(i).active_attack is Some ==> w1.u(i).active_attack
                is Some && w2.u(i).active_attack->0.attack == w1.u(i).active_attack->0.attack
                && w2.u(i).active_attack->0.target == w1.u(i).active_attack->0.target,
        forall|i: int| w2.live(i) && #[trigger] w1.u(i).dying ==> w2.u(i).dying,
        forall|i: int| w2.live(i) ==> (#[trigger] w2.u(i)).merged == w1.u(i).merged,
    ensures
        w2.wf(),
{
    assert forall|i: int| w2.live(i) && (#[trigger] w2.u(i)).merged implies w2.u(i).merge
        is Lone by {
        assert(w1.live(i));
        assert(w1.u(i).merged ==> w1.u(i).merge is Lone);
    }
    assert forall|i: int| w2.live(i) implies known_attacks_wf(w2.attacks@[i]) by {
        assert(w1.live(i));
        assert(known_attacks_wf(w1.attacks@[i]));
    }
    assert forall|i: int| w2.live(i) implies attack_merge_exclusive(w2.u(i)) by {
        assert(w1.live(i));
        assert(attack_merge_exclusive(w1.u(i)));
    }
    assert forall|i: int| w2.live(i) implies unit_handles_in_range(w2.u(i), w2.n()) by {
        assert(w1.live(i));
        assert(unit_handles_in_range(w1.u(i), w1.n()));
    }
    assert forall|i: int| #![trigger w2.u(i)] w2.live(i) implies w2.partner_linked(i) by {
        assert(w1.live(i));
        assert(w1.partner_linked(i));
        let po = w1.u(i).merge.spec_partner();
        if po is Some {
            let p = po->0;
            assert(unit_handles_in_range(w1.u(i), w1.n()));
            assert(w2.live(p.index as int) == w1.live(p.index as int));
            assert(w2.valid(p) == w1.valid(p));
            if w1.valid(p) {
                assert(w2.u(p.index as int).merge == w1.u(p.index as int).merge);
                assert(w1.u(p.index as int).dying ==> w2.u(p.index as int).dying);
            }
            assert(w2.id_of(i) == w1.id_of(i));
        }
    }
}

impl World {
    /// Spawn a unit into a brand-new slot. Returns a handle valid until the
    /// unit despawns. Every existing slot and generation is untouched, so no
    /// existing handle changes meaning, and no stale handle can come to point
    /// at the newcomer.
    pub fn spawn(&mut self, unit: Unit, known: KnownAttacks) -> (id: UnitId)
        requires
            old(self).wf(),
            unit_wf(unit),
            known_attacks_wf(known),
            unit.merge is Lone,
            unit.active_attack is None,
            unit.target is None,
        ensures
            final(self).wf(),
            final(self).valid(id),
            id.index as int == old(self).n(),
            final(self).n() == old(self).n() + 1,
            final(self).u(id.index as int) == unit,
            final(self).attacks@[id.index as int] == known,
            !old(self).valid(id),
            final(self).live_count() == old(self).live_count() + 1,
            forall|j: int|
                0 <= j < old(self).n() ==> #[trigger] final(self).units@[j] == old(self).units@[j],
            forall|j: int|
                0 <= j < old(self).n() ==> #[trigger] final(self).generations@[j] == old(
                    self,
                ).generations@[j],
            forall|j: int|
                0 <= j < old(self).n() ==> #[trigger] final(self).attacks@[j] == old(
                    self,
                ).attacks@[j],
            forall|other: UnitId|
                old(self).valid(other) ==> #[trigger] final(self).valid(other),
            forall|other: UnitId|
                handle_in_range(other, old(self).n()) && !old(self).valid(other)
                    ==> !(#[trigger] final(self).valid(other)),
    {
        let n = self.units.len();
        self.units.push(Option::Some(unit));
        self.generations.push(0);
        self.attacks.push(known);
        proof {
            lemma_count_live_push(old(self).units@, Option::Some(unit));
            assert forall|j: int| final(self).live(j) implies unit_wf(final(self).u(j))
                && known_attacks_wf(final(self).attacks@[j]) && attack_merge_exclusive(
                final(self).u(j),
            ) && unit_handles_in_range(final(self).u(j), final(self).n()) && (final(self).u(
                j,
            ).merged ==> final(self).u(j).merge is Lone) by {
                if j < n as int {
                    assert(old(self).live(j));
                    assert(final(self).u(j) == old(self).u(j));
                    assert(final(self).attacks@[j] == old(self).attacks@[j]);
                    assert(unit_handles_in_range(old(self).u(j), old(self).n()));
                    assert(old(self).u(j).merged ==> old(self).u(j).merge is Lone);
                } else {
                    assert(final(self).u(j) == unit);
                }
            }
            assert forall|j: int| final(self).live(j) implies final(self).partner_linked(j) by {
                if j < n as int {
                    assert(old(self).live(j));
                    assert(old(self).partner_linked(j));
                    assert(final(self).u(j) == old(self).u(j));
                    assert(unit_handles_in_range(old(self).u(j), old(self).n()));
                    let po = old(self).u(j).merge.spec_partner();
                    if po is Some {
                        let p = po->0;
                        assert(handle_in_range(p, old(self).n()));
                        assert(final(self).valid(p) == old(self).valid(p));
                        if old(self).valid(p) {
                            assert(final(self).u(p.index as int) == old(self).u(p.index as int));
                        }
                        assert(final(self).id_of(j) == old(self).id_of(j));
                    }
                } else {
                    assert(final(self).u(j) == unit);
                }
            }
        }
        UnitId { index: n, generation: 0 }
    }

    /// Remove the unit in slot `i` and bump the slot's generation; the slot
    /// stays empty, so every handle to the departed unit dangles from now on.
    pub fn despawn(&mut self, i: usize)
        requires
            old(self).wf(),
            old(self).live(i as int),
        ensures
            final(self).wf(),
            final(self).n() == old(self).n(),
            !final(self).live(i as int),
            final(self).live_count() == old(self).live_count() - 1,
            forall|j: int|
                0 <= j < old(self).n() && j != i as int ==> #[trigger] final(self).units@[j] == old(
                    self,
                ).units@[j],
            forall|j: int|
                0 <= j < old(self).n() && j != i as int ==> #[trigger] final(self).generations@[j]
                    == old(self).generations@[j],
            final(self).attacks@ == old(self).attacks@,
            forall|id: UnitId|
                old(self).valid(id) && id.index != i ==> #[trigger] final(self).valid(id),
            forall|id: UnitId| id.index == i ==> !final(self).valid(id),
    {
        self.units.set(i, Option::None);
        let g = self.generations[i];
        self.generations.set(i, g.wrapping_add(1));
        proof {
            lemma_count_live_update(old(self).units@, i as int, Option::None);
            assert forall|j: int| final(self).live(j) implies unit_wf(final(self).u(j))
                && known_attacks_wf(final(self).attacks@[j]) && attack_merge_exclusive(
                final(self).u(j),
            ) && unit_handles_in_range(final(self).u(j), final(self).n()) && (final(self).u(
                j,
            ).merged ==> final(self).u(j).merge is Lone) by {
                assert(j != i as int);
                assert(old(self).live(j));
                assert(final(self).u(j) == old(self).u(j));
                assert(final(self).attacks@[j] == old(self).attacks@[j]);
                assert(unit_handles_in_range(old(self).u(j), old(self).n()));
                assert(old(self).u(j).merged ==> old(self).u(j).merge is Lone);
            }
            assert forall|j: int| final(self).live(j) implies final(self).partner_linked(j) by {
                assert(j != i as int);
                assert(old(self).live(j));
                assert(old(self).partner_linked(j));
                assert(final(self).u(j) == old(self).u(j));
                let po = old(self).u(j).merge.spec_partner();
                if po is Some {
                    let p = po->0;
                    if p.index as int == i as int {
                        assert(!final(self).valid(p));
                    } else {
                        assert(final(self).valid(p) == old(self).valid(p));
                        if old(self).valid(p) {
                            assert(final(self).u(p.index as int) == old(self).u(p.index as int));
                        }
                        assert(final(self).id_of(j) == old(self).id_of(j));
                    }
                }
            }
        }
    }
}

/// A unit never carries an in-flight attack while it telegraphs or walks a
/// merge: in a well-formed store, the attack and merge state machines are
/// mutually exclusive on every unit.
pub proof fn lemma_attack_merge_exclusive(w: World, i: int)
    requires
        w.wf(),
        w.live(i),
        w.u(i).active_attack is Some,
    ensures
        w.u(i).merge is Lone,
{
    assert(attack_merge_exclusive(w.u(i)));
}

/// Merge partner pointers are mutually symmetric: while both ends of a pair
/// are alive and neither is dying, each partner is a distinct unit in the
/// same phase pointing straight back, with the same meeting point.
pub proof fn lemma_partner_symmetric(w: World, i: int, p: UnitId)
    requires
        w.wf(),
        w.live(i),
        !w.u(i).dying,
        w.u(i).merge.spec_partner() == Option::Some(p),
        w.valid(p),
        !w.u(p.index as int).dying,
    ensures
        p.index as int != i,
        w.u(p.index as int).merge.spec_partner() == Option::Some(w.id_of(i)),
        w.u(p.index as int).merge is PreMerging <==> w.u(i).merge is PreMerging,
        w.u(p.index as int).merge is Merging <==> w.u(i).merge is Merging,
{
    assert(w.partner_linked(i));
}

} // verus!
