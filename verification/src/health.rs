//! The death pipeline.
//!
//! A unit whose health has reached zero is tagged dying in the same pass that
//! strips its speed, switches it to its death clip, and removes it from every
//! other unit's target — a dying unit must never remain someone's ongoing
//! objective. Once the death clip reports finished, the unit despawns, and
//! with it every attached visual.

use vstd::prelude::*;

verus! {

use crate::battle::{Battle, lemma_stat_caps_preserved};
use crate::components::{
    Unit, UnitId, lemma_fresh_animation_wf, spec_fresh_animation, unit_wf,
};
use crate::world::{World, lemma_wf_preserved};

/// Whether the unit in slot `i` is dying, or about to be marked so because
/// its health is spent.
pub open spec fn dying_after(w: World, i: int) -> bool {
    w.live(i) && (w.u(i).dying || w.u(i).health <= 0)
}

/// Tagging a unit as dying: it keeps nothing of its proactive behaviour —
/// speed stripped, death clip started.
pub open spec fn died(u: Unit) -> Unit {
    Unit {
        dying: true,
        speed: 0,
        current_clip: u.death_animation,
        animation: Option::Some(spec_fresh_animation(u.death_animation)),
        ..u
    }
}

/// The marking half of the pass, applied to one slot.
pub open spec fn dying_tagged(s: Option<Unit>) -> Option<Unit> {
    match s {
        Option::None => Option::None,
        Option::Some(u) => Option::Some(
            if !u.dying && u.health <= 0 {
                died(u)
            } else {
                u
            },
        ),
    }
}

/// The whole pass applied to one slot of the old world: mark the unit if its
/// health is spent, and drop its target if that target is dying (newly or
/// not).
pub open spec fn dying_marked(w: World, i: int) -> Option<Unit>
    recommends
        0 <= i < w.n(),
{
    match dying_tagged(w.units@[i]) {
        Option::None => Option::None,
        Option::Some(u1) => Option::Some(
            match u1.target {
                Option::Some(t) => if w.valid(t) && dying_after(w, t.index as int) {
                    Unit { target: Option::None, ..u1 }
                } else {
                    u1
                },
                Option::None => u1,
            },
        ),
    }
}

/// One unit's marking step, exactly as `dying_tagged` specifies.
fn tag_dying_unit(u: Unit) -> (r: Unit)
    ensures
        Option::Some(r) == dying_tagged(Option::Some(u)),
{
    if !u.dying && u.health <= 0 {
        let anim = crate::components::fresh_animation(u.death_animation);
        Unit {
            dying: true,
            speed: 0,
            current_clip: u.death_animation,
            animation: Option::Some(anim),
            ..u
        }
    } else {
        u
    }
}

/// A despawn condition: the death clip has run to its end.
pub open spec fn reaped(w: World, i: int) -> bool {
    &&& w.live(i)
    &&& w.u(i).dying
    &&& w.u(i).animation is Some
    &&& w.u(i).animation->0.finished
}

impl Battle {
    /// Tag every unit with spent health as dying, strip its speed, start its
    /// death clip, and clear it from every other unit's target.
    #[verifier::rlimit(50)]
    pub fn set_dying_system(&mut self)
        requires
            old(self).wf(),
        ensures
            final(self).wf(),
            final(self).world.n() == old(self).world.n(),
            final(self).world.generations@ == old(self).world.generations@,
            final(self).world.attacks@ == old(self).world.attacks@,
            forall|i: int|
                0 <= i < old(self).world.n() ==> #[trigger] final(self).world.units@[i]
                    == dying_marked(old(self).world, i),
            // No live unit keeps a dying unit as its objective.
            forall|j: int, t: UnitId|
                #![trigger final(self).world.u(j), final(self).world.valid(t)]
                final(self).world.live(j) && final(self).world.u(j).target == Option::Some(t)
                    && final(self).world.valid(t) ==> !final(self).world.u(t.index as int).dying,
            final(self).config == old(self).config,
            final(self).events == old(self).events,
            final(self).merge_timer_ms == old(self).merge_timer_ms,
            final(self).pre_game_ms_left == old(self).pre_game_ms_left,
            final(self).round_over == old(self).round_over,
            final(self).slimes_to_spawn == old(self).slimes_to_spawn,
            final(self).spawn_timer_ms == old(self).spawn_timer_ms,
    {
        let n = self.world.len();
        let mut i: usize = 0;
        while i < n
            invariant
                old(self).wf(),
                n == old(self).world.n(),
                self.world.units@.len() == n,
                self.world.generations@ == old(self).world.generations@,
                self.world.attacks@ == old(self).world.attacks@,
                forall|j: int|
                    i <= j < n ==> #[trigger] self.world.units@[j] == old(self).world.units@[j],
                forall|j: int|
                    0 <= j < i ==> #[trigger] self.world.units@[j] == dying_tagged(
                        old(self).world.units@[j],
                    ),
                self.config == old(self).config,
                self.events == old(self).events,
                self.merge_timer_ms == old(self).merge_timer_ms,
                self.pre_game_ms_left == old(self).pre_game_ms_left,
                self.round_over == old(self).round_over,
                self.slimes_to_spawn == old(self).slimes_to_spawn,
                self.spawn_timer_ms == old(self).spawn_timer_ms,
            decreases n - i,
        {
            let slot = self.world.units[i];
            match slot {
                Option::Some(u) => {
                    let nu = tag_dying_unit(u);
                    self.world.units.set(i, Option::Some(nu));
                },
                Option::None => {},
            }
            i = i + 1;
        }
        let ghost mid = self.world;
        proof {
            assert forall|j: int| 0 <= j < n implies #[trigger] mid.units@[j] == dying_tagged(
                old(self).world.units@[j],
            ) by {}
            assert forall|j: int| mid.live(j) implies dying_after(old(self).world, j) == mid.u(
                j,
            ).dying by {
                assert(mid.units@[j] == dying_tagged(old(self).world.units@[j]));
            }
        }
        let mut j: usize = 0;
        while j < n
            invariant
                old(self).wf(),
                n == old(self).world.n(),
                mid.units@.len() == n,
                mid.generations@ == old(self).world.generations@,
                mid.attacks@ == old(self).world.attacks@,
                forall|k: int|
                    0 <= k < n ==> #[trigger] mid.units@[k] == dying_tagged(
                        old(self).world.units@[k],
                    ),
                self.world.units@.len() == n,
                self.world.generations@ == old(self).world.generations@,
                self.world.attacks@ == old(self).world.attacks@,
                forall|k: int| j <= k < n ==> #[trigger] self.world.units@[k] == mid.units@[k],
                forall|k: int|
                    0 <= k < j ==> #[trigger] self.world.units@[k] == dying_marked(
                        old(self).world,
                        k,
                    ),
                self.config == old(self).config,
                self.events == old(self).events,
                self.merge_timer_ms == old(self).merge_timer_ms,
                self.pre_game_ms_left == old(self).pre_game_ms_left,
                self.round_over == old(self).round_over,
                self.slimes_to_spawn == old(self).slimes_to_spawn,
                self.spawn_timer_ms == old(self).spawn_timer_ms,
            decreases n - j,
        {
            let slot = self.world.units[j];
            match slot {
                Option::Some(u) => {
                    match u.target {
                        Option::Some(t) => {
                            if t.index < n && self.world.generations[t.index] == t.generation {
                                match self.world.units[t.index] {
                                    Option::Some(tu) => {
                                        if tu.dying {
                                            proof {
                                                assert(mid.units@[t.index as int] == dying_tagged(
                                                    old(self).world.units@[t.index as int],
                                                ));
                                                assert(old(self).world.valid(t));
                                                assert(dying_after(
                                                    old(self).world,
                                                    t.index as int,
                                                ));
                                            }
                                            self.world.units.set(
                                                j,
                                                Option::Some(Unit { target: Option::None, ..u }),
                                            );
                                        } else {
                                            proof {
                                                assert(mid.units@[t.index as int] == dying_tagged(
                                                    old(self).world.units@[t.index as int],
                                                ));
                                                assert(!dying_after(
                                                    old(self).world,
                                                    t.index as int,
                                                ));
                                            }
                                        }
                                    },
                                    Option::None => {
                                        proof {
                                            assert(!old(self).world.valid(t));
                                        }
                                    },
                                }
                            } else {
                                proof {
                                    assert(!old(self).world.valid(t));
                                }
                            }
                        },
                        Option::None => {},
                    }
                },
                Option::None => {},
            }
            j = j + 1;
        }
        proof {
            assert forall|i: int| final(self).world.live(i) <==> old(self).world.live(i) by {
                if 0 <= i < n {
                    assert(final(self).world.units@[i] == dying_marked(old(self).world, i));
                }
            }
            assert forall|i: int| final(self).world.live(i) implies unit_wf(final(self).world.u(i))
                && final(self).world.u(i).merge == old(self).world.u(i).merge && (old(
                self,
            ).world.u(i).dying ==> final(self).world.u(i).dying) && final(self).world.u(i).health
                == old(self).world.u(i).health && final(self).world.u(i).merged == old(
                self,
            ).world.u(i).merged by {
                assert(final(self).world.units@[i] == dying_marked(old(self).world, i));
                assert(old(self).world.live(i));
                assert(unit_wf(old(self).world.u(i)));
                lemma_fresh_animation_wf(old(self).world.u(i).death_animation);
            }
            lemma_wf_preserved(old(self).world, final(self).world);
            lemma_stat_caps_preserved(*old(self), *final(self));
            assert forall|j: int, t: UnitId|
                #![trigger final(self).world.u(j), final(self).world.valid(t)]
                final(self).world.live(j) && final(self).world.u(j).target == Option::Some(t)
                    && final(self).world.valid(t) implies !final(self).world.u(
                t.index as int,
            ).dying by {
                assert(final(self).world.units@[j] == dying_marked(old(self).world, j));
                assert(final(self).world.units@[t.index as int] == dying_marked(
                    old(self).world,
                    t.index as int,
                ));
                assert(old(self).world.valid(t));
                assert(!dying_after(old(self).world, t.index as int));
            }
        }
    }

    /// Despawn every dying unit whose death clip has finished; its attached
    /// visuals go with it.
    pub fn when_finishes_dying_system(&mut self)
        requires
            old(self).wf(),
        ensures
            final(self).wf(),
            final(self).world.n() == old(self).world.n(),
            final(self).world.attacks@ == old(self).world.attacks@,
            forall|i: int|
                0 <= i < old(self).world.n() ==> #[trigger] final(self).world.units@[i] == if reaped(
                    old(self).world,
                    i,
                ) {
                    Option::<Unit>::None
                } else {
                    old(self).world.units@[i]
                },
            forall|i: int|
                0 <= i < old(self).world.n() && !reaped(old(self).world, i)
                    ==> #[trigger] final(self).world.generations@[i] == old(
                    self,
                ).world.generations@[i],
            final(self).config == old(self).config,
            final(self).events == old(self).events,
            final(self).merge_timer_ms == old(self).merge_timer_ms,
            final(self).pre_game_ms_left == old(self).pre_game_ms_left,
            final(self).round_over == old(self).round_over,
            final(self).slimes_to_spawn == old(self).slimes_to_spawn,
            final(self).spawn_timer_ms == old(self).spawn_timer_ms,
    {
        let n = self.world.len();
        let mut i: usize = 0;
        while i < n
            invariant
                old(self).wf(),
                self.world.wf(),
                n == old(self).world.n(),
                self.world.units@.len() == n,
                self.world.attacks@ == old(self).world.attacks@,
                forall|k: int|
                    i <= k < n ==> #[trigger] self.world.units@[k] == old(self).world.units@[k],
                forall|k: int|
                    i <= k < n ==> #[trigger] self.world.generations@[k] == old(
                        self,
                    ).world.generations@[k],
                forall|k: int|
                    0 <= k < i ==> #[trigger] self.world.units@[k] == if reaped(old(self).world, k) {
                        Option::<Unit>::None
                    } else {
                        old(self).world.units@[k]
                    },
                forall|k: int|
                    0 <= k < i && !reaped(old(self).world, k)
                        ==> #[trigger] self.world.generations@[k] == old(self).world.generations@[k],
                self.config == old(self).config,
                self.events == old(self).events,
                self.merge_timer_ms == old(self).merge_timer_ms,
                self.pre_game_ms_left == old(self).pre_game_ms_left,
                self.round_over == old(self).round_over,
                self.slimes_to_spawn == old(self).slimes_to_spawn,
                self.spawn_timer_ms == old(self).spawn_timer_ms,
            decreases n - i,
        {
            let slot = self.world.units[i];
            match slot {
                Option::Some(u) => {
                    match u.animation {
                        Option::Some(a) => {
                            if u.dying && a.finished {
                                proof {
                                    assert(reaped(old(self).world, i as int));
                                }
                                self.world.despawn(i);
                            }
                        },
                        Option::None => {},
                    }
                },
                Option::None => {},
            }
            i = i + 1;
        }
        proof {
            lemma_stat_caps_preserved(*old(self), *final(self));
        }
    }
}

} // verus!
