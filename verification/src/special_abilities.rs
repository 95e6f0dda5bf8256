//! The merge subsystem: Eligible -> PreMerging -> Merging -> consumed.
//!
//! On a slow fixed interval, eligible same-team pairs within a proximity
//! gate roll a small chance to fuse. A successful roll puts both into the
//! frozen telegraph phase, pointing at each other and at a meeting point
//! fixed once at pairing time. When the telegraph expires both walk to the
//! meeting point, and once they are close enough to each other the pair is
//! consumed: both despawn and exactly one stronger, permanently `merged`
//! unit spawns at their midpoint. If a partner despawns or starts dying at
//! any point, the survivor is returned to normal eligibility.

use vstd::prelude::*;

verus! {

use crate::battle::{Battle, MAX_UNITS, lemma_stat_caps_preserved};
use crate::components::{
    AnimationType, MAX_DT_MS, MergeState, PickTargetStrategy, Team, Unit, UnitId,
    attack_merge_exclusive, known_attacks_wf, lemma_fresh_animation_wf, spec_fresh_animation,
    unit_wf,
};
use crate::config::{Config, config_wf};
use crate::geom::{
    MAX_COORD, Pos, dist2, dist2_exec, displaced, midpoint, midpoint_exec, offset_toward,
};
use crate::rng::roll_permille;
use crate::world::{World, lemma_wf_preserved, unit_handles_in_range};

/// May enter a merge: ungated, idle, unpaired, and never merged before.
pub open spec fn merge_eligible(u: Unit) -> bool {
    &&& !u.inert
    &&& !u.dying
    &&& u.active_attack is None
    &&& u.merge is Lone
    &&& !u.merged
}

/// The telegraph form a freshly paired unit takes: pointing at its partner
/// and the shared meeting point, target dropped, animation removed (frozen),
/// and the alert visual attached.
pub open spec fn pre_of(u: Unit, partner: UnitId, meet: Pos, telegraph_ms: u64) -> Unit {
    Unit {
        merge: MergeState::PreMerging { remaining_ms: telegraph_ms, partner, meeting_point: meet },
        target: Option::None,
        animation: Option::None,
        merge_alert_vfx: true,
        ..u
    }
}

/// Slots `i` and `j` could pair right now: both eligible, same team, and
/// within the proximity gate.
pub open spec fn pairable(w: World, cfg: Config, i: int, j: int) -> bool {
    &&& i != j
    &&& w.live(i)
    &&& w.live(j)
    &&& merge_eligible(w.u(i))
    &&& merge_eligible(w.u(j))
    &&& w.u(i).team == w.u(j).team
    &&& dist2(w.u(i).pos, w.u(j).pos) <= cfg.merge_range * cfg.merge_range
}

/// A successful pairing of slot `i` with the unit behind `p`, judged
/// against the pre-pass world: both eligible, same team, within the
/// proximity gate, and slot `i` now telegraphs toward their midpoint.
pub open spec fn paired_into(w: World, cfg: Config, i: int, p: UnitId, s: Option<Unit>) -> bool
    recommends
        0 <= i < w.n(),
{
    &&& w.valid(p)
    &&& p.index as int != i
    &&& w.live(i)
    &&& merge_eligible(w.u(i))
    &&& merge_eligible(w.u(p.index as int))
    &&& w.u(i).team == w.u(p.index as int).team
    &&& dist2(w.u(i).pos, w.u(p.index as int).pos) <= cfg.merge_range * cfg.merge_range
    &&& (s == Option::Some(
        pre_of(w.u(i), p, midpoint(w.u(i).pos, w.u(p.index as int).pos), cfg.telegraph_ms),
    ) || s == Option::Some(
        pre_of(w.u(i), p, midpoint(w.u(p.index as int).pos, w.u(i).pos), cfg.telegraph_ms),
    ))
}

impl Battle {
    /// Pair slots `i` and `j` if both are eligible, same-team, within the
    /// proximity gate, and the chance roll succeeds: both enter the
    /// telegraph phase pointing at each other and at their fixed midpoint.
    #[verifier::rlimit(100)]
    fn try_pair(&mut self, i: usize, j: usize) -> (paired: bool)
        requires
            old(self).wf(),
            i < old(self).world.n(),
            j < old(self).world.n(),
            i != j,
        ensures
            final(self).wf(),
            final(self).world.n() == old(self).world.n(),
            final(self).world.generations@ == old(self).world.generations@,
            final(self).world.attacks@ == old(self).world.attacks@,
            !paired ==> final(self).world.units@ == old(self).world.units@,
            // The roll is bounded in both directions: a zero chance never
            // pairs, a certain chance pairs whenever the pair qualifies.
            old(self).config.merge_chance_permille == 0 ==> !paired,
            old(self).config.merge_chance_permille >= 1000 && pairable(
                old(self).world,
                old(self).config,
                i as int,
                j as int,
            ) ==> paired,
            paired ==> {
                &&& old(self).world.live(i as int)
                &&& old(self).world.live(j as int)
                &&& merge_eligible(old(self).world.u(i as int))
                &&& merge_eligible(old(self).world.u(j as int))
                &&& old(self).world.u(i as int).team == old(self).world.u(j as int).team
                &&& dist2(old(self).world.u(i as int).pos, old(self).world.u(j as int).pos)
                    <= old(self).config.merge_range * old(self).config.merge_range
                &&& final(self).world.units@ == old(self).world.units@.update(
                    i as int,
                    Option::Some(
                        pre_of(
                            old(self).world.u(i as int),
                            old(self).world.id_of(j as int),
                            midpoint(
                                old(self).world.u(i as int).pos,
                                old(self).world.u(j as int).pos,
                            ),
                            old(self).config.telegraph_ms,
                        ),
                    ),
                ).update(
                    j as int,
                    Option::Some(
                        pre_of(
                            old(self).world.u(j as int),
                            old(self).world.id_of(i as int),
                            midpoint(
                                old(self).world.u(i as int).pos,
                                old(self).world.u(j as int).pos,
                            ),
                            old(self).config.telegraph_ms,
                        ),
                    ),
                )
            },
            final(self).config == old(self).config,
            final(self).events == old(self).events,
            final(self).merge_timer_ms == old(self).merge_timer_ms,
            final(self).pre_game_ms_left == old(self).pre_game_ms_left,
            final(self).round_over == old(self).round_over,
            final(self).slimes_to_spawn == old(self).slimes_to_spawn,
            final(self).spawn_timer_ms == old(self).spawn_timer_ms,
    {
        let a = match self.world.units[i] {
            Option::Some(u) => u,
            Option::None => {
                return false;
            },
        };
        let b = match self.world.units[j] {
            Option::Some(u) => u,
            Option::None => {
                return false;
            },
        };
        let a_ok = !a.inert && !a.dying && !a.merged && a.merge.is_lone() && (match a
            .active_attack {
            Option::None => true,
            Option::Some(_) => false,
        });
        let b_ok = !b.inert && !b.dying && !b.merged && b.merge.is_lone() && (match b
            .active_attack {
            Option::None => true,
            Option::Some(_) => false,
        });
        proof {
            assert(old(self).world.live(i as int) && old(self).world.u(i as int) == a);
            assert(old(self).world.live(j as int) && old(self).world.u(j as int) == b);
            assert(a_ok == merge_eligible(a));
            assert(b_ok == merge_eligible(b));
        }
        if !a_ok || !b_ok {
            return false;
        }
        if !(match (a.team, b.team) {
            (crate::components::Team::Player, crate::components::Team::Player) => true,
            (crate::components::Team::Enemy, crate::components::Team::Enemy) => true,
            _ => false,
        }) {
            return false;
        }
        proof {
            assert(old(self).world.live(i as int));
            assert(old(self).world.live(j as int));
            assert(unit_wf(old(self).world.u(i as int)));
            assert(unit_wf(old(self).world.u(j as int)));
            crate::geom::lemma_abs_mul_bound(
                self.config.merge_range as int,
                self.config.merge_range as int,
                MAX_COORD as int,
                MAX_COORD as int,
            );
        }
        let d2 = dist2_exec(a.pos, b.pos);
        if d2 > self.config.merge_range * self.config.merge_range {
            return false;
        }
        if roll_permille() >= self.config.merge_chance_permille {
            return false;
        }
        let meet = midpoint_exec(a.pos, b.pos);
        let gi = self.world.generations[i];
        let gj = self.world.generations[j];
        let na = Unit {
            merge: MergeState::PreMerging {
                remaining_ms: self.config.telegraph_ms,
                partner: UnitId { index: j, generation: gj },
                meeting_point: meet,
            },
            target: Option::None,
            animation: Option::None,
            merge_alert_vfx: true,
            ..a
        };
        let nb = Unit {
            merge: MergeState::PreMerging {
                remaining_ms: self.config.telegraph_ms,
                partner: UnitId { index: i, generation: gi },
                meeting_point: meet,
            },
            target: Option::None,
            animation: Option::None,
            merge_alert_vfx: true,
            ..b
        };
        self.world.units.set(i, Option::Some(na));
        self.world.units.set(j, Option::Some(nb));
        proof {
            let w1 = old(self).world;
            let w2 = final(self).world;
            assert(w2.units@ =~= w1.units@.update(i as int, Option::Some(na)).update(
                j as int,
                Option::Some(nb),
            ));
            assert forall|k: int| w2.live(k) <==> w1.live(k) by {}
            assert forall|k: int| w2.live(k) implies unit_wf(w2.u(k)) && known_attacks_wf(
                w2.attacks@[k],
            ) && attack_merge_exclusive(w2.u(k)) && (w2.u(k).merged ==> w2.u(k).merge is Lone)
                && unit_handles_in_range(w2.u(k), w2.n()) by {
                assert(w1.live(k));
                assert(unit_wf(w1.u(k)));
                assert(known_attacks_wf(w1.attacks@[k]));
                assert(attack_merge_exclusive(w1.u(k)));
                assert(w1.u(k).merged ==> w1.u(k).merge is Lone);
                assert(unit_handles_in_range(w1.u(k), w1.n()));
                if k == i as int || k == j as int {
                } else {
                    assert(w2.u(k) == w1.u(k));
                }
            }
            assert forall|k: int| #![trigger w2.u(k)] w2.live(k) implies w2.partner_linked(k) by {
                assert(w1.live(k));
                assert(w1.partner_linked(k));
                if k == i as int {
                    assert(w2.valid(w2.u(k).merge.spec_partner()->0));
                } else if k == j as int {
                    assert(w2.valid(w2.u(k).merge.spec_partner()->0));
                } else {
                    assert(w2.u(k) == w1.u(k));
                    assert(unit_handles_in_range(w1.u(k), w1.n()));
                    let po = w1.u(k).merge.spec_partner();
                    if po is Some {
                        let p = po->0;
                        if p.index as int == i as int || p.index as int == j as int {
                            // The old occupant of that slot was unpaired, so no
                            // symmetric link to it can have existed.
                            if w1.valid(p) && !w1.u(p.index as int).dying && !w1.u(k).dying {
                                assert(w1.u(p.index as int).merge is Lone);
                            }
                        } else {
                            assert(w2.valid(p) == w1.valid(p));
                            if w1.valid(p) {
                                assert(w2.u(p.index as int) == w1.u(p.index as int));
                            }
                            assert(w2.id_of(k) == w1.id_of(k));
                        }
                    }
                }
            }
            lemma_stat_caps_preserved(*old(self), *final(self));
        }
        true
    }

    /// The periodic pairing check: once each interval, every unordered pair
    /// of eligible same-team units within the proximity gate rolls the
    /// configured chance; winners enter the telegraph phase together. Each
    /// unit pairs at most once per check, because a paired unit is no longer
    /// eligible.
    pub fn check_merge_system(&mut self, dt_ms: u64)
        requires
            old(self).wf(),
        ensures
            final(self).wf(),
            final(self).world.n() == old(self).world.n(),
            final(self).world.generations@ == old(self).world.generations@,
            final(self).world.attacks@ == old(self).world.attacks@,
            final(self).merge_timer_ms == if old(self).merge_timer_ms.saturating_sub(dt_ms) == 0 {
                old(self).config.merge_check_interval_ms
            } else {
                old(self).merge_timer_ms.saturating_sub(dt_ms)
            },
            old(self).merge_timer_ms.saturating_sub(dt_ms) != 0 ==> final(self).world.units@
                == old(self).world.units@,
            forall|k: int|
                0 <= k < old(self).world.n() ==> #[trigger] final(self).world.units@[k] == old(self).world.units@[k] || exists|p: UnitId|
                    paired_into(old(self).world, old(self).config, k, p, final(self).world.units@[k]),
            // The per-pair roll is bounded in both directions: at zero
            // chance nothing pairs; at certain chance, a fired check with
            // any qualifying pair on the field pairs someone — some slot
            // changes, and by the clause above every change is the paired
            // form.
            old(self).config.merge_chance_permille == 0 ==> final(self).world.units@ == old(self).world.units@,
            old(self).merge_timer_ms.saturating_sub(dt_ms) == 0 && old(
                self,
            ).config.merge_chance_permille >= 1000 && (exists|a: int, b: int|
                pairable(old(self).world, old(self).config, a, b)) ==> exists|k: int|
                0 <= k < old(self).world.n() && #[trigger] final(self).world.units@[k] != old(self).world.units@[k],
            final(self).config == old(self).config,
            final(self).events == old(self).events,
            final(self).pre_game_ms_left == old(self).pre_game_ms_left,
            final(self).round_over == old(self).round_over,
            final(self).slimes_to_spawn == old(self).slimes_to_spawn,
            final(self).spawn_timer_ms == old(self).spawn_timer_ms,
    {
        let left = self.merge_timer_ms.saturating_sub(dt_ms);
        if left != 0 {
            self.merge_timer_ms = left;
            return ;
        }
        self.merge_timer_ms = self.config.merge_check_interval_ms;
        let n = self.world.len();
        let mut i: usize = 0;
        while i < n
            invariant
                old(self).wf(),
                self.wf(),
                n == old(self).world.n(),
                self.world.units@.len() == n,
                self.world.generations@ == old(self).world.generations@,
                self.world.attacks@ == old(self).world.attacks@,
                forall|k: int|
                    0 <= k < n ==> #[trigger] self.world.units@[k] == old(self).world.units@[k]
                        || exists|p: UnitId|
                        paired_into(old(self).world, old(self).config, k, p, self.world.units@[k]),
                old(self).config.merge_chance_permille == 0 ==> self.world.units@ == old(self).world.units@,
                old(self).config.merge_chance_permille >= 1000 ==> (exists|k: int|
                    0 <= k < n && #[trigger] self.world.units@[k] != old(self).world.units@[k])
                    || (forall|a: int, b: int|
                    0 <= a < b < n && a < i ==> !pairable(old(self).world, old(self).config, a, b)),
                self.config == old(self).config,
                self.events == old(self).events,
                self.merge_timer_ms == old(self).config.merge_check_interval_ms,
                self.pre_game_ms_left == old(self).pre_game_ms_left,
                self.round_over == old(self).round_over,
                self.slimes_to_spawn == old(self).slimes_to_spawn,
                self.spawn_timer_ms == old(self).spawn_timer_ms,
            decreases n - i,
        {
            let mut j: usize = i + 1;
            while j < n
                invariant
                    old(self).wf(),
                    self.wf(),
                    i < n,
                    i < j,
                    n == old(self).world.n(),
                    self.world.units@.len() == n,
                    self.world.generations@ == old(self).world.generations@,
                    self.world.attacks@ == old(self).world.attacks@,
                    forall|k: int|
                        0 <= k < n ==> #[trigger] self.world.units@[k] == old(self).world.units@[k] || exists|p: UnitId|
                            paired_into(
                                old(self).world,
                                old(self).config,
                                k,
                                p,
                                self.world.units@[k],
                            ),
                    old(self).config.merge_chance_permille == 0 ==> self.world.units@ == old(self).world.units@,
                    old(self).config.merge_chance_permille >= 1000 ==> (exists|k: int|
                        0 <= k < n && #[trigger] self.world.units@[k] != old(self).world.units@[k])
                        || (forall|a: int, b: int|
                        0 <= a < b < n && (a < i || (a == i && b < j)) ==> !pairable(
                            old(self).world,
                            old(self).config,
                            a,
                            b,
                        )),
                    self.config == old(self).config,
                    self.events == old(self).events,
                    self.merge_timer_ms == old(self).config.merge_check_interval_ms,
                    self.pre_game_ms_left == old(self).pre_game_ms_left,
                    self.round_over == old(self).round_over,
                    self.slimes_to_spawn == old(self).slimes_to_spawn,
                    self.spawn_timer_ms == old(self).spawn_timer_ms,
                decreases n - j,
            {
                let ghost mid = *self;
                let paired = self.try_pair(i, j);
                proof {
                    if old(self).config.merge_chance_permille >= 1000 {
                        if paired {
                            assert(merge_eligible(mid.world.u(i as int)));
                            assert(self.world.u(i as int).merge is PreMerging);
                            assert(self.world.units@[i as int] != old(self).world.units@[i as int]) by {
                                assert(mid.world.units@[i as int] == old(self).world.units@[i as int]);
                            }
                        } else if exists|k: int|
                            0 <= k < n && #[trigger] mid.world.units@[k] != old(self).world.units@[k] {
                            let k = choose|k: int|
                                0 <= k < n && #[trigger] mid.world.units@[k] != old(self).world.units@[k];
                            assert(self.world.units@ == mid.world.units@);
                            assert(self.world.units@[k] != old(self).world.units@[k]);
                        } else {
                            // Nothing has been paired this pass, so every
                            // slot still matches the pass-start world; a
                            // certain roll that still declined means the
                            // pair did not qualify.
                            assert forall|k: int| 0 <= k < n implies #[trigger] mid.world.units@[k] == old(self).world.units@[k] by {}
                            assert(!pairable(mid.world, old(self).config, i as int, j as int));
                            assert(pairable(old(self).world, old(self).config, i as int, j as int)
                                == pairable(mid.world, old(self).config, i as int, j as int));
                            assert(!pairable(old(self).world, old(self).config, i as int, j as int));
                            assert forall|a: int, b: int|
                                0 <= a < b < n && (a < i || (a == i && b < j + 1)) implies !pairable(
                                old(self).world,
                                old(self).config,
                                a,
                                b,
                            ) by {
                                if a == i as int && b == j as int {
                                } else {
                                    assert(a < i || (a == i && b < j));
                                }
                            }
                        }
                    }
                    if paired {
                        // A unit eligible mid-pass is untouched so far, so the
                        // pairing facts transfer to the pass-start world.
                        assert(mid.world.live(i as int) && merge_eligible(mid.world.u(i as int)));
                        assert(mid.world.live(j as int) && merge_eligible(mid.world.u(j as int)));
                        assert(mid.world.units@[i as int] == old(self).world.units@[i as int])
                            by {
                            if mid.world.units@[i as int] != old(self).world.units@[i as int] {
                                let p = choose|p: UnitId|
                                    paired_into(
                                        old(self).world,
                                        old(self).config,
                                        i as int,
                                        p,
                                        mid.world.units@[i as int],
                                    );
                                assert(mid.world.u(i as int).merge is PreMerging);
                            }
                        }
                        assert(mid.world.units@[j as int] == old(self).world.units@[j as int])
                            by {
                            if mid.world.units@[j as int] != old(self).world.units@[j as int] {
                                let p = choose|p: UnitId|
                                    paired_into(
                                        old(self).world,
                                        old(self).config,
                                        j as int,
                                        p,
                                        mid.world.units@[j as int],
                                    );
                                assert(mid.world.u(j as int).merge is PreMerging);
                            }
                        }
                        assert(mid.world.id_of(j as int) == old(self).world.id_of(j as int));
                        assert(mid.world.id_of(i as int) == old(self).world.id_of(i as int));
                        assert(old(self).world.valid(old(self).world.id_of(j as int)));
                        assert(old(self).world.valid(old(self).world.id_of(i as int)));
                        assert(self.world.units@[i as int] == Option::Some(
                            pre_of(
                                old(self).world.u(i as int),
                                old(self).world.id_of(j as int),
                                midpoint(
                                    old(self).world.u(i as int).pos,
                                    old(self).world.u(j as int).pos,
                                ),
                                old(self).config.telegraph_ms,
                            ),
                        ));
                        assert(self.world.units@[j as int] == Option::Some(
                            pre_of(
                                old(self).world.u(j as int),
                                old(self).world.id_of(i as int),
                                midpoint(
                                    old(self).world.u(i as int).pos,
                                    old(self).world.u(j as int).pos,
                                ),
                                old(self).config.telegraph_ms,
                            ),
                        ));
                        assert(paired_into(
                            old(self).world,
                            old(self).config,
                            i as int,
                            old(self).world.id_of(j as int),
                            self.world.units@[i as int],
                        ));
                        crate::geom::lemma_dist2_symmetric(
                            old(self).world.u(j as int).pos,
                            old(self).world.u(i as int).pos,
                        );
                        assert(paired_into(
                            old(self).world,
                            old(self).config,
                            j as int,
                            old(self).world.id_of(i as int),
                            self.world.units@[j as int],
                        ));
                        assert forall|k: int|
                            0 <= k < n implies #[trigger] self.world.units@[k] == old(self).world.units@[k] || exists|p: UnitId|
                            paired_into(
                                old(self).world,
                                old(self).config,
                                k,
                                p,
                                self.world.units@[k],
                            ) by {
                            if k == i as int {
                                let p = old(self).world.id_of(j as int);
                                assert(paired_into(
                                    old(self).world,
                                    old(self).config,
                                    k,
                                    p,
                                    self.world.units@[k],
                                ));
                            } else if k == j as int {
                                let p = old(self).world.id_of(i as int);
                                assert(paired_into(
                                    old(self).world,
                                    old(self).config,
                                    k,
                                    p,
                                    self.world.units@[k],
                                ));
                            } else {
                                assert(self.world.units@[k] == mid.world.units@[k]);
                            }
                        }
                    }
                }
                j = j + 1;
            }
            i = i + 1;
        }
        proof {
            if old(self).config.merge_chance_permille >= 1000 && (exists|a: int, b: int|
                pairable(old(self).world, old(self).config, a, b)) {
                if !(exists|k: int|
                    0 <= k < n && #[trigger] self.world.units@[k] != old(self).world.units@[k]) {
                    let (a, b) = choose|a: int, b: int|
                        pairable(old(self).world, old(self).config, a, b);
                    crate::geom::lemma_dist2_symmetric(
                        old(self).world.u(a).pos,
                        old(self).world.u(b).pos,
                    );
                    if a < b {
                        assert(!pairable(old(self).world, old(self).config, a, b));
                    } else {
                        assert(pairable(old(self).world, old(self).config, b, a));
                        assert(!pairable(old(self).world, old(self).config, b, a));
                    }
                }
            }
        }
    }
}

/// A telegraph cancelled: back to normal eligibility, alert visual gone,
/// idle clip restored.
pub open spec fn cancelled_pre(u: Unit) -> Unit {
    Unit {
        merge: MergeState::Lone,
        merge_alert_vfx: false,
        current_clip: u.idle_animation,
        animation: Option::Some(spec_fresh_animation(u.idle_animation)),
        ..u
    }
}

/// One tick of telegraph time.
pub open spec fn pre_ticked(u: Unit, dt_ms: u64) -> Unit
    recommends
        u.merge is PreMerging,
{
    match u.merge {
        MergeState::PreMerging { remaining_ms, partner, meeting_point } => Unit {
            merge: MergeState::PreMerging {
                remaining_ms: remaining_ms.saturating_sub(dt_ms),
                partner,
                meeting_point,
            },
            ..u
        },
        _ => u,
    }
}

/// The walk phase a unit enters when the telegraph expires: same partner,
/// same meeting point, moving animation back on.
pub open spec fn walk_of(u: Unit) -> Unit
    recommends
        u.merge is PreMerging,
{
    match u.merge {
        MergeState::PreMerging { partner, meeting_point, .. } => Unit {
            merge: MergeState::Merging { partner, meeting_point },
            current_clip: u.idle_animation,
            animation: Option::Some(spec_fresh_animation(u.idle_animation)),
            ..u
        },
        _ => u,
    }
}

/// The partner handle is stale: despawned, or its unit is dying.
pub open spec fn partner_stale(w: World, p: UnitId) -> bool {
    !w.valid(p) || w.u(p.index as int).dying
}

/// Either end of the pair has run out its telegraph; both partners react to
/// the same condition, so they transition together.
pub open spec fn walk_triggered(w: World, i: int, dt_ms: u64) -> bool
    recommends
        w.live(i),
        w.u(i).merge is PreMerging,
{
    ||| w.u(i).merge->PreMerging_remaining_ms.saturating_sub(dt_ms) == 0
    ||| {
        let p = w.u(i).merge.spec_partner()->0;
        &&& w.u(p.index as int).merge is PreMerging
        &&& w.u(p.index as int).merge->PreMerging_remaining_ms.saturating_sub(dt_ms) == 0
    }
}

/// The telegraph pass applied to one slot, judged entirely against the
/// pass-start world: a telegraphing, non-dying unit with a stale partner is
/// cancelled; with a live partner it enters the walk phase as soon as either
/// end's telegraph has expired, and keeps counting down otherwise.
pub open spec fn telegraphed(w: World, i: int, dt_ms: u64) -> Option<Unit>
    recommends
        0 <= i < w.n(),
{
    match w.units@[i] {
        Option::None => Option::None,
        Option::Some(u) => Option::Some(
            if u.merge is PreMerging && !u.dying {
                if partner_stale(w, u.merge.spec_partner()->0) {
                    cancelled_pre(u)
                } else if walk_triggered(w, i, dt_ms) {
                    walk_of(u)
                } else {
                    pre_ticked(u, dt_ms)
                }
            } else {
                u
            },
        ),
    }
}

/// One slot's telegraph step, computed against the unmutated world.
fn telegraph_unit(world: &World, i: usize, dt_ms: u64) -> (r: Option<Unit>)
    requires
        world.wf(),
        i < world.n(),
    ensures
        r == telegraphed(*world, i as int, dt_ms),
{
    let u = match world.at(i) {
        Option::Some(u) => u,
        Option::None => {
            return Option::None;
        },
    };
    let (remaining_ms, partner, meeting_point) = match u.merge {
        MergeState::PreMerging { remaining_ms, partner, meeting_point } => (
            remaining_ms,
            partner,
            meeting_point,
        ),
        _ => {
            return Option::Some(u);
        },
    };
    if u.dying {
        return Option::Some(u);
    }
    proof {
        assert(world.live(i as int));
        assert(world.u(i as int) == u);
        assert(unit_wf(u));
    }
    let pslot = world.get(partner);
    let pu = match pslot {
        Option::Some(pu) => pu,
        Option::None => {
            let anim = crate::components::fresh_animation(u.idle_animation);
            return Option::Some(
                Unit {
                    merge: MergeState::Lone,
                    merge_alert_vfx: false,
                    current_clip: u.idle_animation,
                    animation: Option::Some(anim),
                    ..u
                },
            );
        },
    };
    if pu.dying {
        let anim = crate::components::fresh_animation(u.idle_animation);
        return Option::Some(
            Unit {
                merge: MergeState::Lone,
                merge_alert_vfx: false,
                current_clip: u.idle_animation,
                animation: Option::Some(anim),
                ..u
            },
        );
    }
    let my_done = remaining_ms.saturating_sub(dt_ms) == 0;
    let partner_done = match pu.merge {
        MergeState::PreMerging { remaining_ms: prem, .. } => prem.saturating_sub(dt_ms) == 0,
        _ => false,
    };
    if my_done || partner_done {
        let anim = crate::components::fresh_animation(u.idle_animation);
        Option::Some(
            Unit {
                merge: MergeState::Merging { partner, meeting_point },
                current_clip: u.idle_animation,
                animation: Option::Some(anim),
                ..u
            },
        )
    } else {
        Option::Some(
            Unit {
                merge: MergeState::PreMerging {
                    remaining_ms: remaining_ms.saturating_sub(dt_ms),
                    partner,
                    meeting_point,
                },
                ..u
            },
        )
    }
}

impl Battle {
    /// The telegraph tick: cancel a telegraph whose partner is gone or
    /// dying; otherwise count it down, and on expiry move both partners into
    /// the walk phase together, each still pointing at the other.
    #[verifier::rlimit(100)]
    pub fn pre_merge_system(&mut self, dt_ms: u64)
        requires
            old(self).wf(),
        ensures
            final(self).wf(),
            final(self).world.n() == old(self).world.n(),
            final(self).world.generations@ == old(self).world.generations@,
            final(self).world.attacks@ == old(self).world.attacks@,
            forall|k: int|
                0 <= k < old(self).world.n() ==> #[trigger] final(self).world.units@[k]
                    == telegraphed(old(self).world, k, dt_ms),
            final(self).config == old(self).config,
            final(self).events == old(self).events,
            final(self).merge_timer_ms == old(self).merge_timer_ms,
            final(self).pre_game_ms_left == old(self).pre_game_ms_left,
            final(self).round_over == old(self).round_over,
            final(self).slimes_to_spawn == old(self).slimes_to_spawn,
            final(self).spawn_timer_ms == old(self).spawn_timer_ms,
    {
        let n = self.world.len();
        let mut staged: Vec<Option<Unit>> = Vec::new();
        let mut i: usize = 0;
        while i < n
            invariant
                old(self).wf(),
                *self == *old(self),
                n == old(self).world.n(),
                staged@.len() == i,
                i <= n,
                forall|k: int|
                    0 <= k < i ==> #[trigger] staged@[k] == telegraphed(
                        old(self).world,
                        k,
                        dt_ms,
                    ),
            decreases n - i,
        {
            let nu = telegraph_unit(&self.world, i, dt_ms);
            staged.push(nu);
            i = i + 1;
        }
        let mut j: usize = 0;
        while j < n
            invariant
                old(self).wf(),
                n == old(self).world.n(),
                staged@.len() == n,
                forall|k: int|
                    0 <= k < n ==> #[trigger] staged@[k] == telegraphed(
                        old(self).world,
                        k,
                        dt_ms,
                    ),
                self.world.units@.len() == n,
                self.world.generations@ == old(self).world.generations@,
                self.world.attacks@ == old(self).world.attacks@,
                forall|k: int|
                    j <= k < n ==> #[trigger] self.world.units@[k] == old(self).world.units@[k],
                forall|k: int|
                    0 <= k < j ==> #[trigger] self.world.units@[k] == telegraphed(
                        old(self).world,
                        k,
                        dt_ms,
                    ),
                self.config == old(self).config,
                self.events == old(self).events,
                self.merge_timer_ms == old(self).merge_timer_ms,
                self.pre_game_ms_left == old(self).pre_game_ms_left,
                self.round_over == old(self).round_over,
                self.slimes_to_spawn == old(self).slimes_to_spawn,
                self.spawn_timer_ms == old(self).spawn_timer_ms,
            decreases n - j,
        {
            let nu = staged[j];
            match nu {
                Option::Some(v) => {
                    self.world.units.set(j, Option::Some(v));
                },
                Option::None => {
                    proof {
                        assert(telegraphed(old(self).world, j as int, dt_ms) is None);
                        assert(old(self).world.units@[j as int] is None);
                    }
                },
            }
            j = j + 1;
        }
        proof {
            assert(old(self).world.n() == n as int);
            lemma_telegraph_wf(old(self).world, final(self).world, dt_ms);
            lemma_stat_caps_preserved(*old(self), *final(self));
        }
    }
}

/// The telegraph pass preserves the store invariant: cancelled units go
/// back to `Lone`, ticking pairs keep their mutual pointers, and a pair's
/// walk transition is symmetric because both ends react to the same expiry
/// condition.
#[verifier::rlimit(100)]
pub proof fn lemma_telegraph_wf(w1: World, w2: World, dt_ms: u64)
    requires
        w1.wf(),
        w1.n() <= usize::MAX as int,
        w2.units@.len() == w1.units@.len(),
        w2.generations@ == w1.generations@,
        w2.attacks@ == w1.attacks@,
        forall|k: int|
            0 <= k < w1.n() ==> #[trigger] w2.units@[k] == telegraphed(w1, k, dt_ms),
    ensures
        w2.wf(),
{
    assert forall|k: int| w2.live(k) <==> w1.live(k) by {
        if 0 <= k < w1.n() {
            assert(w2.units@[k] == telegraphed(w1, k, dt_ms));
        }
    }
    assert forall|k: int| w2.live(k) implies unit_wf(w2.u(k)) && known_attacks_wf(w2.attacks@[k])
        && attack_merge_exclusive(w2.u(k)) && (w2.u(k).merged ==> w2.u(k).merge is Lone)
        && unit_handles_in_range(w2.u(k), w2.n()) by {
        assert(w2.units@[k] == telegraphed(w1, k, dt_ms));
        assert(w1.live(k));
        assert(unit_wf(w1.u(k)));
        assert(known_attacks_wf(w1.attacks@[k]));
        assert(attack_merge_exclusive(w1.u(k)));
        assert(w1.u(k).merged ==> w1.u(k).merge is Lone);
        assert(unit_handles_in_range(w1.u(k), w1.n()));
        lemma_fresh_animation_wf(w1.u(k).idle_animation);
    }
    assert forall|k: int| #![trigger w2.u(k)] w2.live(k) implies w2.partner_linked(k) by {
        assert(w2.units@[k] == telegraphed(w1, k, dt_ms));
        assert(w1.live(k));
        assert(w1.partner_linked(k));
        let u = w1.u(k);
        if !w2.u(k).dying {
            let po2 = w2.u(k).merge.spec_partner();
            if po2 is Some {
                let p = po2->0;
                // In every non-cancelled case the partner handle is u's old
                // partner.
                assert(u.merge is PreMerging || u.merge is Merging);
                assert(p == u.merge.spec_partner()->0);
                assert(unit_handles_in_range(w1.u(k), w1.n()));
                assert(w2.valid(p) == w1.valid(p));
                if w2.valid(p) && !w2.u(p.index as int).dying {
                    assert(w2.units@[p.index as int] == telegraphed(w1, p.index as int, dt_ms));
                    assert(w1.live(p.index as int));
                    assert(!w1.u(p.index as int).dying);
                    assert(p.index as int != k);
                    assert(w2.id_of(k) == w1.id_of(k));
                    if u.merge is Merging {
                        // Already walking before the pass: the partner was
                        // walking too, and walking units are untouched.
                        assert(w1.u(p.index as int).merge is Merging);
                        assert(w2.u(p.index as int) == w1.u(p.index as int));
                    } else {
                        // Telegraphing: the partner was telegraphing back.
                        assert(w1.u(p.index as int).merge is PreMerging);
                        assert(w1.u(p.index as int).merge.spec_partner()->0 == w1.id_of(k));
                        assert(w1.u(k).dying == w2.u(k).dying);
                        assert(!w1.u(k).dying);
                        assert(w1.id_of(k).index as int == k);
                        assert(w1.valid(w1.id_of(k)));
                        assert(!partner_stale(w1, w1.u(p.index as int).merge.spec_partner()->0));
                        if w2.u(k).merge is Merging {
                            // This slot transitioned, so the shared trigger
                            // held; it holds for the partner too.
                            assert(walk_triggered(w1, k, dt_ms));
                            assert(walk_triggered(w1, p.index as int, dt_ms));
                            assert(w2.u(p.index as int) == walk_of(w1.u(p.index as int)));
                        } else {
                            assert(!walk_triggered(w1, k, dt_ms));
                            assert(!walk_triggered(w1, p.index as int, dt_ms));
                            assert(w2.u(p.index as int) == pre_ticked(
                                w1.u(p.index as int),
                                dt_ms,
                            ));
                        }
                    }
                }
            }
        }
    }
}

/// The walk pass applied to one slot, against the pass-start world: a
/// walking, non-dying unit still outside the stop threshold advances toward
/// the fixed meeting point at its own speed.
pub open spec fn merge_walked(w: World, cfg: Config, i: int, dt_ms: u64) -> Option<Unit>
    recommends
        0 <= i < w.n(),
{
    match w.units@[i] {
        Option::None => Option::None,
        Option::Some(u) => Option::Some(
            match u.merge {
                MergeState::Merging { meeting_point, .. } => {
                    if !u.dying && dist2(u.pos, meeting_point) >= cfg.merge_walk_stop
                        * cfg.merge_walk_stop {
                        Unit {
                            pos: displaced(
                                u.pos,
                                offset_toward(
                                    u.pos,
                                    meeting_point,
                                    crate::movement::step_magnitude(u.speed as int, dt_ms),
                                ),
                            ),
                            ..u
                        }
                    } else {
                        u
                    }
                },
                _ => u,
            },
        ),
    }
}

/// One slot's walk step, computed against the unmutated world.
fn merge_walk_unit(world: &World, cfg: &Config, i: usize, dt_ms: u64) -> (r: Option<Unit>)
    requires
        world.wf(),
        config_wf(*cfg),
        i < world.n(),
        dt_ms <= MAX_DT_MS,
    ensures
        r == merge_walked(*world, *cfg, i as int, dt_ms),
{
    let u = match world.at(i) {
        Option::Some(u) => u,
        Option::None => {
            return Option::None;
        },
    };
    let meeting_point = match u.merge {
        MergeState::Merging { meeting_point, .. } => meeting_point,
        _ => {
            return Option::Some(u);
        },
    };
    if u.dying {
        return Option::Some(u);
    }
    proof {
        assert(world.live(i as int));
        assert(world.u(i as int) == u);
        assert(unit_wf(u));
        crate::geom::lemma_abs_mul_bound(
            cfg.merge_walk_stop as int,
            cfg.merge_walk_stop as int,
            MAX_COORD as int,
            MAX_COORD as int,
        );
        crate::movement::lemma_step_magnitude_bounded(u.speed as int, dt_ms);
    }
    let d2 = dist2_exec(u.pos, meeting_point);
    if d2 >= cfg.merge_walk_stop * cfg.merge_walk_stop {
        let step = (u.speed * (dt_ms as i64)) / 1000;
        let off = crate::geom::offset_toward_exec(u.pos, meeting_point, step);
        let np = crate::geom::apply_offset(u.pos, off);
        Option::Some(Unit { pos: np, ..u })
    } else {
        Option::Some(u)
    }
}

/// The cancellation pass applied to one slot: a walking unit whose partner
/// has despawned or is dying returns to normal eligibility and loses the
/// alert visual.
pub open spec fn merge_cancel_checked(w: World, i: int) -> Option<Unit>
    recommends
        0 <= i < w.n(),
{
    match w.units@[i] {
        Option::None => Option::None,
        Option::Some(u) => Option::Some(
            match u.merge {
                MergeState::Merging { partner, .. } => {
                    if partner_stale(w, partner) {
                        Unit { merge: MergeState::Lone, merge_alert_vfx: false, ..u }
                    } else {
                        u
                    }
                },
                _ => u,
            },
        ),
    }
}

impl Battle {
    /// The walk phase: each walking unit moves toward the pair's fixed
    /// meeting point, stopping just short so the pair can overlap.
    pub fn merge_walk_system(&mut self, dt_ms: u64)
        requires
            old(self).wf(),
            dt_ms <= MAX_DT_MS,
        ensures
            final(self).wf(),
            final(self).world.n() == old(self).world.n(),
            final(self).world.generations@ == old(self).world.generations@,
            final(self).world.attacks@ == old(self).world.attacks@,
            forall|k: int|
                0 <= k < old(self).world.n() ==> #[trigger] final(self).world.units@[k]
                    == merge_walked(old(self).world, old(self).config, k, dt_ms),
            final(self).config == old(self).config,
            final(self).events == old(self).events,
            final(self).merge_timer_ms == old(self).merge_timer_ms,
            final(self).pre_game_ms_left == old(self).pre_game_ms_left,
            final(self).round_over == old(self).round_over,
            final(self).slimes_to_spawn == old(self).slimes_to_spawn,
            final(self).spawn_timer_ms == old(self).spawn_timer_ms,
    {
        let n = self.world.len();
        let mut staged: Vec<Option<Unit>> = Vec::new();
        let mut i: usize = 0;
        while i < n
            invariant
                old(self).wf(),
                *self == *old(self),
                n == old(self).world.n(),
                dt_ms <= MAX_DT_MS,
                staged@.len() == i,
                i <= n,
                forall|k: int|
                    0 <= k < i ==> #[trigger] staged@[k] == merge_walked(
                        old(self).world,
                        old(self).config,
                        k,
                        dt_ms,
                    ),
            decreases n - i,
        {
            let nu = merge_walk_unit(&self.world, &self.config, i, dt_ms);
            staged.push(nu);
            i = i + 1;
        }
        let mut j: usize = 0;
        while j < n
            invariant
                old(self).wf(),
                n == old(self).world.n(),
                staged@.len() == n,
                forall|k: int|
                    0 <= k < n ==> #[trigger] staged@[k] == merge_walked(
                        old(self).world,
                        old(self).config,
                        k,
                        dt_ms,
                    ),
                self.world.units@.len() == n,
                self.world.generations@ == old(self).world.generations@,
                self.world.attacks@ == old(self).world.attacks@,
                forall|k: int|
                    j <= k < n ==> #[trigger] self.world.units@[k] == old(self).world.units@[k],
                forall|k: int|
                    0 <= k < j ==> #[trigger] self.world.units@[k] == merge_walked(
                        old(self).world,
                        old(self).config,
                        k,
                        dt_ms,
                    ),
                self.config == old(self).config,
                self.events == old(self).events,
                self.merge_timer_ms == old(self).merge_timer_ms,
                self.pre_game_ms_left == old(self).pre_game_ms_left,
                self.round_over == old(self).round_over,
                self.slimes_to_spawn == old(self).slimes_to_spawn,
                self.spawn_timer_ms == old(self).spawn_timer_ms,
            decreases n - j,
        {
            let nu = staged[j];
            match nu {
                Option::Some(v) => {
                    self.world.units.set(j, Option::Some(v));
                },
                Option::None => {
                    proof {
                        assert(merge_walked(old(self).world, old(self).config, j as int, dt_ms)
                            is None);
                        assert(old(self).world.units@[j as int] is None);
                    }
                },
            }
            j = j + 1;
        }
        proof {
            assert forall|k: int| final(self).world.live(k) <==> old(self).world.live(k) by {
                if 0 <= k < n {
                    assert(final(self).world.units@[k] == merge_walked(
                        old(self).world,
                        old(self).config,
                        k,
                        dt_ms,
                    ));
                }
            }
            assert forall|k: int| final(self).world.live(k) implies unit_wf(final(self).world.u(k))
                && final(self).world.u(k).merge == old(self).world.u(k).merge && final(self).world.u(k).dying == old(self).world.u(k).dying && final(self).world.u(k).health == old(self).world.u(k).health && final(self).world.u(k).merged == old(self).world.u(k).merged && final(self).world.u(k).target == old(self).world.u(k).target && final(self).world.u(k).active_attack == old(self).world.u(k).active_attack by {
                assert(final(self).world.units@[k] == merge_walked(
                    old(self).world,
                    old(self).config,
                    k,
                    dt_ms,
                ));
                assert(old(self).world.live(k));
                assert(unit_wf(old(self).world.u(k)));
            }
            lemma_wf_preserved(old(self).world, final(self).world);
            lemma_stat_caps_preserved(*old(self), *final(self));
        }
    }

    /// Cancellation: a walking unit whose partner no longer exists or is
    /// dying goes back to normal combat behaviour instead of waiting at the
    /// meeting point forever.
    #[verifier::rlimit(100)]
    pub fn cancel_merge_system(&mut self)
        requires
            old(self).wf(),
        ensures
            final(self).wf(),
            final(self).world.n() == old(self).world.n(),
            final(self).world.generations@ == old(self).world.generations@,
            final(self).world.attacks@ == old(self).world.attacks@,
            forall|k: int|
                0 <= k < old(self).world.n() ==> #[trigger] final(self).world.units@[k]
                    == merge_cancel_checked(old(self).world, k),
            final(self).config == old(self).config,
            final(self).events == old(self).events,
            final(self).merge_timer_ms == old(self).merge_timer_ms,
            final(self).pre_game_ms_left == old(self).pre_game_ms_left,
            final(self).round_over == old(self).round_over,
            final(self).slimes_to_spawn == old(self).slimes_to_spawn,
            final(self).spawn_timer_ms == old(self).spawn_timer_ms,
    {
        let n = self.world.len();
        let mut i: usize = 0;
        while i < n
            invariant
                old(self).wf(),
                n == old(self).world.n(),
                self.world.units@.len() == n,
                self.world.generations@ == old(self).world.generations@,
                self.world.attacks@ == old(self).world.attacks@,
                forall|k: int|
                    i <= k < n ==> #[trigger] self.world.units@[k] == old(self).world.units@[k],
                forall|k: int|
                    0 <= k < i ==> #[trigger] self.world.units@[k] == merge_cancel_checked(
                        old(self).world,
                        k,
                    ),
                self.config == old(self).config,
                self.events == old(self).events,
                self.merge_timer_ms == old(self).merge_timer_ms,
                self.pre_game_ms_left == old(self).pre_game_ms_left,
                self.round_over == old(self).round_over,
                self.slimes_to_spawn == old(self).slimes_to_spawn,
                self.spawn_timer_ms == old(self).spawn_timer_ms,
            decreases n - i,
        {
            let slot = self.world.units[i];
            match slot {
                Option::Some(u) => {
                    match u.merge {
                        MergeState::Merging { partner, .. } => {
                            // Liveness and dying flags are untouched by this
                            // pass, so the check agrees with the snapshot.
                            let stale = if partner.index < n {
                                if self.world.generations[partner.index] == partner.generation {
                                    match self.world.units[partner.index] {
                                        Option::Some(pu) => pu.dying,
                                        Option::None => true,
                                    }
                                } else {
                                    true
                                }
                            } else {
                                true
                            };
                            proof {
                                assert forall|k: int| 0 <= k < n implies (self.world.live(k)
                                    == old(self).world.live(k)) && (self.world.live(k)
                                    ==> self.world.u(k).dying == old(self).world.u(k).dying) by {
                                    if k < i as int {
                                        assert(self.world.units@[k] == merge_cancel_checked(
                                            old(self).world,
                                            k,
                                        ));
                                    }
                                }
                                assert(stale == partner_stale(old(self).world, partner));
                            }
                            if stale {
                                self.world.units.set(
                                    i,
                                    Option::Some(
                                        Unit {
                                            merge: MergeState::Lone,
                                            merge_alert_vfx: false,
                                            ..u
                                        },
                                    ),
                                );
                            }
                        },
                        _ => {},
                    }
                },
                Option::None => {},
            }
            i = i + 1;
        }
        proof {
            assert forall|k: int| final(self).world.live(k) <==> old(self).world.live(k) by {
                if 0 <= k < n {
                    assert(final(self).world.units@[k] == merge_cancel_checked(
                        old(self).world,
                        k,
                    ));
                }
            }
            assert forall|k: int| final(self).world.live(k) implies unit_wf(final(self).world.u(k))
                && known_attacks_wf(final(self).world.attacks@[k]) && attack_merge_exclusive(
                final(self).world.u(k),
            ) && (final(self).world.u(k).merged ==> final(self).world.u(k).merge is Lone)
                && unit_handles_in_range(final(self).world.u(k), final(self).world.n()) by {
                assert(final(self).world.units@[k] == merge_cancel_checked(old(self).world, k));
                assert(old(self).world.live(k));
                assert(unit_wf(old(self).world.u(k)));
                assert(known_attacks_wf(old(self).world.attacks@[k]));
                assert(attack_merge_exclusive(old(self).world.u(k)));
                assert(old(self).world.u(k).merged ==> old(self).world.u(k).merge is Lone);
                assert(unit_handles_in_range(old(self).world.u(k), old(self).world.n()));
            }
            assert forall|k: int| #![trigger final(self).world.u(k)] final(self).world.live(
                k,
            ) implies final(self).world.partner_linked(k) by {
                assert(final(self).world.units@[k] == merge_cancel_checked(old(self).world, k));
                assert(old(self).world.live(k));
                assert(old(self).world.partner_linked(k));
                let w1 = old(self).world;
                let w2 = final(self).world;
                if !w2.u(k).dying {
                    let po2 = w2.u(k).merge.spec_partner();
                    if po2 is Some {
                        let p = po2->0;
                        assert(w2.u(k).merge == w1.u(k).merge);
                        assert(unit_handles_in_range(w1.u(k), w1.n()));
                        assert(w2.valid(p) == w1.valid(p));
                        if w2.valid(p) && !w2.u(p.index as int).dying {
                            assert(w2.units@[p.index as int] == merge_cancel_checked(
                                w1,
                                p.index as int,
                            ));
                            assert(!w1.u(p.index as int).dying);
                            assert(w2.id_of(k) == w1.id_of(k));
                            if w1.u(k).merge is Merging {
                                assert(!partner_stale(w1, p));
                                assert(w1.u(p.index as int).merge is Merging);
                                assert(w1.u(p.index as int).merge.spec_partner()->0 == w1.id_of(
                                    k,
                                ));
                                assert(w1.u(k).dying == w2.u(k).dying);
                                assert(w1.id_of(k).index as int == k);
                                assert(w1.valid(w1.id_of(k)));
                                assert(!partner_stale(
                                    w1,
                                    w1.u(p.index as int).merge.spec_partner()->0,
                                ));
                                assert(w2.u(p.index as int) == w1.u(p.index as int));
                            } else {
                                assert(w2.u(p.index as int).merge == w1.u(p.index as int).merge);
                            }
                        }
                    }
                }
            }
            lemma_stat_caps_preserved(*old(self), *final(self));
        }
    }
}

/// The conditions under which the pair behind slot `k` is consumed: both
/// ends walking, neither dying, pointing at each other, and within the
/// execute threshold of one another.
pub open spec fn execute_ready(w: World, cfg: Config, k: int) -> bool
    recommends
        0 <= k < w.n(),
{
    &&& w.live(k)
    &&& !w.u(k).dying
    &&& w.u(k).merge is Merging
    &&& {
        let p = w.u(k).merge.spec_partner()->0;
        &&& w.valid(p)
        &&& !w.u(p.index as int).dying
        &&& w.u(p.index as int).merge is Merging
        &&& dist2(w.u(k).pos, w.u(p.index as int).pos) <= cfg.merge_execute_range
            * cfg.merge_execute_range
    }
}

/// The unit a successful merge produces: the tank stat line left far
/// behind, the lumbering big clips, and the permanent `merged` tag that
/// keeps it out of the pairing pool.
pub open spec fn spec_merged_unit(cfg: Config, team: Team, pos: Pos) -> Unit {
    let (idle, death) = if team is Player {
        (AnimationType::BigSlimeJumpIdle, AnimationType::BigSlimeDeath)
    } else {
        (AnimationType::EnemyBigSlimeJumpIdle, AnimationType::EnemyBigSlimeDeath)
    };
    Unit {
        pos,
        team,
        strategy: PickTargetStrategy::Close,
        health: cfg.merged_health,
        speed: cfg.merged_speed,
        target: Option::None,
        active_attack: Option::None,
        merge: MergeState::Lone,
        merged: true,
        inert: false,
        stun_ms: Option::None,
        dying: false,
        animation: Option::Some(spec_fresh_animation(idle)),
        current_clip: idle,
        idle_animation: idle,
        death_animation: death,
        victory_animation: idle,
        stun_vfx: false,
        merge_alert_vfx: false,
    }
}

/// The merged unit's single attack.
pub open spec fn spec_merged_attack(cfg: Config, team: Team) -> crate::components::Attack {
    crate::components::Attack {
        animation: if team is Player {
            AnimationType::BigSlimeAttack
        } else {
            AnimationType::EnemyBigSlimeAttack
        },
        hit_frame: cfg.merged_hit_frame,
        on_hit_effect: crate::components::AttackEffect {
            damage: cfg.merged_damage,
            knockback: 0,
            stun_chance_permille: 0,
            stun_duration_ms: 0,
        },
        range: cfg.merged_range,
    }
}

/// The pair of slots a merged unit came from: mutually walking partners,
/// neither dying, within the execute threshold, and the unit is exactly the
/// merged form of the first slot's team at the pair's midpoint.
pub open spec fn merged_from(w: World, cfg: Config, a: int, b: int, u: Unit) -> bool {
    &&& a != b
    &&& w.live(a)
    &&& w.live(b)
    &&& !w.u(a).dying
    &&& !w.u(b).dying
    &&& w.u(a).merge is Merging
    &&& w.u(b).merge is Merging
    &&& w.u(a).merge.spec_partner()->0.index as int == b
    &&& w.u(b).merge.spec_partner()->0.index as int == a
    &&& dist2(w.u(a).pos, w.u(b).pos) <= cfg.merge_execute_range * cfg.merge_execute_range
    &&& u == spec_merged_unit(cfg, w.u(a).team, midpoint(w.u(a).pos, w.u(b).pos))
}

impl Battle {
    /// Consume every pair of walking partners that has arrived: both
    /// originals despawn and exactly one merged unit spawns at their
    /// midpoint, so each merge removes exactly two units and adds exactly
    /// one. While the arena has room, no ready pair is left standing. The
    /// merged unit's health and damage strictly exceed what any unmerged
    /// unit can carry, hence either original's.
    #[verifier::rlimit(100)]
    pub fn execute_merge_system(&mut self) -> (merges: usize)
        requires
            old(self).wf(),
        ensures
            final(self).wf(),
            // Exactly one new slot per merge, and exactly two old units
            // consumed per merge.
            final(self).world.n() == old(self).world.n() + merges,
            final(self).world.live_count() + merges == old(self).world.live_count(),
            crate::world::count_live(
                final(self).world.units@.subrange(0, old(self).world.n()),
            ) + 2 * merges == old(self).world.live_count(),
            // A surviving old slot is untouched; a consumed one was ready,
            // and its partner was consumed with it.
            forall|k: int|
                0 <= k < old(self).world.n() ==> #[trigger] final(self).world.units@[k] == old(self).world.units@[k] || (execute_ready(old(self).world, old(self).config, k) && final(self).world.units@[k] is None && final(self).world.units@[old(self).world.u(k).merge.spec_partner()->0.index as int] is None),
            // Every new slot holds exactly the merged form of one consumed
            // pair — its team, at their midpoint — strictly stronger than
            // any unmerged unit can be.
            forall|k: int|
                old(self).world.n() <= k < final(self).world.n() ==> final(self).world.live(k)
                    && (#[trigger] final(self).world.u(k)).merged && final(self).world.u(k).health
                    == old(self).config.merged_health && final(self).world.u(k).health > old(self).config.tank_health && final(self).world.attacks@[k].0@.len() == 1 && final(self).world.attacks@[k].0@[0] == spec_merged_attack(old(self).config, final(self).world.u(k).team) && final(self).world.attacks@[k].0@[0].on_hit_effect.damage == old(self).config.merged_damage,
            forall|k: int|
                #![trigger final(self).world.u(k)]
                old(self).world.n() <= k < final(self).world.n() ==> exists|a: int, b: int|
                    #[trigger] merged_from(
                        old(self).world,
                        old(self).config,
                        a,
                        b,
                        final(self).world.u(k),
                    ) && final(self).world.units@[a] is None && final(self).world.units@[b]
                        is None,
            // Arena permitting, every ready pair is consumed.
            final(self).world.n() < MAX_UNITS ==> forall|k: int|
                0 <= k < old(self).world.n() && execute_ready(
                    old(self).world,
                    old(self).config,
                    k,
                ) ==> final(self).world.units@[k] is None,
            // Consumed originals were within the unmerged stat caps.
            forall|k: int|
                0 <= k < old(self).world.n() && old(self).world.live(k) && !(
                #[trigger] final(self).world.live(k)) ==> old(self).world.u(k).health <= old(self).config.tank_health,
            final(self).config == old(self).config,
            final(self).events == old(self).events,
            final(self).merge_timer_ms == old(self).merge_timer_ms,
            final(self).pre_game_ms_left == old(self).pre_game_ms_left,
            final(self).round_over == old(self).round_over,
            final(self).slimes_to_spawn == old(self).slimes_to_spawn,
            final(self).spawn_timer_ms == old(self).spawn_timer_ms,
    {
        let n = self.world.len();
        proof {
            assert(self.world.units@.subrange(0, n as int) =~= self.world.units@);
        }
        let mut merges: usize = 0;
        let mut i: usize = 0;
        while i < n
            invariant
                old(self).wf(),
                self.wf(),
                n == old(self).world.n(),
                self.world.n() == n + merges,
                merges <= i,
                i <= n,
                self.world.live_count() + merges == old(self).world.live_count(),
                crate::world::count_live(self.world.units@.subrange(0, n as int)) + 2 * merges
                    == old(self).world.live_count(),
                self.world.generations@.len() == self.world.units@.len(),
                forall|k: int|
                    0 <= k < n && (#[trigger] self.world.units@[k]) is Some
                        ==> self.world.generations@[k] == old(self).world.generations@[k],
                forall|k: int|
                    0 <= k < n ==> #[trigger] self.world.attacks@[k] == old(self).world.attacks@[k],
                forall|k: int|
                    0 <= k < n ==> #[trigger] self.world.units@[k] == old(self).world.units@[k]
                        || (execute_ready(old(self).world, old(self).config, k)
                        && self.world.units@[k] is None && self.world.units@[old(self).world.u(k).merge.spec_partner()->0.index as int] is None),
                forall|k: int|
                    n <= k < self.world.n() ==> self.world.live(k) && (#[trigger] self.world.u(k)).merged && self.world.u(k).health == old(self).config.merged_health
                        && self.world.attacks@[k].0@.len() == 1 && self.world.attacks@[k].0@[0]
                        == spec_merged_attack(old(self).config, self.world.u(k).team)
                        && self.world.attacks@[k].0@[0].on_hit_effect.damage
                        == old(self).config.merged_damage,
                forall|k: int|
                    #![trigger self.world.u(k)]
                    n <= k < self.world.n() ==> exists|a: int, b: int|
                        #[trigger] merged_from(
                            old(self).world,
                            old(self).config,
                            a,
                            b,
                            self.world.u(k),
                        ) && self.world.units@[a] is None && self.world.units@[b] is None,
                self.world.n() >= MAX_UNITS || forall|k: int|
                    0 <= k < i && execute_ready(old(self).world, old(self).config, k)
                        ==> self.world.units@[k] is None,
                forall|k: int|
                    0 <= k < n && old(self).world.live(k) && !(#[trigger] self.world.live(k))
                        ==> old(self).world.u(k).health <= old(self).config.tank_health,
                self.config == old(self).config,
                self.events == old(self).events,
                self.merge_timer_ms == old(self).merge_timer_ms,
                self.pre_game_ms_left == old(self).pre_game_ms_left,
                self.round_over == old(self).round_over,
                self.slimes_to_spawn == old(self).slimes_to_spawn,
                self.spawn_timer_ms == old(self).spawn_timer_ms,
            decreases n - i,
        {
            let ghost top = *self;
            let u = match self.world.units[i] {
                Option::Some(u) => u,
                Option::None => {
                    i = i + 1;
                    continue ;
                },
            };
            let (partner, _meet) = match u.merge {
                MergeState::Merging { partner, meeting_point } => (partner, meeting_point),
                _ => {
                    proof {
                        assert(self.world.units@[i as int] == old(self).world.units@[i as int]);
                        assert(!execute_ready(old(self).world, old(self).config, i as int));
                    }
                    i = i + 1;
                    continue ;
                },
            };
            if u.dying {
                proof {
                    assert(self.world.units@[i as int] == old(self).world.units@[i as int]);
                    assert(!execute_ready(old(self).world, old(self).config, i as int));
                }
                i = i + 1;
                continue ;
            }
            proof {
                // This slot still matches its pass-start contents: consumed
                // slots are empty, and new slots lie beyond `n`.
                assert(self.world.units@[i as int] == old(self).world.units@[i as int]);
                assert(old(self).world.live(i as int));
                assert(self.world.live(i as int));
                assert(self.world.u(i as int) == u);
                assert(unit_wf(u));
            }
            let pu = match self.world.get(partner) {
                Option::Some(pu) => pu,
                Option::None => {
                    proof {
                        // If the pair had been ready at pass start, its
                        // partner could only have vanished together with
                        // this very unit.
                        if execute_ready(old(self).world, old(self).config, i as int) {
                            assert(old(self).world.valid(partner));
                            if self.world.units@[partner.index as int] is Some {
                                assert(self.world.units@[partner.index as int] == old(self).world.units@[partner.index as int]);
                                assert(self.world.generations@[partner.index as int] == old(self).world.generations@[partner.index as int]);
                                assert(self.world.valid(partner));
                            } else {
                                assert(self.world.units@[partner.index as int] != old(self).world.units@[partner.index as int]);
                                assert(execute_ready(
                                    old(self).world,
                                    old(self).config,
                                    partner.index as int,
                                ) && self.world.units@[old(self).world.u(partner.index as int).merge.spec_partner()->0.index as int] is None);
                                assert(old(self).world.partner_linked(partner.index as int));
                                assert(old(self).world.u(partner.index as int).merge.spec_partner()->0.index as int == i as int);
                                assert(self.world.units@[i as int] is None);
                            }
                        }
                    }
                    i = i + 1;
                    continue ;
                },
            };
            let p_walking = match pu.merge {
                MergeState::Merging { .. } => true,
                _ => false,
            };
            if pu.dying || !p_walking {
                proof {
                    assert(self.world.valid(partner));
                    assert(self.world.units@[partner.index as int] == old(self).world.units@[partner.index as int]);
                    assert(old(self).world.u(partner.index as int) == pu);
                    assert(!execute_ready(old(self).world, old(self).config, i as int));
                }
                i = i + 1;
                continue ;
            }
            if self.world.len() >= crate::battle::MAX_UNITS {
                // Arena full: leave the pair walking; a later tick retries.
                i = i + 1;
                continue ;
            }
            proof {
                assert(self.world.valid(partner));
                assert(partner.index as int != i as int) by {
                    assert(self.world.partner_linked(i as int));
                }
                assert(self.world.units@[partner.index as int] == old(self).world.units@[partner.index as int]);
                assert(self.world.generations@[partner.index as int] == old(self).world.generations@[partner.index as int]);
                assert(old(self).world.valid(partner));
                assert(unit_wf(pu));
                crate::geom::lemma_abs_mul_bound(
                    self.config.merge_execute_range as int,
                    self.config.merge_execute_range as int,
                    MAX_COORD as int,
                    MAX_COORD as int,
                );
            }
            let d2 = dist2_exec(u.pos, pu.pos);
            if d2 > self.config.merge_execute_range * self.config.merge_execute_range {
                proof {
                    assert(old(self).world.u(partner.index as int) == pu);
                    assert(!execute_ready(old(self).world, old(self).config, i as int));
                }
                i = i + 1;
                continue ;
            }
            proof {
                assert(execute_ready(old(self).world, old(self).config, i as int));
            }
            // Merge: both originals despawn; one merged unit spawns at their
            // midpoint.
            let mid = midpoint_exec(u.pos, pu.pos);
            let team = u.team;
            proof {
                assert(!u.merged && !pu.merged) by {
                    assert(self.world.u(i as int).merged ==> self.world.u(i as int).merge
                        is Lone);
                    assert(self.world.u(partner.index as int).merged ==> self.world.u(partner.index as int).merge is Lone);
                }
            }
            let pidx = partner.index;
            self.world.despawn(i);
            proof {
                crate::world::lemma_count_live_update(
                    top.world.units@.subrange(0, n as int),
                    i as int,
                    Option::None,
                );
                assert(self.world.units@.subrange(0, n as int) =~= top.world.units@.subrange(
                    0,
                    n as int,
                ).update(i as int, Option::None));
            }
            let ghost after_first = *self;
            self.world.despawn(pidx);
            proof {
                crate::world::lemma_count_live_update(
                    after_first.world.units@.subrange(0, n as int),
                    pidx as int,
                    Option::None,
                );
                assert(self.world.units@.subrange(0, n as int)
                    =~= after_first.world.units@.subrange(0, n as int).update(
                    pidx as int,
                    Option::None,
                ));
            }
            let ghost after_despawns = *self;
            let (idle, attack_clip, death) = match team {
                Team::Player => (
                    AnimationType::BigSlimeJumpIdle,
                    AnimationType::BigSlimeAttack,
                    AnimationType::BigSlimeDeath,
                ),
                Team::Enemy => (
                    AnimationType::EnemyBigSlimeJumpIdle,
                    AnimationType::EnemyBigSlimeAttack,
                    AnimationType::EnemyBigSlimeDeath,
                ),
            };
            let anim = crate::components::fresh_animation(idle);
            let nu = Unit {
                pos: mid,
                team,
                strategy: PickTargetStrategy::Close,
                health: self.config.merged_health,
                speed: self.config.merged_speed,
                target: Option::None,
                active_attack: Option::None,
                merge: MergeState::Lone,
                merged: true,
                inert: false,
                stun_ms: Option::None,
                dying: false,
                animation: Option::Some(anim),
                current_clip: idle,
                idle_animation: idle,
                death_animation: death,
                victory_animation: idle,
                stun_vfx: false,
                merge_alert_vfx: false,
            };
            let mut moves: Vec<crate::components::Attack> = Vec::new();
            moves.push(
                crate::components::Attack {
                    animation: attack_clip,
                    hit_frame: self.config.merged_hit_frame,
                    on_hit_effect: crate::components::AttackEffect {
                        damage: self.config.merged_damage,
                        knockback: 0,
                        stun_chance_permille: 0,
                        stun_duration_ms: 0,
                    },
                    range: self.config.merged_range,
                },
            );
            let new_id = self.world.spawn(nu, crate::components::KnownAttacks(moves));
            merges = merges + 1;
            proof {
                assert(new_id.index as int == top.world.n());
                assert(self.world.u(new_id.index as int) == nu);
                assert(self.world.units@.subrange(0, n as int)
                    =~= after_despawns.world.units@.subrange(0, n as int));
                assert(self.world.attacks@[new_id.index as int].0@ =~= seq![
                    crate::components::Attack {
                        animation: attack_clip,
                        hit_frame: self.config.merged_hit_frame,
                        on_hit_effect: crate::components::AttackEffect {
                            damage: self.config.merged_damage,
                            knockback: 0,
                            stun_chance_permille: 0,
                            stun_duration_ms: 0,
                        },
                        range: self.config.merged_range,
                    },
                ]);
                assert forall|k: int|
                    n <= k < self.world.n() implies self.world.live(k) && (
                #[trigger] self.world.u(k)).merged && self.world.u(k).health == old(
                    self,
                ).config.merged_health && self.world.attacks@[k].0@.len() == 1
                    && self.world.attacks@[k].0@[0] == spec_merged_attack(
                    old(self).config,
                    self.world.u(k).team,
                ) && self.world.attacks@[k].0@[0].on_hit_effect.damage == old(
                    self,
                ).config.merged_damage by {
                    if k == new_id.index as int {
                        assert(self.world.u(k) == nu);
                        assert(self.world.attacks@[k].0@[0] == spec_merged_attack(
                            old(self).config,
                            team,
                        ));
                    } else {
                        assert(k < top.world.n());
                        assert(k != i as int && k != pidx as int);
                        assert(self.world.units@[k] == top.world.units@[k]);
                        assert(self.world.attacks@[k] == top.world.attacks@[k]);
                        assert(top.world.live(k) && top.world.u(k).merged);
                    }
                }
                // The pair this new unit came from.
                assert(old(self).world.partner_linked(i as int));
                assert(old(self).world.u(pidx as int).merge.spec_partner()->0 == old(self).world.id_of(i as int));
                assert(nu == spec_merged_unit(
                    old(self).config,
                    old(self).world.u(i as int).team,
                    midpoint(old(self).world.u(i as int).pos, old(self).world.u(pidx as int).pos),
                ));
                assert(merged_from(
                    old(self).world,
                    old(self).config,
                    i as int,
                    pidx as int,
                    nu,
                ));
                assert forall|k: int|
                    #![trigger self.world.u(k)]
                    n <= k < self.world.n() implies exists|a: int, b: int|
                        #[trigger] merged_from(
                            old(self).world,
                            old(self).config,
                            a,
                            b,
                            self.world.u(k),
                        ) && self.world.units@[a] is None && self.world.units@[b] is None by {
                    if k == new_id.index as int {
                        assert(merged_from(
                            old(self).world,
                            old(self).config,
                            i as int,
                            pidx as int,
                            self.world.u(k),
                        ) && self.world.units@[i as int] is None && self.world.units@[pidx as int] is None);
                    } else {
                        assert(k < top.world.n());
                        let (a, b) = choose|a: int, b: int|
                            #[trigger] merged_from(
                                old(self).world,
                                old(self).config,
                                a,
                                b,
                                top.world.u(k),
                            ) && top.world.units@[a] is None && top.world.units@[b] is None;
                        assert(self.world.units@[k] == top.world.units@[k]);
                        assert(a != i as int && a != pidx as int);
                        assert(b != i as int && b != pidx as int);
                        assert(self.world.units@[a] is None && self.world.units@[b] is None);
                        assert(merged_from(
                            old(self).world,
                            old(self).config,
                            a,
                            b,
                            self.world.u(k),
                        ));
                    }
                }
                assert forall|k: int|
                    0 <= k < n implies #[trigger] self.world.units@[k] == old(self).world.units@[k] || (execute_ready(old(self).world, old(self).config, k)
                    && self.world.units@[k] is None && self.world.units@[old(self).world.u(k).merge.spec_partner()->0.index as int] is None) by {
                    if k == i as int {
                        assert(old(self).world.u(k).merge.spec_partner()->0 == partner);
                        assert(self.world.units@[partner.index as int] is None);
                        assert(self.world.units@[k] is None);
                    } else if k == pidx as int {
                        assert(execute_ready(old(self).world, old(self).config, k)) by {
                            assert(old(self).world.u(pidx as int).merge.spec_partner()->0
                                == old(self).world.id_of(i as int));
                            crate::geom::lemma_dist2_symmetric(u.pos, pu.pos);
                        }
                        assert(old(self).world.u(k).merge.spec_partner()->0.index as int
                            == i as int);
                        assert(self.world.units@[k] is None);
                        assert(self.world.units@[i as int] is None);
                    }
                }
                assert forall|k: int|
                    0 <= k < n && old(self).world.live(k) && !(#[trigger] self.world.live(k))
                        implies old(self).world.u(k).health <= old(self).config.tank_health by {
                    if k == i as int || k == pidx as int {
                        assert(!old(self).world.u(k).merged) by {
                            assert(old(self).world.u(k).merged ==> old(self).world.u(k).merge
                                is Lone);
                        }
                    }
                }
                assert(self.stat_caps()) by {
                    assert forall|k: int|
                        self.world.live(k) && !(#[trigger] self.world.u(k)).merged implies
                        self.world.u(k).health <= self.config.tank_health && crate::battle::all_damage_le(
                        self.world.attacks@[k],
                        self.config.base_damage,
                    ) by {
                        if k < n {
                            assert(self.world.units@[k] == old(self).world.units@[k]);
                            assert(old(self).world.live(k) && !old(self).world.u(k).merged);
                            assert(self.world.attacks@[k] == old(self).world.attacks@[k]);
                        } else if k == new_id.index as int {
                            assert(self.world.u(k) == nu);
                        } else {
                            assert(k < top.world.n());
                            assert(self.world.units@[k] == top.world.units@[k]);
                            assert(top.world.live(k) && top.world.u(k).merged);
                        }
                    }
                }
            }
            i = i + 1;
        }
        merges
    }
}

} // verus!

