//! The attack lifecycle: cooldown cleanup, selection, hit-frame sync, and
//! effect resolution.
//!
//! A unit is "available to attack" exactly when it carries no in-flight
//! attack. Selection commits an eligible unit to a random attack whose range
//! covers the current distance to its target and switches it to that
//! attack's clip. The hit lands when the clip's frame index reaches the
//! attack's declared hit frame — visual timing drives logic timing — and the
//! `hit_triggered` flag keeps it from landing twice. When the clip finishes,
//! the attack is removed and the unit returns to its own idle clip.

use vstd::prelude::*;

verus! {

use crate::battle::{Battle, lemma_stat_caps_preserved};
use crate::components::{
    ActiveAttack, AnimationState, Attack, AttackEffect, GameEvent, KnownAttacks, OnHitEvent, Unit,
    UnitId, attack_wf, lemma_fresh_animation_wf, spec_fresh_animation, unit_wf,
};
use crate::config::Config;
use crate::geom::{MAX_COORD, MAX_STEP, Pos, dist2, dist2_exec, displaced, offset_toward};
use crate::rng::{rand_index, roll_permille};
use crate::world::{World, lemma_wf_preserved};

/// A finished attack clip on a unit the death pipeline and stun gate leave
/// alone: the attack is over.
pub open spec fn attack_finished(u: Unit) -> bool {
    &&& u.active_attack is Some
    &&& !u.dying
    &&& !u.inert
    &&& u.animation is Some
    &&& u.animation->0.finished
}

/// Cooldown cleanup applied to one slot: the in-flight attack is removed and
/// the unit returns to its own idle clip, so it can attack again this very
/// tick.
pub open spec fn attack_cleaned(s: Option<Unit>) -> Option<Unit> {
    match s {
        Option::None => Option::None,
        Option::Some(u) => Option::Some(
            if attack_finished(u) {
                Unit {
                    active_attack: Option::None,
                    current_clip: u.idle_animation,
                    animation: Option::Some(spec_fresh_animation(u.idle_animation)),
                    ..u
                }
            } else {
                u
            },
        ),
    }
}

/// One unit's cleanup step, exactly as `attack_cleaned` specifies.
fn clean_attack_unit(u: Unit) -> (r: Unit)
    ensures
        Option::Some(r) == attack_cleaned(Option::Some(u)),
{
    let finished = match (u.active_attack, u.animation) {
        (Option::Some(_), Option::Some(a)) => !u.dying && !u.inert && a.finished,
        _ => false,
    };
    if finished {
        let anim = crate::components::fresh_animation(u.idle_animation);
        Unit {
            active_attack: Option::None,
            current_clip: u.idle_animation,
            animation: Option::Some(anim),
            ..u
        }
    } else {
        u
    }
}

impl Battle {
    /// Remove every finished attack and return its owner to its idle clip.
    /// Runs before selection, so a just-freed unit can re-attack in the same
    /// tick.
    pub fn attack_cleanup_system(&mut self)
        requires
            old(self).wf(),
        ensures
            final(self).wf(),
            final(self).world.n() == old(self).world.n(),
            final(self).world.generations@ == old(self).world.generations@,
            final(self).world.attacks@ == old(self).world.attacks@,
            forall|i: int|
                0 <= i < old(self).world.n() ==> #[trigger] final(self).world.units@[i]
                    == attack_cleaned(old(self).world.units@[i]),
            final(self).config == old(self).config,
            final(self).events == old(self).events,
            final(self).merge_timer_ms == old(self).merge_timer_ms,
            final(self).pre_game_ms_left == old(self).pre_game_ms_left,
            final(self).round_over == old(self).round_over,
            final(self).slimes_to_spawn == old(self).slimes_to_spawn,
            final(self).spawn_timer_ms == old(self).spawn_timer_ms,
    {
        let n = self.world.len();
        let mut i: usize = 0;
        while i < n
            invariant
                old(self).wf(),
                n == old(self).world.n(),
                self.world.units@.len() == n,
                self.world.generations@ == old(self).world.generations@,
                self.world.attacks@ == old(self).world.attacks@,
                forall|j: int|
                    i <= j < n ==> #[trigger] self.world.units@[j] == old(self).world.units@[j],
                forall|j: int|
                    0 <= j < i ==> #[trigger] self.world.units@[j] == attack_cleaned(
                        old(self).world.units@[j],
                    ),
                self.config == old(self).config,
                self.events == old(self).events,
                self.merge_timer_ms == old(self).merge_timer_ms,
                self.pre_game_ms_left == old(self).pre_game_ms_left,
                self.round_over == old(self).round_over,
                self.slimes_to_spawn == old(self).slimes_to_spawn,
                self.spawn_timer_ms == old(self).spawn_timer_ms,
            decreases n - i,
        {
            let slot = self.world.units[i];
            match slot {
                Option::Some(u) => {
                    let nu = clean_attack_unit(u);
                    self.world.units.set(i, Option::Some(nu));
                },
                Option::None => {},
            }
            i = i + 1;
        }
        proof {
            assert forall|i: int| final(self).world.live(i) <==> old(self).world.live(i) by {
                if 0 <= i < n {
                    assert(final(self).world.units@[i] == attack_cleaned(
                        old(self).world.units@[i],
                    ));
                }
            }
            assert forall|i: int| final(self).world.live(i) implies unit_wf(final(self).world.u(i))
                && final(self).world.u(i).merge == old(self).world.u(i).merge && final(self).world.u(i).dying == old(self).world.u(i).dying && final(self).world.u(i).health == old(self).world.u(i).health && final(self).world.u(i).merged == old(self).world.u(i).merged by {
                assert(final(self).world.units@[i] == attack_cleaned(old(self).world.units@[i]));
                assert(old(self).world.live(i));
                assert(unit_wf(old(self).world.u(i)));
                lemma_fresh_animation_wf(old(self).world.u(i).idle_animation);
            }
            lemma_wf_preserved(old(self).world, final(self).world);
            lemma_stat_caps_preserved(*old(self), *final(self));
        }
    }
}

/// Free to pick a new attack: idle, ungated, and aimed at someone.
pub open spec fn attack_eligible(u: Unit) -> bool {
    &&& u.active_attack is None
    &&& !u.dying
    &&& !u.inert
    &&& u.merge is Lone
    &&& u.target is Some
}

/// The attack's reach covers a squared distance.
pub open spec fn attack_in_range(a: Attack, d2: int) -> bool {
    d2 <= a.range * a.range
}

/// Some known attack reaches the unit's target.
pub open spec fn some_attack_in_range(w: World, i: int) -> bool
    recommends
        w.live(i),
        w.u(i).target is Some,
        w.valid(w.u(i).target->0),
{
    exists|k: int|
        0 <= k < w.attacks@[i].0@.len() && attack_in_range(
            #[trigger] w.attacks@[i].0@[k],
            dist2(w.u(i).pos, w.u(w.u(i).target->0.index as int).pos),
        )
}

/// What selection may do to one slot: nothing unless the unit is eligible,
/// its target alive and some known attack in range — and then exactly a
/// commitment to one in-range known attack, clip switched, hit not yet
/// fired.
pub open spec fn pick_ok(w: World, i: int, s: Option<Unit>) -> bool
    recommends
        0 <= i < w.n(),
{
    match w.units@[i] {
        Option::None => s is None,
        Option::Some(u) => {
            if attack_eligible(u) && w.valid(u.target->0) && some_attack_in_range(w, i) {
                exists|k: int|
                    {
                        &&& 0 <= k < w.attacks@[i].0@.len()
                        &&& attack_in_range(
                            #[trigger] w.attacks@[i].0@[k],
                            dist2(w.u(i).pos, w.u(u.target->0.index as int).pos),
                        )
                        &&& s == Option::Some(
                            Unit {
                                active_attack: Option::Some(
                                    ActiveAttack {
                                        attack: w.attacks@[i].0@[k],
                                        target: u.target->0,
                                        hit_triggered: false,
                                    },
                                ),
                                current_clip: w.attacks@[i].0@[k].animation,
                                animation: Option::Some(
                                    spec_fresh_animation(w.attacks@[i].0@[k].animation),
                                ),
                                ..u
                            },
                        )
                    }
            } else {
                s == Option::Some(u)
            }
        },
    }
}

/// Indices of the known attacks whose range covers `d2`.
fn collect_in_range(ka: &KnownAttacks, d2: i64) -> (c: Vec<usize>)
    requires
        crate::components::known_attacks_wf(*ka),
        0 <= d2,
    ensures
        forall|k: int|
            0 <= k < c@.len() ==> (#[trigger] c@[k]) < ka.0@.len() && attack_in_range(
                ka.0@[c@[k] as int],
                d2 as int,
            ),
        c@.len() > 0 <==> exists|k: int|
            0 <= k < ka.0@.len() && attack_in_range(#[trigger] ka.0@[k], d2 as int),
        c@.len() <= ka.0@.len(),
{
    let n = ka.0.len();
    let mut c: Vec<usize> = Vec::new();
    let mut k: usize = 0;
    while k < n
        invariant
            crate::components::known_attacks_wf(*ka),
            0 <= d2,
            n == ka.0@.len(),
            k <= n,
            forall|l: int|
                0 <= l < c@.len() ==> (#[trigger] c@[l]) < ka.0@.len() && attack_in_range(
                    ka.0@[c@[l] as int],
                    d2 as int,
                ),
            c@.len() > 0 <==> exists|l: int|
                0 <= l < k && attack_in_range(#[trigger] ka.0@[l], d2 as int),
            c@.len() <= k,
        decreases n - k,
    {
        let a = ka.0[k];
        proof {
            assert(attack_wf(ka.0@[k as int]));
            crate::geom::lemma_abs_mul_bound(
                a.range as int,
                a.range as int,
                MAX_COORD as int,
                MAX_COORD as int,
            );
        }
        if d2 <= a.range * a.range {
            c.push(k);
        }
        k = k + 1;
    }
    c
}

impl Battle {
    /// Commit every eligible unit whose target is in reach of at least one
    /// known attack to a randomly chosen in-range attack, and switch it to
    /// that attack's clip.
    #[verifier::rlimit(100)]
    pub fn pick_attack_system(&mut self)
        requires
            old(self).wf(),
        ensures
            final(self).wf(),
            final(self).world.n() == old(self).world.n(),
            final(self).world.generations@ == old(self).world.generations@,
            final(self).world.attacks@ == old(self).world.attacks@,
            forall|i: int|
                0 <= i < old(self).world.n() ==> pick_ok(
                    old(self).world,
                    i,
                    #[trigger] final(self).world.units@[i],
                ),
            // An inert unit never enters an attack here.
            forall|i: int|
                old(self).world.live(i) && (#[trigger] old(self).world.u(i)).inert
                    ==> final(self).world.units@[i] == old(self).world.units@[i],
            final(self).config == old(self).config,
            final(self).events == old(self).events,
            final(self).merge_timer_ms == old(self).merge_timer_ms,
            final(self).pre_game_ms_left == old(self).pre_game_ms_left,
            final(self).round_over == old(self).round_over,
            final(self).slimes_to_spawn == old(self).slimes_to_spawn,
            final(self).spawn_timer_ms == old(self).spawn_timer_ms,
    {
        let n = self.world.len();
        let mut i: usize = 0;
        while i < n
            invariant
                old(self).wf(),
                n == old(self).world.n(),
                self.world.units@.len() == n,
                self.world.generations@ == old(self).world.generations@,
                self.world.attacks@ == old(self).world.attacks@,
                forall|j: int|
                    i <= j < n ==> #[trigger] self.world.units@[j] == old(self).world.units@[j],
                forall|j: int|
                    0 <= j < i ==> pick_ok(old(self).world, j, #[trigger] self.world.units@[j]),
                forall|j: int|
                    old(self).world.live(j) && (#[trigger] old(self).world.u(j)).inert
                        ==> self.world.units@[j] == old(self).world.units@[j],
                // positions never change in this pass
                forall|j: int|
                    old(self).world.live(j) ==> (#[trigger] self.world.units@[j]) is Some
                        && self.world.units@[j]->0.pos == old(self).world.u(j).pos,
                self.config == old(self).config,
                self.events == old(self).events,
                self.merge_timer_ms == old(self).merge_timer_ms,
                self.pre_game_ms_left == old(self).pre_game_ms_left,
                self.round_over == old(self).round_over,
                self.slimes_to_spawn == old(self).slimes_to_spawn,
                self.spawn_timer_ms == old(self).spawn_timer_ms,
            decreases n - i,
        {
            let slot = self.world.units[i];
            match slot {
                Option::Some(u) => {
                    proof {
                        assert(old(self).world.live(i as int));
                        assert(old(self).world.u(i as int) == u);
                        assert(unit_wf(u));
                    }
                    let eligible = match u.active_attack {
                        Option::None => !u.dying && !u.inert && u.merge.is_lone(),
                        Option::Some(_) => false,
                    };
                    if eligible {
                        match u.target {
                            Option::Some(t) => {
                                let tslot = self.world.get(t);
                                match tslot {
                                    Option::Some(tu) => {
                                        proof {
                                            assert(old(self).world.valid(t) == self.world.valid(t));
                                            assert(old(self).world.live(t.index as int));
                                            assert(tu.pos == old(self).world.u(t.index as int).pos);
                                            assert(unit_wf(old(self).world.u(t.index as int)));
                                            assert(crate::components::known_attacks_wf(
                                                old(self).world.attacks@[i as int],
                                            ));
                                        }
                                        let d2 = dist2_exec(u.pos, tu.pos);
                                        let c = collect_in_range(&self.world.attacks[i], d2);
                                        if c.len() > 0 {
                                            let pick = rand_index(c.len());
                                            let k = c[pick];
                                            let a = self.world.attacks[i].0[k];
                                            let anim = crate::components::fresh_animation(
                                                a.animation,
                                            );
                                            self.world.units.set(
                                                i,
                                                Option::Some(
                                                    Unit {
                                                        active_attack: Option::Some(
                                                            ActiveAttack {
                                                                attack: a,
                                                                target: t,
                                                                hit_triggered: false,
                                                            },
                                                        ),
                                                        current_clip: a.animation,
                                                        animation: Option::Some(anim),
                                                        ..u
                                                    },
                                                ),
                                            );
                                            proof {
                                                assert(some_attack_in_range(
                                                    old(self).world,
                                                    i as int,
                                                ));
                                                assert(pick_ok(
                                                    old(self).world,
                                                    i as int,
                                                    self.world.units@[i as int],
                                                ));
                                            }
                                        } else {
                                            proof {
                                                assert(!some_attack_in_range(
                                                    old(self).world,
                                                    i as int,
                                                ));
                                            }
                                        }
                                    },
                                    Option::None => {
                                        proof {
                                            assert(!old(self).world.valid(t));
                                        }
                                    },
                                }
                            },
                            Option::None => {},
                        }
                    }
                },
                Option::None => {},
            }
            i = i + 1;
        }
        proof {
            assert forall|i: int| final(self).world.live(i) <==> old(self).world.live(i) by {
                if 0 <= i < n {
                    assert(pick_ok(old(self).world, i, final(self).world.units@[i]));
                }
            }
            assert forall|i: int| final(self).world.live(i) implies unit_wf(final(self).world.u(i))
                && final(self).world.u(i).merge == old(self).world.u(i).merge && final(self).world.u(i).dying == old(self).world.u(i).dying && final(self).world.u(i).health == old(self).world.u(i).health && final(self).world.u(i).merged == old(self).world.u(i).merged && (
            final(self).world.u(i).target is Some ==> final(self).world.u(i).target == old(self).world.u(i).target) by {
                assert(pick_ok(old(self).world, i, final(self).world.units@[i]));
                assert(old(self).world.live(i));
                assert(unit_wf(old(self).world.u(i)));
                assert(crate::components::known_attacks_wf(old(self).world.attacks@[i]));
                if final(self).world.u(i).active_attack is Some && old(self).world.u(i).active_attack is None {
                    lemma_fresh_animation_wf(final(self).world.u(i).current_clip);
                }
            }
            assert forall|i: int|
                final(self).world.live(i) && #[trigger] final(self).world.u(i).active_attack
                    is Some implies crate::world::handle_in_range(
                final(self).world.u(i).active_attack->0.target,
                final(self).world.n(),
            ) && final(self).world.u(i).merge is Lone by {
                assert(pick_ok(old(self).world, i, final(self).world.units@[i]));
                assert(old(self).world.live(i));
                if old(self).world.u(i).active_attack is Some {
                    assert(crate::world::unit_handles_in_range(
                        old(self).world.u(i),
                        old(self).world.n(),
                    ));
                    assert(crate::components::attack_merge_exclusive(old(self).world.u(i)));
                } else {
                    assert(crate::world::unit_handles_in_range(
                        old(self).world.u(i),
                        old(self).world.n(),
                    ));
                }
            }
            assert forall|i: int| final(self).world.live(i) implies crate::world::unit_handles_in_range(
                final(self).world.u(i),
                final(self).world.n(),
            ) by {
                assert(pick_ok(old(self).world, i, final(self).world.units@[i]));
                assert(old(self).world.live(i));
                assert(crate::world::unit_handles_in_range(
                    old(self).world.u(i),
                    old(self).world.n(),
                ));
            }
            assert forall|i: int| final(self).world.live(i) implies crate::components::attack_merge_exclusive(
                final(self).world.u(i),
            ) by {
                assert(pick_ok(old(self).world, i, final(self).world.units@[i]));
                assert(old(self).world.live(i));
                assert(crate::components::attack_merge_exclusive(old(self).world.u(i)));
            }
            assert forall|i: int| final(self).world.live(i) implies crate::components::known_attacks_wf(
                final(self).world.attacks@[i],
            ) by {
                assert(old(self).world.live(i));
                assert(crate::components::known_attacks_wf(old(self).world.attacks@[i]));
            }
            assert forall|i: int| #![trigger final(self).world.u(i)] final(self).world.live(i) implies final(self).world.partner_linked(i) by {
                assert(pick_ok(old(self).world, i, final(self).world.units@[i]));
                assert(old(self).world.live(i));
                assert(old(self).world.partner_linked(i));
                let po = old(self).world.u(i).merge.spec_partner();
                if po is Some {
                    let p = po->0;
                    assert(crate::world::unit_handles_in_range(
                        old(self).world.u(i),
                        old(self).world.n(),
                    ));
                    assert(final(self).world.live(p.index as int) == old(self).world.live(p.index as int));
                    assert(final(self).world.valid(p) == old(self).world.valid(p));
                    if old(self).world.valid(p) {
                        assert(pick_ok(
                            old(self).world,
                            p.index as int,
                            final(self).world.units@[p.index as int],
                        ));
                        assert(final(self).world.u(p.index as int).merge == old(self).world.u(p.index as int).merge);
                        assert(final(self).world.u(p.index as int).dying == old(self).world.u(p.index as int).dying);
                    }
                    assert(final(self).world.id_of(i) == old(self).world.id_of(i));
                }
            }
            lemma_stat_caps_preserved(*old(self), *final(self));
        }
    }
}

/// The hit condition: an in-flight attack, on a unit the death pipeline
/// leaves alone, whose clip has reached the attack's hit frame, and whose
/// hit has not fired yet.
pub open spec fn hit_fires(s: Option<Unit>) -> bool {
    match s {
        Option::None => false,
        Option::Some(u) => match (u.active_attack, u.animation) {
            (Option::Some(aa), Option::Some(an)) => {
                &&& !u.dying
                &&& an.frame_index >= aa.attack.hit_frame
                &&& !aa.hit_triggered
            },
            _ => false,
        },
    }
}

/// The hit-frame pass applied to one slot: a firing attack has its
/// `hit_triggered` flag set so it can never fire again.
pub open spec fn hit_checked(s: Option<Unit>) -> Option<Unit> {
    if hit_fires(s) {
        let u = s->0;
        Option::Some(
            Unit {
                active_attack: Option::Some(
                    ActiveAttack { hit_triggered: true, ..u.active_attack->0 },
                ),
                ..u
            },
        )
    } else {
        s
    }
}

/// The event a firing slot emits.
pub open spec fn hit_event_of(w: World, i: int) -> OnHitEvent
    recommends
        w.live(i),
        w.u(i).active_attack is Some,
{
    OnHitEvent {
        attacker: w.id_of(i),
        target: w.u(i).active_attack->0.target,
        effect: w.u(i).active_attack->0.attack.on_hit_effect,
    }
}

/// All hit events of slots below `i`, in slot order.
pub open spec fn hits_upto(w: World, i: int) -> Seq<OnHitEvent>
    decreases i,
{
    if i <= 0 {
        Seq::empty()
    } else {
        hits_upto(w, i - 1) + if hit_fires(w.units@[i - 1]) {
            seq![hit_event_of(w, i - 1)]
        } else {
            Seq::empty()
        }
    }
}

/// Every collected hit event carries a well-formed effect and a live
/// attacker.
pub proof fn lemma_hits_upto_wf(w: World, i: int)
    requires
        w.wf(),
        i <= w.n() <= usize::MAX as int,
    ensures
        forall|k: int|
            0 <= k < hits_upto(w, i).len() ==> {
                &&& 0 <= (#[trigger] hits_upto(w, i)[k]).effect.knockback <= MAX_STEP
                &&& 0 <= hits_upto(w, i)[k].effect.damage
                &&& hits_upto(w, i)[k].effect.stun_chance_permille <= 1000
                &&& w.valid(hits_upto(w, i)[k].attacker)
            },
    decreases i,
{
    if i <= 0 {
    } else {
        lemma_hits_upto_wf(w, i - 1);
        if hit_fires(w.units@[i - 1]) {
            assert(w.live(i - 1));
            assert(unit_wf(w.u(i - 1)));
            assert(hits_upto(w, i) =~= hits_upto(w, i - 1).push(hit_event_of(w, i - 1)));
        } else {
            assert(hits_upto(w, i) =~= hits_upto(w, i - 1));
        }
        assert forall|k: int| 0 <= k < hits_upto(w, i).len() implies {
            &&& 0 <= (#[trigger] hits_upto(w, i)[k]).effect.knockback <= MAX_STEP
            &&& 0 <= hits_upto(w, i)[k].effect.damage
            &&& hits_upto(w, i)[k].effect.stun_chance_permille <= 1000
            &&& w.valid(hits_upto(w, i)[k].attacker)
        } by {
            let pre = hits_upto(w, i - 1);
            if k < pre.len() {
                assert(0 <= pre[k].effect.knockback <= MAX_STEP && 0 <= pre[k].effect.damage
                    && pre[k].effect.stun_chance_permille <= 1000 && w.valid(pre[k].attacker));
                assert(hits_upto(w, i)[k] == pre[k]);
            } else {
                assert(hit_fires(w.units@[i - 1]));
                assert(hits_upto(w, i)[k] == hit_event_of(w, i - 1));
                assert(w.live(i - 1));
                assert(unit_wf(w.u(i - 1)));
                assert(crate::components::attack_wf(w.u(i - 1).active_attack->0.attack));
                assert(w.id_of(i - 1).index as int == i - 1);
                assert(w.valid(w.id_of(i - 1)));
            }
        }
    }
}

impl Battle {
    /// Compare every in-flight attack's clip against its declared hit frame;
    /// each attack that has reached it fires exactly one hit event, guarded
    /// by the `hit_triggered` flag.
    pub fn hit_frame_check_system(&mut self) -> (hits: Vec<OnHitEvent>)
        requires
            old(self).wf(),
        ensures
            final(self).wf(),
            final(self).world.n() == old(self).world.n(),
            final(self).world.generations@ == old(self).world.generations@,
            final(self).world.attacks@ == old(self).world.attacks@,
            forall|i: int|
                0 <= i < old(self).world.n() ==> #[trigger] final(self).world.units@[i]
                    == hit_checked(old(self).world.units@[i]),
            hits@ == hits_upto(old(self).world, old(self).world.n()),
            final(self).config == old(self).config,
            final(self).events == old(self).events,
            final(self).merge_timer_ms == old(self).merge_timer_ms,
            final(self).pre_game_ms_left == old(self).pre_game_ms_left,
            final(self).round_over == old(self).round_over,
            final(self).slimes_to_spawn == old(self).slimes_to_spawn,
            final(self).spawn_timer_ms == old(self).spawn_timer_ms,
    {
        let n = self.world.len();
        let mut hits: Vec<OnHitEvent> = Vec::new();
        let mut i: usize = 0;
        while i < n
            invariant
                old(self).wf(),
                n == old(self).world.n(),
                self.world.units@.len() == n,
                self.world.generations@ == old(self).world.generations@,
                self.world.attacks@ == old(self).world.attacks@,
                forall|j: int|
                    i <= j < n ==> #[trigger] self.world.units@[j] == old(self).world.units@[j],
                i <= n,
                forall|j: int|
                    0 <= j < i ==> #[trigger] self.world.units@[j] == hit_checked(
                        old(self).world.units@[j],
                    ),
                hits@ == hits_upto(old(self).world, i as int),
                self.config == old(self).config,
                self.events == old(self).events,
                self.merge_timer_ms == old(self).merge_timer_ms,
                self.pre_game_ms_left == old(self).pre_game_ms_left,
                self.round_over == old(self).round_over,
                self.slimes_to_spawn == old(self).slimes_to_spawn,
                self.spawn_timer_ms == old(self).spawn_timer_ms,
            decreases n - i,
        {
            let slot = self.world.units[i];
            match slot {
                Option::Some(u) => {
                    match (u.active_attack, u.animation) {
                        (Option::Some(aa), Option::Some(an)) => {
                            if !u.dying && an.frame_index >= aa.attack.hit_frame
                                && !aa.hit_triggered {
                                let gen = self.world.generations[i];
                                hits.push(
                                    OnHitEvent {
                                        attacker: UnitId { index: i, generation: gen },
                                        target: aa.target,
                                        effect: aa.attack.on_hit_effect,
                                    },
                                );
                                self.world.units.set(
                                    i,
                                    Option::Some(
                                        Unit {
                                            active_attack: Option::Some(
                                                ActiveAttack { hit_triggered: true, ..aa },
                                            ),
                                            ..u
                                        },
                                    ),
                                );
                                proof {
                                    assert(hit_fires(old(self).world.units@[i as int]));
                                    assert(hits@ =~= hits_upto(old(self).world, i as int + 1));
                                }
                            } else {
                                proof {
                                    assert(!hit_fires(old(self).world.units@[i as int]));
                                    assert(hits@ =~= hits_upto(old(self).world, i as int + 1));
                                }
                            }
                        },
                        _ => {
                            proof {
                                assert(!hit_fires(old(self).world.units@[i as int]));
                                assert(hits@ =~= hits_upto(old(self).world, i as int + 1));
                            }
                        },
                    }
                },
                Option::None => {
                    proof {
                        assert(!hit_fires(old(self).world.units@[i as int]));
                        assert(hits@ =~= hits_upto(old(self).world, i as int + 1));
                    }
                },
            }
            i = i + 1;
        }
        proof {
            assert forall|i: int| final(self).world.live(i) <==> old(self).world.live(i) by {
                if 0 <= i < n {
                    assert(final(self).world.units@[i] == hit_checked(old(self).world.units@[i]));
                }
            }
            assert forall|i: int| final(self).world.live(i) implies unit_wf(final(self).world.u(i))
                && final(self).world.u(i).merge == old(self).world.u(i).merge && final(self).world.u(i).dying == old(self).world.u(i).dying && final(self).world.u(i).health == old(self).world.u(i).health && final(self).world.u(i).merged == old(self).world.u(i).merged && (final(self).world.u(i).target is Some ==> final(self).world.u(i).target == old(self).world.u(i).target) && (final(self).world.u(i).active_attack is Some ==> old(self).world.u(i).active_attack is Some && final(self).world.u(i).active_attack->0.attack == old(self).world.u(i).active_attack->0.attack && final(self).world.u(i).active_attack->0.target == old(self).world.u(i).active_attack->0.target) by {
                assert(final(self).world.units@[i] == hit_checked(old(self).world.units@[i]));
                assert(old(self).world.live(i));
                assert(unit_wf(old(self).world.u(i)));
            }
            lemma_wf_preserved(old(self).world, final(self).world);
            lemma_stat_caps_preserved(*old(self), *final(self));
        }
        hits
    }
}

/// A hit that cannot be applied: its attacker or its target has despawned,
/// or the target carries no animation state (a telegraphing unit's is
/// removed). A recoverable no-op, never an error.
pub open spec fn hit_blocked(w: World, hit: OnHitEvent) -> bool {
    ||| !w.valid(hit.attacker)
    ||| !w.valid(hit.target)
    ||| w.u(hit.target.index as int).animation is None
}

/// The health after step one of effect resolution: damage lands only on a
/// target that still has positive health, and never below zero.
pub open spec fn hit_new_health(t: Unit, damage: i32) -> i32 {
    if t.health > 0 {
        if t.health > damage {
            (t.health - damage) as i32
        } else {
            0
        }
    } else {
        t.health
    }
}

/// Whether the knockback displacement applies: a positive knockback and a
/// usable direction.
pub open spec fn knockback_applies(cfg: Config, t: Unit, apos: Pos, e: AttackEffect) -> bool {
    e.knockback > 0 && dist2(apos, t.pos) > cfg.knockback_epsilon * cfg.knockback_epsilon
}

/// The target's position after the knockback step: an instant displacement
/// of the configured magnitude along the attacker-to-target direction —
/// a function of the two positions and the configured knockback alone,
/// independent of any frame delta.
pub open spec fn hit_new_pos(cfg: Config, t: Unit, apos: Pos, e: AttackEffect) -> Pos {
    if knockback_applies(cfg, t, apos, e) {
        displaced(t.pos, offset_toward(apos, t.pos, e.knockback as int))
    } else {
        t.pos
    }
}

/// Effect resolution applied to the target: damage, knockback, and — only
/// when the stun roll succeeded — the inert gate, its countdown, loss of the
/// in-flight attack, a frozen animation and the stun visual.
pub open spec fn hit_target_outcome(cfg: Config, t: Unit, apos: Pos, e: AttackEffect, stun: bool) -> Unit
    recommends
        t.animation is Some,
{
    let base = Unit { health: hit_new_health(t, e.damage), pos: hit_new_pos(cfg, t, apos, e), ..t };
    if stun {
        Unit {
            inert: true,
            stun_ms: Option::Some(e.stun_duration_ms),
            active_attack: Option::None,
            stun_vfx: true,
            animation: Option::Some(AnimationState { finished: true, ..t.animation->0 }),
            ..base
        }
    } else {
        base
    }
}

/// The notifications one applied hit emits, in order.
pub open spec fn hit_events_of(hit: OnHitEvent, t: Unit, stun: bool) -> Seq<GameEvent> {
    (if t.health > 0 {
        seq![GameEvent::Damaged { entity: hit.target, amount: hit.effect.damage }]
    } else {
        Seq::empty()
    }) + (if stun {
        seq![GameEvent::Stunned { entity: hit.target }]
    } else {
        Seq::empty()
    })
}

impl Battle {
    /// Apply one resolved hit: damage if the target still lives, an instant
    /// knockback away from the attacker, and — only if the target survived —
    /// a roll against the stun chance. A dangling attacker or target, or a
    /// target without animation state, makes this a no-op. Whatever the
    /// roll, the result is one of the two specified outcomes; a zero chance
    /// never stuns, a certain chance on a surviving target always does.
    #[verifier::rlimit(100)]
    pub fn on_hit_observer(&mut self, hit: OnHitEvent)
        requires
            old(self).wf(),
            0 <= hit.effect.knockback <= MAX_STEP,
            0 <= hit.effect.damage,
            hit.effect.stun_chance_permille <= 1000,
        ensures
            final(self).wf(),
            final(self).world.n() == old(self).world.n(),
            final(self).world.generations@ == old(self).world.generations@,
            final(self).world.attacks@ == old(self).world.attacks@,
            hit_blocked(old(self).world, hit) ==> final(self).world.units@ == old(
                self,
            ).world.units@ && final(self).events@ == old(self).events@,
            !hit_blocked(old(self).world, hit) ==> exists|stun: bool|
                {
                    &&& final(self).world.units@ == old(self).world.units@.update(
                        hit.target.index as int,
                        Option::Some(
                            #[trigger] hit_target_outcome(
                                old(self).config,
                                old(self).world.u(hit.target.index as int),
                                old(self).world.u(hit.attacker.index as int).pos,
                                hit.effect,
                                stun,
                            ),
                        ),
                    )
                    &&& final(self).events@ == old(self).events@ + hit_events_of(
                        hit,
                        old(self).world.u(hit.target.index as int),
                        stun,
                    )
                    &&& stun ==> hit.effect.stun_chance_permille > 0 && hit_new_health(
                        old(self).world.u(hit.target.index as int),
                        hit.effect.damage,
                    ) > 0
                    &&& hit.effect.stun_chance_permille >= 1000 && hit_new_health(
                        old(self).world.u(hit.target.index as int),
                        hit.effect.damage,
                    ) > 0 ==> stun
                    &&& hit.effect.stun_chance_permille == 0 ==> !stun
                },
            final(self).config == old(self).config,
            final(self).merge_timer_ms == old(self).merge_timer_ms,
            final(self).pre_game_ms_left == old(self).pre_game_ms_left,
            final(self).round_over == old(self).round_over,
            final(self).slimes_to_spawn == old(self).slimes_to_spawn,
            final(self).spawn_timer_ms == old(self).spawn_timer_ms,
    {
        let apos = match self.world.get(hit.attacker) {
            Option::Some(au) => au.pos,
            Option::None => {
                return ;
            },
        };
        let t = match self.world.get(hit.target) {
            Option::Some(tu) => tu,
            Option::None => {
                return ;
            },
        };
        let tanim = match t.animation {
            Option::Some(a) => a,
            Option::None => {
                return ;
            },
        };
        proof {
            assert(!hit_blocked(old(self).world, hit));
            assert(old(self).world.live(hit.target.index as int));
            assert(old(self).world.live(hit.attacker.index as int));
            assert(unit_wf(t));
            assert(unit_wf(old(self).world.u(hit.attacker.index as int)));
        }
        // Step 1: damage, only while health is positive.
        let damaged = t.health > 0;
        let nh = if t.health > 0 {
            if t.health > hit.effect.damage {
                t.health - hit.effect.damage
            } else {
                0
            }
        } else {
            t.health
        };
        // Step 2: knockback, an instant displacement away from the attacker.
        let np = if hit.effect.knockback > 0 {
            proof {
                crate::geom::lemma_abs_mul_bound(
                    self.config.knockback_epsilon as int,
                    self.config.knockback_epsilon as int,
                    MAX_COORD as int,
                    MAX_COORD as int,
                );
            }
            let d2 = dist2_exec(apos, t.pos);
            if d2 > self.config.knockback_epsilon * self.config.knockback_epsilon {
                let off = crate::geom::offset_toward_exec(apos, t.pos, hit.effect.knockback);
                crate::geom::apply_offset(t.pos, off)
            } else {
                t.pos
            }
        } else {
            t.pos
        };
        // Step 3: the stun roll, suppressed on a target that did not survive.
        let stun = if hit.effect.stun_chance_permille > 0 && nh > 0 {
            roll_permille() < hit.effect.stun_chance_permille
        } else {
            false
        };
        let base = Unit { health: nh, pos: np, ..t };
        let nu = if stun {
            Unit {
                inert: true,
                stun_ms: Option::Some(hit.effect.stun_duration_ms),
                active_attack: Option::None,
                stun_vfx: true,
                animation: Option::Some(AnimationState { finished: true, ..tanim }),
                ..base
            }
        } else {
            base
        };
        self.world.units.set(hit.target.index, Option::Some(nu));
        if damaged {
            self.events.push(
                GameEvent::Damaged { entity: hit.target, amount: hit.effect.damage },
            );
        }
        if stun {
            self.events.push(GameEvent::Stunned { entity: hit.target });
        }
        proof {
            let tg = hit.target.index as int;
            assert(nu == hit_target_outcome(old(self).config, t, apos, hit.effect, stun));
            assert(final(self).world.units@ =~= old(self).world.units@.update(
                tg,
                Option::Some(nu),
            ));
            assert(final(self).events@ =~= old(self).events@ + hit_events_of(hit, t, stun));
            assert forall|i: int| final(self).world.live(i) <==> old(self).world.live(i) by {}
            assert forall|i: int| final(self).world.live(i) implies unit_wf(final(self).world.u(i))
                && final(self).world.u(i).merge == old(self).world.u(i).merge && final(self).world.u(i).health <= old(self).world.u(i).health && final(self).world.u(i).merged == old(self).world.u(i).merged && (old(self).world.u(i).dying ==> final(self).world.u(i).dying) && (final(self).world.u(i).target is Some ==> final(self).world.u(i).target == old(self).world.u(i).target) && (final(self).world.u(i).active_attack is Some ==> old(self).world.u(i).active_attack is Some && final(self).world.u(i).active_attack->0.attack == old(self).world.u(i).active_attack->0.attack && final(self).world.u(i).active_attack->0.target == old(self).world.u(i).active_attack->0.target) by {
                assert(old(self).world.live(i));
                assert(unit_wf(old(self).world.u(i)));
                if i != tg {
                    assert(final(self).world.u(i) == old(self).world.u(i));
                }
            }
            lemma_wf_preserved(old(self).world, final(self).world);
            lemma_stat_caps_preserved(*old(self), *final(self));
        }
    }
}

} // verus!
