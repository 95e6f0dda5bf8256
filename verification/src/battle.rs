//! The battle: the entity store plus configuration, notification queue, and
//! the handful of global timers (pre-game pause, merge-check interval,
//! spawn trickle, round-over latch).
//!
//! `Battle::wf` adds one cross-cutting fact to the store invariant: a unit
//! that has not merged never exceeds the tank stat line, and none of its
//! attacks exceeds the base damage. That is what makes "a merged unit is
//! strictly stronger than either original" a theorem rather than a hope.

use vstd::prelude::*;

verus! {

use crate::components::{
    AnimationState, GameEvent, KnownAttacks, Team, Unit, anim_step, anim_wf, unit_wf, MAX_DT_MS,
};
use crate::config::{Config, config_wf};
use crate::world::{World, lemma_wf_preserved};

/// How many of each slime kind a side still has to spawn.
#[derive(Clone, Copy, PartialEq, Eq, Structural, Debug)]
pub struct SlimeAmounts {
    pub normal_slimes: u32,
    pub tanks: u32,
    pub wizards: u32,
}

/// The spawn queue for both sides, drained by the staggered spawn system.
#[derive(Clone, Copy, PartialEq, Eq, Structural, Debug)]
pub struct SlimesToSpawn {
    pub player_slimes: SlimeAmounts,
    pub enemy_slimes: SlimeAmounts,
}

/// How the round stands: still contested, won by the player's team, or lost
/// (the player's team has no living members; mutual annihilation counts as
/// defeat).
#[derive(Clone, Copy, PartialEq, Eq, Structural, Debug)]
pub enum RoundOutcome {
    Ongoing,
    Victory,
    Defeat,
}

pub struct Battle {
    pub world: World,
    pub config: Config,
    /// Notifications for presentation collaborators, in tick order.
    pub events: Vec<GameEvent>,
    /// Time left until the next merge pairing check.
    pub merge_timer_ms: u64,
    /// Time left of the pre-game pause; 0 once combat has begun.
    pub pre_game_ms_left: u64,
    /// Latched once a side has no living members.
    pub round_over: bool,
    /// Remaining staggered spawns, if any.
    pub slimes_to_spawn: Option<SlimesToSpawn>,
    /// Time left until the next spawn trickle.
    pub spawn_timer_ms: u64,
}

/// Cap on the number of arena slots; it keeps accumulated separation pushes
/// inside an `i64`.
pub const MAX_UNITS: usize = 100_000;

/// No attack in the move list deals more than `cap` damage.
pub open spec fn all_damage_le(k: KnownAttacks, cap: i32) -> bool {
    forall|j: int| 0 <= j < k.0@.len() ==> (#[trigger] k.0@[j]).on_hit_effect.damage <= cap
}

impl Battle {
    /// Units that have not merged stay within the base stat line.
    pub open spec fn stat_caps(self) -> bool {
        forall|i: int|
            self.world.live(i) && !(#[trigger] self.world.u(i)).merged ==> self.world.u(i).health
                <= self.config.tank_health && all_damage_le(
                self.world.attacks@[i],
                self.config.base_damage,
            )
    }

    pub open spec fn wf(self) -> bool {
        &&& self.world.wf()
        &&& self.world.n() <= MAX_UNITS
        &&& config_wf(self.config)
        &&& self.stat_caps()
    }

    /// An empty battlefield with the pre-game pause armed.
    pub fn new(config: Config) -> (b: Battle)
        requires
            config_wf(config),
        ensures
            b.wf(),
            b.world.n() == 0,
            b.config == config,
            b.pre_game_ms_left == config.pre_game_ms,
            b.events@.len() == 0,
            !b.round_over,
            b.slimes_to_spawn is None,
    {
        Battle {
            world: World::new(),
            config,
            events: Vec::new(),
            merge_timer_ms: config.merge_check_interval_ms,
            pre_game_ms_left: config.pre_game_ms,
            round_over: false,
            slimes_to_spawn: Option::None,
            spawn_timer_ms: config.spawn_interval_ms,
        }
    }

    /// Hand the queued notifications to the caller and clear the queue.
    pub fn take_events(&mut self) -> (evs: Vec<GameEvent>)
        requires
            old(self).wf(),
        ensures
            final(self).wf(),
            evs@ == old(self).events@,
            final(self).events@.len() == 0,
            final(self).world == old(self).world,
            final(self).config == old(self).config,
    {
        let mut out: Vec<GameEvent> = Vec::new();
        core::mem::swap(&mut out, &mut self.events);
        out
    }

    /// Queue up both sides' armies for the staggered spawn trickle.
    pub fn setup_slime_spawn_system(&mut self, player_slimes: SlimeAmounts, enemy_slimes: SlimeAmounts)
        requires
            old(self).wf(),
        ensures
            final(self).wf(),
            *final(self) == (Battle {
                slimes_to_spawn: Option::Some(SlimesToSpawn { player_slimes, enemy_slimes }),
                spawn_timer_ms: final(self).spawn_timer_ms,
                ..*old(self)
            }),
            final(self).spawn_timer_ms == old(self).config.spawn_interval_ms,
    {
        self.slimes_to_spawn = Option::Some(SlimesToSpawn { player_slimes, enemy_slimes });
        self.spawn_timer_ms = self.config.spawn_interval_ms;
    }
}

/// Stat caps survive any pass that keeps the merged flag and never raises
/// health.
pub proof fn lemma_stat_caps_preserved(b1: Battle, b2: Battle)
    requires
        b1.stat_caps(),
        b2.config == b1.config,
        b2.world.attacks@ == b1.world.attacks@,
        b2.world.units@.len() == b1.world.units@.len(),
        forall|i: int| b2.world.live(i) ==> b1.world.live(i),
        forall|i: int|
            b2.world.live(i) ==> (#[trigger] b2.world.u(i)).merged == b1.world.u(i).merged
                && b2.world.u(i).health <= b1.world.u(i).health,
    ensures
        b2.stat_caps(),
{
    assert forall|i: int|
        b2.world.live(i) && !(#[trigger] b2.world.u(i)).merged implies b2.world.u(i).health
        <= b2.config.tank_health && all_damage_le(b2.world.attacks@[i], b2.config.base_damage) by {
        assert(b1.world.live(i) && !b1.world.u(i).merged);
    }
}

/// One tick of animation time applied to a slot: a unit's animation advances
/// by at most one frame; everything else is untouched.
pub open spec fn anim_ticked(s: Option<Unit>, dt_ms: u64) -> Option<Unit> {
    match s {
        Option::None => Option::None,
        Option::Some(u) => Option::Some(
            match u.animation {
                Option::None => u,
                Option::Some(a) => Unit { animation: Option::Some(anim_step(a, dt_ms)), ..u },
            },
        ),
    }
}

/// Advancing an animation keeps it well-formed.
pub proof fn lemma_anim_step_wf(s: AnimationState, dt_ms: u64)
    requires
        anim_wf(s),
    ensures
        anim_wf(anim_step(s, dt_ms)),
{
}

impl Battle {
    /// Advance every unit's animation by this tick's delta. The hit-frame
    /// check and both finish-triggered cleanups (attack cooldown, death
    /// despawn) read the state this system writes.
    pub fn animation_system(&mut self, dt_ms: u64)
        requires
            old(self).wf(),
        ensures
            final(self).wf(),
            final(self).world.n() == old(self).world.n(),
            final(self).world.generations@ == old(self).world.generations@,
            final(self).world.attacks@ == old(self).world.attacks@,
            forall|i: int|
                0 <= i < old(self).world.n() ==> #[trigger] final(self).world.units@[i]
                    == anim_ticked(old(self).world.units@[i], dt_ms),
            final(self).config == old(self).config,
            final(self).events == old(self).events,
            final(self).merge_timer_ms == old(self).merge_timer_ms,
            final(self).pre_game_ms_left == old(self).pre_game_ms_left,
            final(self).round_over == old(self).round_over,
            final(self).slimes_to_spawn == old(self).slimes_to_spawn,
            final(self).spawn_timer_ms == old(self).spawn_timer_ms,
    {
        let n = self.world.len();
        let mut i: usize = 0;
        while i < n
            invariant
                old(self).wf(),
                n == old(self).world.n(),
                self.world.units@.len() == n,
                self.world.generations@ == old(self).world.generations@,
                self.world.attacks@ == old(self).world.attacks@,
                forall|j: int|
                    i <= j < n ==> #[trigger] self.world.units@[j] == old(self).world.units@[j],
                forall|j: int|
                    0 <= j < i ==> #[trigger] self.world.units@[j] == anim_ticked(
                        old(self).world.units@[j],
                        dt_ms,
                    ),
                self.config == old(self).config,
                self.events == old(self).events,
                self.merge_timer_ms == old(self).merge_timer_ms,
                self.pre_game_ms_left == old(self).pre_game_ms_left,
                self.round_over == old(self).round_over,
                self.slimes_to_spawn == old(self).slimes_to_spawn,
                self.spawn_timer_ms == old(self).spawn_timer_ms,
            decreases n - i,
        {
            let slot = self.world.units[i];
            match slot {
                Option::Some(u) => {
                    match u.animation {
                        Option::Some(a) => {
                            proof {
                                assert(old(self).world.live(i as int));
                                assert(unit_wf(old(self).world.u(i as int)));
                            }
                            let mut anim = a;
                            anim.update(dt_ms);
                            let nu = Unit { animation: Option::Some(anim), ..u };
                            self.world.units.set(i, Option::Some(nu));
                        },
                        Option::None => {},
                    }
                },
                Option::None => {},
            }
            i = i + 1;
        }
        proof {
            assert forall|i: int| 0 <= i < n ==> #[trigger] final(self).world.units@[i]
                == anim_ticked(old(self).world.units@[i], dt_ms) by {}
            assert forall|i: int| final(self).world.live(i) implies unit_wf(
                final(self).world.u(i),
            ) by {
                assert(final(self).world.units@[i] == anim_ticked(
                    old(self).world.units@[i],
                    dt_ms,
                ));
                assert(old(self).world.live(i));
                assert(unit_wf(old(self).world.u(i)));
                let u = old(self).world.u(i);
                if u.animation is Some {
                    lemma_anim_step_wf(u.animation->0, dt_ms);
                }
            }
            assert forall|i: int| final(self).world.live(i) <==> old(self).world.live(i) by {
                if 0 <= i < n {
                    assert(final(self).world.units@[i] == anim_ticked(
                        old(self).world.units@[i],
                        dt_ms,
                    ));
                }
            }
            lemma_wf_preserved(old(self).world, final(self).world);
            assert forall|i: int|
                final(self).world.live(i) && !(#[trigger] final(self).world.u(i)).merged implies
                final(self).world.u(i).health <= final(self).config.tank_health && all_damage_le(
                final(self).world.attacks@[i],
                final(self).config.base_damage,
            ) by {
                assert(final(self).world.units@[i] == anim_ticked(
                    old(self).world.units@[i],
                    dt_ms,
                ));
                assert(old(self).world.live(i) && !old(self).world.u(i).merged);
            }
        }
    }
}

impl Battle {
    /// One full tick, in the fixed order the systems depend on: the
    /// pre-game gate and spawn trickle, animation time, targeting,
    /// movement and separation, the attack lifecycle (cooldown cleanup
    /// before selection, so a just-freed unit can re-attack the same tick;
    /// then hit-frame sync and effect resolution), the stun gate, the merge
    /// pipeline (check, telegraph, walk, execute, cancel), the death
    /// pipeline, and finally the round-end check.
    pub fn tick(&mut self, dt_ms: u64) -> (outcome: RoundOutcome)
        requires
            old(self).wf(),
            dt_ms <= MAX_DT_MS,
        ensures
            final(self).wf(),
            final(self).config == old(self).config,
            // The returned outcome agrees with the field the tick leaves
            // behind: victory means the player's team alone has living
            // members, defeat that it has none, and the round-over latch is
            // set exactly when a result has been reported.
            final(self).round_over == (old(self).round_over || !(outcome is Ongoing)),
            outcome is Victory ==> crate::end_round::team_alive(
                final(self).world,
                crate::components::Team::Player,
            ) && !crate::end_round::team_alive(
                final(self).world,
                crate::components::Team::Enemy,
            ),
            outcome is Defeat ==> !crate::end_round::team_alive(
                final(self).world,
                crate::components::Team::Player,
            ),
            outcome is Ongoing ==> final(self).pre_game_ms_left > 0 || old(self).round_over || (
            crate::end_round::team_alive(final(self).world, crate::components::Team::Player)
                && crate::end_round::team_alive(
                final(self).world,
                crate::components::Team::Enemy,
            )),
    {
        self.pre_game_timer_system(dt_ms);
        self.spawn_slimes_system(dt_ms);
        self.animation_system(dt_ms);
        self.pick_target_system();
        self.move_to_target_system(dt_ms);
        self.unsmush_system(dt_ms);
        self.attack_cleanup_system();
        self.pick_attack_system();
        let nn = self.world.len();
        let ghost checked = *self;
        let hits = self.hit_frame_check_system();
        proof {
            assert(checked.world.n() == nn as int);
            crate::combat::lemma_hits_upto_wf(checked.world, checked.world.n());
        }
        let mut h: usize = 0;
        while h < hits.len()
            invariant
                self.wf(),
                self.config == old(self).config,
                self.round_over == checked.round_over,
                self.pre_game_ms_left == checked.pre_game_ms_left,
                hits@ == crate::combat::hits_upto(checked.world, checked.world.n()),
                forall|k: int|
                    0 <= k < hits@.len() ==> {
                        &&& 0 <= (#[trigger] hits@[k]).effect.knockback
                            <= crate::geom::MAX_STEP
                        &&& 0 <= hits@[k].effect.damage
                        &&& hits@[k].effect.stun_chance_permille <= 1000
                    },
            decreases hits@.len() - h,
        {
            let hit = hits[h];
            self.on_hit_observer(hit);
            h = h + 1;
        }
        self.stun_timer_system(dt_ms);
        self.check_merge_system(dt_ms);
        self.pre_merge_system(dt_ms);
        self.merge_walk_system(dt_ms);
        self.execute_merge_system();
        self.cancel_merge_system();
        self.set_dying_system();
        self.when_finishes_dying_system();
        let ghost pre = *self;
        let outcome = self.check_round_end_system();
        proof {
            if outcome is Victory {
                crate::end_round::lemma_victory_switch_keeps_teams(
                    pre.world,
                    final(self).world,
                    Team::Player,
                );
                assert(crate::end_round::team_alive(pre.world, Team::Player));
                assert(!crate::end_round::team_alive(pre.world, Team::Enemy));
            } else if outcome is Defeat {
                assert(!crate::end_round::team_alive(pre.world, Team::Player));
                if crate::end_round::team_alive(pre.world, Team::Enemy) {
                    crate::end_round::lemma_victory_switch_keeps_teams(
                        pre.world,
                        final(self).world,
                        Team::Enemy,
                    );
                } else {
                    crate::end_round::lemma_team_alive_same_units(pre.world, final(self).world);
                }
            } else {
                assert(final(self).world.units@ == pre.world.units@);
                crate::end_round::lemma_team_alive_same_units(pre.world, final(self).world);
            }
        }
        outcome
    }
}

} // verus!
