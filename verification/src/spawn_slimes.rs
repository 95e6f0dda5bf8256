//! Spawning: the staggered trickle that fields both armies, and a debug
//! hook that fells a random unit.
//!
//! Each side's queue drains one unit per interval — normal slimes first,
//! then tanks. Units spawned during the pre-game pause start inert and are
//! released when the pause expires; units spawned after it start active.

use vstd::prelude::*;

verus! {

use crate::battle::{Battle, MAX_UNITS, SlimesToSpawn};
use crate::components::{
    AnimationType, Attack, AttackEffect, KnownAttacks, MergeState, PickTargetStrategy, Team, Unit,
    UnitId,
};
use crate::config::Config;
use crate::geom::Pos;
use crate::rng::rand_in_range;

/// How many units a queue still owes (wizards are queued but no wizard kind
/// exists yet, so they never leave the queue).
pub open spec fn queue_total(q: Option<SlimesToSpawn>) -> int {
    match q {
        Option::None => 0,
        Option::Some(s) => s.player_slimes.normal_slimes + s.player_slimes.tanks
            + s.player_slimes.wizards + s.enemy_slimes.normal_slimes + s.enemy_slimes.tanks
            + s.enemy_slimes.wizards,
    }
}

/// The clips a side's slimes use: idle/move, attack, death, victory.
pub open spec fn spec_side_clips(team: Team) -> (AnimationType, AnimationType, AnimationType, AnimationType) {
    if team is Player {
        (
            AnimationType::SlimeMoveSmallJump,
            AnimationType::SlimeAttack,
            AnimationType::SlimeDeath,
            AnimationType::SlimeJumpIdle,
        )
    } else {
        (
            AnimationType::EnemySlimeMoveSmallJump,
            AnimationType::EnemySlimeAttack,
            AnimationType::EnemySlimeDeath,
            AnimationType::EnemySlimeJumpIdle,
        )
    }
}

/// The one attack a freshly spawned slime knows: base damage and reach, the
/// side's attack clip, a stun rider only on tanks.
pub open spec fn spec_base_attack(cfg: Config, team: Team, tank: bool) -> Attack {
    Attack {
        animation: spec_side_clips(team).1,
        hit_frame: cfg.base_hit_frame,
        on_hit_effect: AttackEffect {
            damage: cfg.base_damage,
            knockback: 0,
            stun_chance_permille: if tank {
                cfg.tank_stun_permille
            } else {
                0
            },
            stun_duration_ms: if tank {
                cfg.tank_stun_ms
            } else {
                0
            },
        },
        range: cfg.base_range,
    }
}

/// A freshly spawned slime, fully: only its position is a random draw.
pub open spec fn spec_spawned_slime(cfg: Config, team: Team, pos: Pos, health: i32, gated: bool) -> Unit {
    Unit {
        pos,
        team,
        strategy: PickTargetStrategy::Close,
        health,
        speed: cfg.base_speed,
        target: Option::None,
        active_attack: Option::None,
        merge: MergeState::Lone,
        merged: false,
        inert: gated,
        stun_ms: Option::None,
        dying: false,
        animation: Option::Some(crate::components::spec_fresh_animation(spec_side_clips(team).0)),
        current_clip: spec_side_clips(team).0,
        idle_animation: spec_side_clips(team).0,
        death_animation: spec_side_clips(team).2,
        victory_animation: spec_side_clips(team).3,
        stun_vfx: false,
        merge_alert_vfx: false,
    }
}

/// What every freshly spawned combatant looks like, whatever its kind.
pub open spec fn spawned_unit_ok(b: Battle, u: Unit, team: Team) -> bool {
    &&& u.team == team
    &&& u.merge is Lone
    &&& !u.merged
    &&& u.target is None
    &&& u.active_attack is None
    &&& !u.dying
    &&& u.stun_ms is None
    &&& u.inert == (b.pre_game_ms_left > 0)
    &&& 0 < u.health <= b.config.tank_health
    &&& (if team is Player {
        b.config.player_x_min <= u.pos.x < b.config.player_x_max
    } else {
        b.config.enemy_x_min <= u.pos.x < b.config.enemy_x_max
    })
    &&& b.config.spawn_y_min <= u.pos.y < b.config.spawn_y_max
}

impl Battle {
    /// Roll a spawn position inside the side's band.
    fn roll_spawn_pos(&self, team: Team) -> (p: Pos)
        requires
            self.wf(),
        ensures
            if team is Player {
                self.config.player_x_min <= p.x < self.config.player_x_max
            } else {
                self.config.enemy_x_min <= p.x < self.config.enemy_x_max
            },
            self.config.spawn_y_min <= p.y < self.config.spawn_y_max,
            crate::geom::in_bounds(p),
    {
        let x = match team {
            Team::Player => rand_in_range(self.config.player_x_min, self.config.player_x_max),
            Team::Enemy => rand_in_range(self.config.enemy_x_min, self.config.enemy_x_max),
        };
        let y = rand_in_range(self.config.spawn_y_min, self.config.spawn_y_max);
        Pos { x, y }
    }

    /// Spawn one normal slime for a side, at a random spot in its band. It
    /// starts inert exactly while the pre-game pause runs.
    pub fn spawn_normal_slime(&mut self, team: Team) -> (id: UnitId)
        requires
            old(self).wf(),
            old(self).world.n() < MAX_UNITS,
        ensures
            final(self).wf(),
            final(self).world.n() == old(self).world.n() + 1,
            final(self).world.live_count() == old(self).world.live_count() + 1,
            final(self).world.valid(id),
            id.index as int == old(self).world.n(),
            spawned_unit_ok(*old(self), final(self).world.u(id.index as int), team),
            // The whole unit, exactly: only its position is a random draw.
            final(self).world.u(id.index as int) == spec_spawned_slime(
                old(self).config,
                team,
                final(self).world.u(id.index as int).pos,
                old(self).config.normal_health,
                old(self).pre_game_ms_left > 0,
            ),
            final(self).world.attacks@[id.index as int].0@.len() == 1,
            final(self).world.attacks@[id.index as int].0@[0] == spec_base_attack(
                old(self).config,
                team,
                false,
            ),
            forall|j: int|
                0 <= j < old(self).world.n() ==> #[trigger] final(self).world.units@[j] == old(self).world.units@[j],
            forall|j: int|
                0 <= j < old(self).world.n() ==> #[trigger] final(self).world.generations@[j]
                    == old(self).world.generations@[j],
            final(self).config == old(self).config,
            final(self).events == old(self).events,
            final(self).merge_timer_ms == old(self).merge_timer_ms,
            final(self).pre_game_ms_left == old(self).pre_game_ms_left,
            final(self).round_over == old(self).round_over,
            final(self).slimes_to_spawn == old(self).slimes_to_spawn,
            final(self).spawn_timer_ms == old(self).spawn_timer_ms,
    {
        let pos = self.roll_spawn_pos(team);
        let (idle_anim, attack_anim, death_anim, victory_anim) = match team {
            Team::Player => (
                AnimationType::SlimeMoveSmallJump,
                AnimationType::SlimeAttack,
                AnimationType::SlimeDeath,
                AnimationType::SlimeJumpIdle,
            ),
            Team::Enemy => (
                AnimationType::EnemySlimeMoveSmallJump,
                AnimationType::EnemySlimeAttack,
                AnimationType::EnemySlimeDeath,
                AnimationType::EnemySlimeJumpIdle,
            ),
        };
        let anim = crate::components::fresh_animation(idle_anim);
        let u = Unit {
            pos,
            team,
            strategy: PickTargetStrategy::Close,
            health: self.config.normal_health,
            speed: self.config.base_speed,
            target: Option::None,
            active_attack: Option::None,
            merge: MergeState::Lone,
            merged: false,
            inert: self.pre_game_ms_left > 0,
            stun_ms: Option::None,
            dying: false,
            animation: Option::Some(anim),
            current_clip: idle_anim,
            idle_animation: idle_anim,
            death_animation: death_anim,
            victory_animation: victory_anim,
            stun_vfx: false,
            merge_alert_vfx: false,
        };
        proof {
            assert(u == spec_spawned_slime(
                self.config,
                team,
                pos,
                self.config.normal_health,
                self.pre_game_ms_left > 0,
            ));
        }
        let mut moves: Vec<Attack> = Vec::new();
        moves.push(
            Attack {
                animation: attack_anim,
                hit_frame: self.config.base_hit_frame,
                on_hit_effect: AttackEffect {
                    damage: self.config.base_damage,
                    knockback: 0,
                    stun_chance_permille: 0,
                    stun_duration_ms: 0,
                },
                range: self.config.base_range,
            },
        );
        proof {
            assert(moves@ =~= seq![spec_base_attack(self.config, team, false)]);
        }
        let id = self.world.spawn(u, KnownAttacks(moves));
        proof {
            assert forall|i: int|
                final(self).world.live(i) && !(#[trigger] final(self).world.u(i)).merged implies
                final(self).world.u(i).health <= final(self).config.tank_health
                    && crate::battle::all_damage_le(
                    final(self).world.attacks@[i],
                    final(self).config.base_damage,
                ) by {
                if i < old(self).world.n() {
                    assert(old(self).world.live(i) && !old(self).world.u(i).merged);
                } else {
                    assert(final(self).world.u(i) == u);
                }
            }
        }
        id
    }

    /// Spawn one tank slime: more health, and a stunning attack in place of
    /// the plain one.
    pub fn spawn_tank_slime(&mut self, team: Team) -> (id: UnitId)
        requires
            old(self).wf(),
            old(self).world.n() < MAX_UNITS,
        ensures
            final(self).wf(),
            final(self).world.n() == old(self).world.n() + 1,
            final(self).world.live_count() == old(self).world.live_count() + 1,
            final(self).world.valid(id),
            id.index as int == old(self).world.n(),
            spawned_unit_ok(*old(self), final(self).world.u(id.index as int), team),
            // The whole unit, exactly: only its position is a random draw.
            final(self).world.u(id.index as int) == spec_spawned_slime(
                old(self).config,
                team,
                final(self).world.u(id.index as int).pos,
                old(self).config.tank_health,
                old(self).pre_game_ms_left > 0,
            ),
            final(self).world.attacks@[id.index as int].0@.len() == 1,
            final(self).world.attacks@[id.index as int].0@[0] == spec_base_attack(
                old(self).config,
                team,
                true,
            ),
            forall|j: int|
                0 <= j < old(self).world.n() ==> #[trigger] final(self).world.units@[j] == old(self).world.units@[j],
            forall|j: int|
                0 <= j < old(self).world.n() ==> #[trigger] final(self).world.generations@[j]
                    == old(self).world.generations@[j],
            final(self).config == old(self).config,
            final(self).events == old(self).events,
            final(self).merge_timer_ms == old(self).merge_timer_ms,
            final(self).pre_game_ms_left == old(self).pre_game_ms_left,
            final(self).round_over == old(self).round_over,
            final(self).slimes_to_spawn == old(self).slimes_to_spawn,
            final(self).spawn_timer_ms == old(self).spawn_timer_ms,
    {
        let pos = self.roll_spawn_pos(team);
        let (idle_anim, attack_anim, death_anim, victory_anim) = match team {
            Team::Player => (
                AnimationType::SlimeMoveSmallJump,
                AnimationType::SlimeAttack,
                AnimationType::SlimeDeath,
                AnimationType::SlimeJumpIdle,
            ),
            Team::Enemy => (
                AnimationType::EnemySlimeMoveSmallJump,
                AnimationType::EnemySlimeAttack,
                AnimationType::EnemySlimeDeath,
                AnimationType::EnemySlimeJumpIdle,
            ),
        };
        let anim = crate::components::fresh_animation(idle_anim);
        let u = Unit {
            pos,
            team,
            strategy: PickTargetStrategy::Close,
            health: self.config.tank_health,
            speed: self.config.base_speed,
            target: Option::None,
            active_attack: Option::None,
            merge: MergeState::Lone,
            merged: false,
            inert: self.pre_game_ms_left > 0,
            stun_ms: Option::None,
            dying: false,
            animation: Option::Some(anim),
            current_clip: idle_anim,
            idle_animation: idle_anim,
            death_animation: death_anim,
            victory_animation: victory_anim,
            stun_vfx: false,
            merge_alert_vfx: false,
        };
        proof {
            assert(u == spec_spawned_slime(
                self.config,
                team,
                pos,
                self.config.tank_health,
                self.pre_game_ms_left > 0,
            ));
        }
        let mut moves: Vec<Attack> = Vec::new();
        moves.push(
            Attack {
                animation: attack_anim,
                hit_frame: self.config.base_hit_frame,
                on_hit_effect: AttackEffect {
                    damage: self.config.base_damage,
                    knockback: 0,
                    stun_chance_permille: self.config.tank_stun_permille,
                    stun_duration_ms: self.config.tank_stun_ms,
                },
                range: self.config.base_range,
            },
        );
        proof {
            assert(moves@ =~= seq![spec_base_attack(self.config, team, true)]);
        }
        let id = self.world.spawn(u, KnownAttacks(moves));
        proof {
            assert forall|i: int|
                final(self).world.live(i) && !(#[trigger] final(self).world.u(i)).merged implies
                final(self).world.u(i).health <= final(self).config.tank_health
                    && crate::battle::all_damage_le(
                    final(self).world.attacks@[i],
                    final(self).config.base_damage,
                ) by {
                if i < old(self).world.n() {
                    assert(old(self).world.live(i) && !old(self).world.u(i).merged);
                } else {
                    assert(final(self).world.u(i) == u);
                }
            }
        }
        id
    }

    /// The staggered trickle: once per interval, each side spawns its next
    /// queued unit — normal slimes before tanks — until both queues are
    /// empty; then the queue is dropped. Each spawn consumes exactly one
    /// queued unit.
    pub fn spawn_slimes_system(&mut self, dt_ms: u64)
        requires
            old(self).wf(),
        ensures
            final(self).wf(),
            old(self).world.n() <= final(self).world.n() <= old(self).world.n() + 2,
            forall|j: int|
                0 <= j < old(self).world.n() ==> #[trigger] final(self).world.units@[j] == old(self).world.units@[j],
            forall|j: int|
                0 <= j < old(self).world.n() ==> #[trigger] final(self).world.generations@[j]
                    == old(self).world.generations@[j],
            queue_total(final(self).slimes_to_spawn) + (final(self).world.n() - old(self).world.n()) <= queue_total(old(self).slimes_to_spawn),
            final(self).config == old(self).config,
            final(self).events == old(self).events,
            final(self).merge_timer_ms == old(self).merge_timer_ms,
            final(self).pre_game_ms_left == old(self).pre_game_ms_left,
            final(self).round_over == old(self).round_over,
    {
        let queue = match self.slimes_to_spawn {
            Option::Some(q) => q,
            Option::None => {
                return ;
            },
        };
        let left = self.spawn_timer_ms.saturating_sub(dt_ms);
        if left != 0 {
            self.spawn_timer_ms = left;
            return ;
        }
        self.spawn_timer_ms = self.config.spawn_interval_ms;
        let mut q = queue;
        if q.player_slimes.normal_slimes > 0 {
            if self.world.len() < MAX_UNITS {
                self.spawn_normal_slime(Team::Player);
                q.player_slimes.normal_slimes = q.player_slimes.normal_slimes - 1;
            }
        } else if q.player_slimes.tanks > 0 {
            if self.world.len() < MAX_UNITS {
                self.spawn_tank_slime(Team::Player);
                q.player_slimes.tanks = q.player_slimes.tanks - 1;
            }
        }
        if q.enemy_slimes.normal_slimes > 0 {
            if self.world.len() < MAX_UNITS {
                self.spawn_normal_slime(Team::Enemy);
                q.enemy_slimes.normal_slimes = q.enemy_slimes.normal_slimes - 1;
            }
        } else if q.enemy_slimes.tanks > 0 {
            if self.world.len() < MAX_UNITS {
                self.spawn_tank_slime(Team::Enemy);
                q.enemy_slimes.tanks = q.enemy_slimes.tanks - 1;
            }
        }
        let total = q.player_slimes.normal_slimes as u64 + q.player_slimes.tanks as u64
            + q.player_slimes.wizards as u64 + q.enemy_slimes.normal_slimes as u64
            + q.enemy_slimes.tanks as u64 + q.enemy_slimes.wizards as u64;
        if total == 0 {
            self.slimes_to_spawn = Option::None;
        } else {
            self.slimes_to_spawn = Option::Some(q);
        }
    }

    /// Fell one living unit, chosen uniformly at random: its health drops to
    /// zero, so the death pipeline collects it on the next pass. Reports the
    /// victim, or `None` on an empty field.
    pub fn kill_random(&mut self) -> (r: Option<UnitId>)
        requires
            old(self).wf(),
        ensures
            final(self).wf(),
            final(self).world.n() == old(self).world.n(),
            final(self).world.generations@ == old(self).world.generations@,
            final(self).world.attacks@ == old(self).world.attacks@,
            match r {
                Option::None => final(self).world.units@ == old(self).world.units@
                    && !(exists|i: int| old(self).world.live(i)),
                Option::Some(id) => {
                    &&& old(self).world.valid(id)
                    &&& final(self).world.units@ == old(self).world.units@.update(
                        id.index as int,
                        Option::Some(
                            Unit { health: 0, ..old(self).world.u(id.index as int) },
                        ),
                    )
                },
            },
            final(self).config == old(self).config,
            final(self).events == old(self).events,
    {
        let n = self.world.len();
        let mut live: Vec<usize> = Vec::new();
        let mut i: usize = 0;
        while i < n
            invariant
                old(self).wf(),
                *self == *old(self),
                n == old(self).world.n(),
                i <= n,
                forall|k: int|
                    0 <= k < live@.len() ==> (#[trigger] live@[k]) < n && old(self).world.live(
                        live@[k] as int,
                    ),
                live@.len() > 0 <==> exists|l: int| 0 <= l < i && old(self).world.live(l),
                live@.len() <= i,
            decreases n - i,
        {
            let slot = self.world.units[i];
            proof {
                if slot is Some {
                    assert(old(self).world.live(i as int));
                } else {
                    assert(!old(self).world.live(i as int));
                }
            }
            match slot {
                Option::Some(_) => {
                    live.push(i);
                },
                Option::None => {},
            }
            i = i + 1;
        }
        if live.len() == 0 {
            proof {
                assert forall|l: int| !old(self).world.live(l) by {
                    if 0 <= l < n {
                    }
                }
            }
            return Option::None;
        }
        let pick = crate::rng::rand_index(live.len());
        let idx = live[pick];
        let u = match self.world.units[idx] {
            Option::Some(u) => u,
            Option::None => {
                proof {
                    assert(false);
                }
                return Option::None;
            },
        };
        let gen = self.world.generations[idx];
        self.world.units.set(idx, Option::Some(Unit { health: 0, ..u }));
        proof {
            assert(final(self).world.units@ =~= old(self).world.units@.update(
                idx as int,
                Option::Some(Unit { health: 0, ..u }),
            ));
            assert forall|k: int| final(self).world.live(k) <==> old(self).world.live(k) by {}
            assert forall|k: int| final(self).world.live(k) implies crate::components::unit_wf(
                final(self).world.u(k),
            ) && final(self).world.u(k).merge == old(self).world.u(k).merge && final(self).world.u(k).health <= old(self).world.u(k).health && final(self).world.u(k).merged == old(self).world.u(k).merged && (old(self).world.u(k).dying ==> final(self).world.u(k).dying)
                && (final(self).world.u(k).target is Some ==> final(self).world.u(k).target == old(self).world.u(k).target) && (final(self).world.u(k).active_attack is Some ==> final(self).world.u(k).active_attack == old(self).world.u(k).active_attack) by {
                assert(old(self).world.live(k));
                assert(crate::components::unit_wf(old(self).world.u(k)));
                if k != idx as int {
                    assert(final(self).world.u(k) == old(self).world.u(k));
                }
            }
            crate::world::lemma_wf_preserved(old(self).world, final(self).world);
            crate::battle::lemma_stat_caps_preserved(*old(self), *final(self));
        }
        Option::Some(UnitId { index: idx, generation: gen })
    }
}

} // verus!
