//! Tuning parameters of the battle.
//!
//! The shape of every algorithm (periodic merge checks, proximity gates,
//! bounded-sample targeting, telegraph-then-walk-then-execute) is fixed by the
//! systems; the constants here are configuration. Distances are milli-units,
//! times are milliseconds, chances are thousandths.

use vstd::prelude::*;

verus! {

use crate::geom::{MAX_COORD, MAX_STEP};
use crate::components::{MAX_SPEED, MAX_FRAMES};

#[derive(Clone, Copy, PartialEq, Eq, Structural, Debug)]
pub struct Config {
    /// Seek stops once a unit is this close to its target.
    pub stop_distance: i64,
    /// Separation pushes any pair closer than this apart.
    pub min_spacing: i64,
    /// Separation push strength, milli-units per second at full overlap.
    pub push_strength: i64,
    /// Knockback shorter than this is treated as a zero-length direction.
    pub knockback_epsilon: i64,
    /// Pre-game pause during which every unit stays inert.
    pub pre_game_ms: u64,
    /// Interval of the staggered spawn trickle.
    pub spawn_interval_ms: u64,
    /// How often the merge pairing check runs.
    pub merge_check_interval_ms: u64,
    /// Pairing proximity gate.
    pub merge_range: i64,
    /// Per qualifying pair, per check: chance to start merging, in thousandths.
    pub merge_chance_permille: u32,
    /// Length of the frozen telegraph phase.
    pub telegraph_ms: u64,
    /// A walking merger stops this close to the meeting point.
    pub merge_walk_stop: i64,
    /// Both partners this close to each other triggers the merge itself.
    pub merge_execute_range: i64,
    /// Stats of a normal slime.
    pub normal_health: i32,
    /// Stats of a tank slime: more health and a stunning attack.
    pub tank_health: i32,
    pub base_damage: i32,
    pub base_range: i64,
    pub base_speed: i64,
    pub base_hit_frame: usize,
    pub tank_stun_permille: u32,
    pub tank_stun_ms: u64,
    /// Stats of the unit a successful merge produces.
    pub merged_health: i32,
    pub merged_damage: i32,
    pub merged_range: i64,
    pub merged_speed: i64,
    pub merged_hit_frame: usize,
    /// Spawn region: player x-band, enemy x-band, shared y-band.
    pub player_x_min: i64,
    pub player_x_max: i64,
    pub enemy_x_min: i64,
    pub enemy_x_max: i64,
    pub spawn_y_min: i64,
    pub spawn_y_max: i64,
}

pub open spec fn config_wf(c: Config) -> bool {
    &&& 0 < c.stop_distance <= MAX_COORD
    &&& 0 < c.min_spacing <= MAX_COORD
    &&& 0 <= c.push_strength <= MAX_SPEED
    &&& 0 < c.knockback_epsilon <= MAX_COORD
    &&& 0 < c.merge_range <= MAX_COORD
    &&& c.merge_chance_permille <= 1000
    &&& 0 < c.merge_walk_stop <= MAX_COORD
    &&& 0 < c.merge_execute_range <= MAX_COORD
    &&& 0 < c.normal_health <= c.tank_health
    &&& 0 <= c.base_damage
    &&& 0 < c.base_range <= MAX_COORD
    &&& 0 <= c.base_speed <= MAX_SPEED
    &&& c.base_hit_frame <= MAX_FRAMES
    &&& c.tank_stun_permille <= 1000
    &&& c.tank_health < c.merged_health
    &&& c.base_damage < c.merged_damage
    &&& 0 < c.merged_range <= MAX_COORD
    &&& 0 <= c.merged_speed <= MAX_SPEED
    &&& c.merged_hit_frame <= MAX_FRAMES
    &&& -MAX_COORD <= c.player_x_min < c.player_x_max <= MAX_COORD
    &&& -MAX_COORD <= c.enemy_x_min < c.enemy_x_max <= MAX_COORD
    &&& -MAX_COORD <= c.spawn_y_min < c.spawn_y_max <= MAX_COORD
}

impl Config {
    /// The stock tuning: spawn bands 100..500 units from the centre line,
    /// 50-unit personal space, half-second merge checks at 5% per pair,
    /// a 1.5-second telegraph, and a merged slime with four times the health
    /// and damage of a normal one.
    pub fn battle_defaults() -> (c: Config)
        ensures
            config_wf(c),
            c.normal_health == 10,
            c.tank_health == 20,
            c.base_damage == 2,
            c.merged_health == 40,
            c.merged_damage == 8,
    {
        Config {
            stop_distance: 50_000,
            min_spacing: 50_000,
            push_strength: 100_000,
            knockback_epsilon: 10,
            pre_game_ms: 2_000,
            spawn_interval_ms: 100,
            merge_check_interval_ms: 500,
            merge_range: 100_000,
            merge_chance_permille: 50,
            telegraph_ms: 1_500,
            merge_walk_stop: 15_000,
            merge_execute_range: 40_000,
            normal_health: 10,
            tank_health: 20,
            base_damage: 2,
            base_range: 65_000,
            base_speed: 125_000,
            base_hit_frame: 3,
            tank_stun_permille: 100,
            tank_stun_ms: 1_500,
            merged_health: 40,
            merged_damage: 8,
            merged_range: 100_000,
            merged_speed: 125_000,
            merged_hit_frame: 3,
            player_x_min: -500_000,
            player_x_max: -100_000,
            enemy_x_min: 100_000,
            enemy_x_max: 500_000,
            spawn_y_min: -300_000,
            spawn_y_max: 300_000,
        }
    }
}

} // verus!
