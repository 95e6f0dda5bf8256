use slime_battle::battle::{Battle, SlimeAmounts};
use slime_battle::components::{
    AnimationType, Attack, AttackEffect, GameEvent, KnownAttacks, MergeState, OnHitEvent,
    PickTargetStrategy, Team, Unit, UnitId, clip_profile, fresh_animation, AnimationState,
};
use slime_battle::config::Config;
use slime_battle::geom::Pos;

fn quiet_config() -> Config {
    let mut c = Config::battle_defaults();
    c.pre_game_ms = 0;
    c.merge_chance_permille = 0;
    c
}

fn plain_unit(x: i64, y: i64, team: Team, health: i32) -> Unit {
    let (idle, death, victory) = match team {
        Team::Player => (
            AnimationType::SlimeMoveSmallJump,
            AnimationType::SlimeDeath,
            AnimationType::SlimeJumpIdle,
        ),
        Team::Enemy => (
            AnimationType::EnemySlimeMoveSmallJump,
            AnimationType::EnemySlimeDeath,
            AnimationType::EnemySlimeJumpIdle,
        ),
    };
    Unit {
        pos: Pos { x, y },
        team,
        strategy: PickTargetStrategy::Close,
        health,
        speed: 125_000,
        target: None,
        active_attack: None,
        merge: MergeState::Lone,
        merged: false,
        inert: false,
        stun_ms: None,
        dying: false,
        animation: Some(fresh_animation(idle)),
        current_clip: idle,
        idle_animation: idle,
        death_animation: death,
        victory_animation: victory,
        stun_vfx: false,
        merge_alert_vfx: false,
    }
}

fn plain_battle(units: Vec<Unit>) -> Battle {
    let mut b = Battle::new(quiet_config());
    for u in units {
        b.world.units.push(Some(u));
        b.world.generations.push(0);
        b.world.attacks.push(KnownAttacks(Vec::new()));
    }
    b
}

#[test]
fn animation_advances_one_frame_per_duration() {
    let mut s = AnimationState::new(100, 5, false);
    assert!(!s.update(99));
    assert_eq!(s.frame_index, 0);
    assert!(!s.update(1));
    assert_eq!(s.frame_index, 1);
    for _ in 0..3 {
        s.update(100);
    }
    assert_eq!(s.frame_index, 4);
    assert!(!s.finished);
    // The final advance parks a non-looping clip on its last frame.
    assert!(s.update(100));
    assert!(s.finished);
    assert_eq!(s.frame_index, 4);
}

#[test]
fn looping_animation_wraps() {
    let mut s = AnimationState::new(100, 3, true);
    for _ in 0..3 {
        s.update(100);
    }
    assert_eq!(s.frame_index, 0);
    assert!(!s.finished);
}

#[test]
fn big_clips_run_at_half_speed() {
    let normal = clip_profile(AnimationType::SlimeAttack);
    let big = clip_profile(AnimationType::BigSlimeAttack);
    assert_eq!(normal.frame_ms, 100);
    assert_eq!(big.frame_ms, 200);
    assert_eq!(normal.frames, big.frames);
    assert!(!big.looping);
}

#[test]
fn targeting_picks_nearest_of_sample() {
    // With at most three candidates, the sample is all of them, so the
    // nearest is chosen deterministically.
    let a = plain_unit(0, 0, Team::Player, 10);
    let e1 = plain_unit(100_000, 0, Team::Enemy, 10);
    let e2 = plain_unit(60_000, 0, Team::Enemy, 10);
    let e3 = plain_unit(80_000, 0, Team::Enemy, 10);
    let mut battle = plain_battle(vec![a, e1, e2, e3]);
    battle.pick_target_system();
    let t = battle.world.units[0].unwrap().target.unwrap();
    assert_eq!(t.index, 2);
}

#[test]
fn targeting_skips_inert_and_dying() {
    let mut a = plain_unit(0, 0, Team::Player, 10);
    a.inert = true;
    let mut b = plain_unit(10_000, 0, Team::Player, 10);
    b.dying = true;
    let e = plain_unit(60_000, 0, Team::Enemy, 10);
    let mut battle = plain_battle(vec![a, b, e]);
    battle.pick_target_system();
    assert!(battle.world.units[0].unwrap().target.is_none());
    assert!(battle.world.units[1].unwrap().target.is_none());
}

#[test]
fn targeting_ignores_dying_candidates() {
    let a = plain_unit(0, 0, Team::Player, 10);
    let mut e = plain_unit(60_000, 0, Team::Enemy, 10);
    e.dying = true;
    let mut battle = plain_battle(vec![a, e]);
    battle.pick_target_system();
    assert!(battle.world.units[0].unwrap().target.is_none());
}

#[test]
fn seek_stops_at_threshold_and_inert_stays_put() {
    let mut a = plain_unit(0, 0, Team::Player, 10);
    a.target = Some(UnitId { index: 1, generation: 0 });
    let mut b = plain_unit(200_000, 0, Team::Player, 10);
    b.target = Some(UnitId { index: 0, generation: 0 });
    b.inert = true;
    let mut battle = plain_battle(vec![a, b]);
    battle.move_to_target_system(100);
    // 125 units/s over 0.1 s = 12.5 units.
    assert_eq!(battle.world.units[0].unwrap().pos, Pos { x: 12_500, y: 0 });
    // The inert unit has not moved.
    assert_eq!(battle.world.units[1].unwrap().pos, Pos { x: 200_000, y: 0 });
    // Within the stop threshold nobody moves.
    let c = {
        let mut c = plain_unit(0, 0, Team::Player, 10);
        c.target = Some(UnitId { index: 1, generation: 0 });
        c
    };
    let d = plain_unit(50_000, 0, Team::Enemy, 10);
    let mut battle2 = plain_battle(vec![c, d]);
    battle2.move_to_target_system(100);
    assert_eq!(battle2.world.units[0].unwrap().pos, Pos { x: 0, y: 0 });
}

#[test]
fn dangling_target_is_dropped() {
    let mut a = plain_unit(0, 0, Team::Player, 10);
    a.target = Some(UnitId { index: 7, generation: 3 });
    let mut battle = plain_battle(vec![a]);
    battle.move_to_target_system(100);
    assert!(battle.world.units[0].unwrap().target.is_none());
}

#[test]
fn separation_pushes_are_equal_and_opposite() {
    let a = plain_unit(0, 0, Team::Player, 10);
    let b = plain_unit(20_000, 0, Team::Enemy, 10);
    let mut battle = plain_battle(vec![a, b]);
    battle.unsmush_system(100);
    let pa = battle.world.units[0].unwrap().pos;
    let pb = battle.world.units[1].unwrap().pos;
    // Both moved, in opposite directions along the axis.
    assert!(pa.x < 0);
    assert!(pb.x > 20_000);
    // Zero net displacement for the pair.
    assert_eq!(pa.x + pb.x, 20_000);
    assert_eq!(pa.y + pb.y, 0);
}

#[test]
fn separation_leaves_distant_pairs_alone() {
    let a = plain_unit(0, 0, Team::Player, 10);
    let b = plain_unit(90_000, 0, Team::Enemy, 10);
    let mut battle = plain_battle(vec![a, b]);
    battle.unsmush_system(100);
    assert_eq!(battle.world.units[0].unwrap().pos, Pos { x: 0, y: 0 });
    assert_eq!(battle.world.units[1].unwrap().pos, Pos { x: 90_000, y: 0 });
}

#[test]
fn knockback_magnitude_matches_configuration() {
    let a = plain_unit(0, 0, Team::Player, 10);
    let b = plain_unit(50_000, 0, Team::Enemy, 10);
    let mut battle = plain_battle(vec![a, b]);
    let hit = OnHitEvent {
        attacker: UnitId { index: 0, generation: 0 },
        target: UnitId { index: 1, generation: 0 },
        effect: AttackEffect {
            damage: 1,
            knockback: 30_000,
            stun_chance_permille: 0,
            stun_duration_ms: 0,
        },
    };
    battle.on_hit_observer(hit);
    // Displaced away from the attacker by exactly the configured distance.
    assert_eq!(battle.world.units[1].unwrap().pos, Pos { x: 80_000, y: 0 });
    assert_eq!(battle.world.units[1].unwrap().health, 9);
}

#[test]
fn knockback_is_frame_rate_independent() {
    // Two battles simulate the same 1.2 seconds at different tick rates; the
    // attacker lands the same hit-frame-synced blow, and the knockback
    // displacement is identical because it never scales by the delta.
    let make = || {
        let mut a = plain_unit(0, 0, Team::Player, 10);
        a.target = Some(UnitId { index: 1, generation: 0 });
        let b = plain_unit(50_000, 0, Team::Enemy, 10);
        let mut battle = plain_battle(vec![a, b]);
        battle.world.attacks[0] = KnownAttacks(vec![Attack {
            animation: AnimationType::SlimeAttack,
            hit_frame: 3,
            on_hit_effect: AttackEffect {
                damage: 2,
                knockback: 25_000,
                stun_chance_permille: 0,
                stun_duration_ms: 0,
            },
            range: 65_000,
        }]);
        battle
    };
    let mut fast = make();
    for _ in 0..24 {
        fast.tick(50);
    }
    let mut slow = make();
    for _ in 0..12 {
        slow.tick(100);
    }
    let fast_pos = fast.world.units[1].unwrap().pos;
    let slow_pos = slow.world.units[1].unwrap().pos;
    assert_eq!(fast_pos, slow_pos);
    assert_eq!(fast_pos, Pos { x: 75_000, y: 0 });
}

#[test]
fn hit_on_despawned_target_is_noop() {
    let a = plain_unit(0, 0, Team::Player, 10);
    let mut battle = plain_battle(vec![a]);
    let before = battle.world.units[0].unwrap();
    let hit = OnHitEvent {
        attacker: UnitId { index: 0, generation: 0 },
        target: UnitId { index: 5, generation: 9 },
        effect: AttackEffect {
            damage: 100,
            knockback: 10_000,
            stun_chance_permille: 1_000,
            stun_duration_ms: 1_000,
        },
    };
    battle.on_hit_observer(hit);
    assert_eq!(battle.world.units[0].unwrap(), before);
    assert!(battle.take_events().is_empty());
}

#[test]
fn kill_random_on_empty_field() {
    let mut battle = plain_battle(vec![]);
    assert!(battle.kill_random().is_none());
}

#[test]
fn kill_random_fells_a_unit() {
    let a = plain_unit(0, 0, Team::Player, 10);
    let mut battle = plain_battle(vec![a]);
    let victim = battle.kill_random().unwrap();
    assert_eq!(victim.index, 0);
    assert_eq!(battle.world.units[0].unwrap().health, 0);
}

#[test]
fn pre_game_pause_releases_all_units() {
    let mut c = quiet_config();
    c.pre_game_ms = 2_000;
    let mut battle = Battle::new(c);
    let mut u = plain_unit(0, 0, Team::Player, 10);
    u.inert = true;
    battle.world.units.push(Some(u));
    battle.world.generations.push(0);
    battle.world.attacks.push(KnownAttacks(Vec::new()));
    battle.tick(1_000);
    assert!(battle.world.units[0].unwrap().inert);
    battle.tick(1_000);
    assert!(!battle.world.units[0].unwrap().inert);
}

#[test]
fn spawn_trickle_drains_queue() {
    let mut battle = Battle::new(quiet_config());
    battle.setup_slime_spawn_system(
        SlimeAmounts { normal_slimes: 2, tanks: 1, wizards: 0 },
        SlimeAmounts { normal_slimes: 1, tanks: 0, wizards: 0 },
    );
    // One spawn per side per interval; three intervals drain both queues.
    for _ in 0..4 {
        battle.tick(100);
    }
    assert!(battle.slimes_to_spawn.is_none());
    let live = battle.world.units.iter().filter(|u| u.is_some()).count();
    assert_eq!(live, 4);
    let players = battle
        .world
        .units
        .iter()
        .filter(|u| matches!(u, Some(x) if x.team == Team::Player))
        .count();
    assert_eq!(players, 3);
    // Tanks spawn after normals, with the tank stat line and a stunning hit.
    let tank = battle
        .world
        .units
        .iter()
        .enumerate()
        .find(|(i, u)| matches!(u, Some(x) if x.team == Team::Player && x.health == 20)
            && battle.world.attacks[*i].0[0].on_hit_effect.stun_chance_permille > 0);
    assert!(tank.is_some());
}
