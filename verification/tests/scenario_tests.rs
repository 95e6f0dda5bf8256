use slime_battle::battle::{Battle, RoundOutcome};
use slime_battle::components::{
    ActiveAttack, AnimationType, Attack, AttackEffect, GameEvent, KnownAttacks, MergeState,
    PickTargetStrategy, Team, Unit, UnitId,
};
use slime_battle::config::Config;
use slime_battle::geom::Pos;

fn scenario_config() -> Config {
    let mut c = Config::battle_defaults();
    c.pre_game_ms = 0;
    c.merge_chance_permille = 0;
    c
}

fn scenario_unit(x: i64, y: i64, team: Team, health: i32) -> Unit {
    let (idle, death, victory) = match team {
        Team::Player => (
            AnimationType::SlimeMoveSmallJump,
            AnimationType::SlimeDeath,
            AnimationType::SlimeJumpIdle,
        ),
        Team::Enemy => (
            AnimationType::EnemySlimeMoveSmallJump,
            AnimationType::EnemySlimeDeath,
            AnimationType::EnemySlimeJumpIdle,
        ),
    };
    Unit {
        pos: Pos { x, y },
        team,
        strategy: PickTargetStrategy::Close,
        health,
        speed: 125_000,
        target: None,
        active_attack: None,
        merge: MergeState::Lone,
        merged: false,
        inert: false,
        stun_ms: None,
        dying: false,
        animation: Some(slime_battle::components::fresh_animation(idle)),
        current_clip: idle,
        idle_animation: idle,
        death_animation: death,
        victory_animation: victory,
        stun_vfx: false,
        merge_alert_vfx: false,
    }
}

fn scenario_attack(team: Team, damage: i32, stun_permille: u32) -> Attack {
    Attack {
        animation: match team {
            Team::Player => AnimationType::SlimeAttack,
            Team::Enemy => AnimationType::EnemySlimeAttack,
        },
        hit_frame: 3,
        on_hit_effect: AttackEffect {
            damage,
            knockback: 0,
            stun_chance_permille: stun_permille,
            stun_duration_ms: 1_500,
        },
        range: 65_000,
    }
}

fn scenario_battle(units: Vec<(Unit, Vec<Attack>)>) -> Battle {
    let mut b = Battle::new(scenario_config());
    for (u, moves) in units {
        b.world.units.push(Some(u));
        b.world.generations.push(0);
        b.world.attacks.push(KnownAttacks(moves));
    }
    b
}

fn unit_at(b: &Battle, i: usize) -> Unit {
    b.world.units[i].unwrap()
}

/// Unit A (health 10) attacks unit B (health 10) with a hit-frame-synced
/// attack dealing 8 damage and no stun: after one full attack cycle, B's
/// health is 2, A is unaffected, and A's attack is cleared on cooldown
/// completion.
#[test]
fn attack_cycle_hit_frame_sync() {
    let a = scenario_unit(0, 0, Team::Player, 10);
    let b = scenario_unit(50_000, 0, Team::Enemy, 10);
    let atk = scenario_attack(Team::Player, 8, 0);
    let mut battle = scenario_battle(vec![(a, vec![atk]), (b, vec![])]);
    // Commit, then advance to the hit frame: the clip starts on the commit
    // tick and gains one frame per 100 ms tick.
    for _ in 0..5 {
        battle.tick(100);
    }
    let au = unit_at(&battle, 0);
    let bu = unit_at(&battle, 1);
    assert_eq!(bu.health, 2);
    assert_eq!(au.health, 10);
    // The hit has fired exactly once and is latched.
    assert!(au.active_attack.unwrap().hit_triggered);
    // One more tick finishes the clip: the attack is cleared on cooldown
    // completion, and the freed unit may commit to a fresh attack in the
    // same tick — fresh meaning its hit has not fired.
    battle.tick(100);
    let au = unit_at(&battle, 0);
    match au.active_attack {
        None => {}
        Some(aa) => assert!(!aa.hit_triggered),
    }
    assert_eq!(unit_at(&battle, 1).health, 2);
    // Exactly one damaged notification for the single hit.
    let evs = battle.take_events();
    let damaged: Vec<&GameEvent> = evs
        .iter()
        .filter(|e| matches!(e, GameEvent::Damaged { .. }))
        .collect();
    assert_eq!(damaged.len(), 1);
    match damaged[0] {
        GameEvent::Damaged { amount, .. } => assert_eq!(*amount, 8),
        _ => unreachable!(),
    }
}

/// The hit fires exactly once per attack: while the clip sits past the hit
/// frame, health does not drop again.
#[test]
fn hit_fires_once_per_attack() {
    let a = scenario_unit(0, 0, Team::Player, 10);
    let b = scenario_unit(50_000, 0, Team::Enemy, 100);
    let atk = scenario_attack(Team::Player, 8, 0);
    let mut battle = scenario_battle(vec![(a, vec![atk]), (b, vec![])]);
    // Run right up to the hit frame.
    let mut after_hit = None;
    for _ in 0..6 {
        battle.tick(100);
        let h = unit_at(&battle, 1).health;
        if h < 100 && after_hit.is_none() {
            after_hit = Some(h);
            // One more tick with the clip still past the hit frame.
            battle.tick(100);
            assert_eq!(unit_at(&battle, 1).health, h);
        }
    }
    assert_eq!(after_hit, Some(92));
}

/// Two same-team units in merge range with a certain roll: after the
/// telegraph plus the walk to the meeting point, both originals are gone and
/// one merged unit with the doubled-up stat profile stands at their
/// midpoint.
#[test]
fn merge_scenario_telegraph_walk_execute() {
    let a = scenario_unit(0, 0, Team::Player, 10);
    let b = scenario_unit(40_000, 0, Team::Player, 10);
    let mut battle = scenario_battle(vec![(a, vec![]), (b, vec![])]);
    battle.config.merge_chance_permille = 1_000;
    let live = |bt: &Battle| bt.world.units.iter().filter(|u| u.is_some()).count();
    // Pairing happens at the first merge check (0.5 s) and the telegraph
    // starts counting the same tick; just before it expires both originals
    // still stand.
    for _ in 0..18 {
        battle.tick(100);
    }
    assert_eq!(live(&battle), 2);
    // The partner pointers are mutually symmetric, with one shared meeting
    // point, and neither unit attacks while it telegraphs.
    let u0 = unit_at(&battle, 0);
    let u1 = unit_at(&battle, 1);
    match (u0.merge, u1.merge) {
        (
            MergeState::PreMerging { partner: p0, meeting_point: m0, .. },
            MergeState::PreMerging { partner: p1, meeting_point: m1, .. },
        ) => {
            assert_eq!(p0.index, 1);
            assert_eq!(p1.index, 0);
            assert_eq!(m0, m1);
            assert_eq!(m0, Pos { x: 20_000, y: 0 });
        }
        _ => panic!("both units should be telegraphing"),
    }
    assert!(u0.active_attack.is_none());
    assert!(u1.active_attack.is_none());
    // The telegraph expires, both walk, and the pair executes.
    for _ in 0..3 {
        battle.tick(100);
    }
    assert_eq!(live(&battle), 1);
    assert!(battle.world.units[0].is_none());
    assert!(battle.world.units[1].is_none());
    let merged = battle.world.units[2].unwrap();
    assert!(merged.merged);
    assert_eq!(merged.health, 40);
    assert_eq!(merged.team, Team::Player);
    assert_eq!(merged.pos, Pos { x: 20_000, y: 0 });
    let moves = &battle.world.attacks[2].0;
    assert_eq!(moves.len(), 1);
    assert_eq!(moves[0].on_hit_effect.damage, 8);
    // Strictly stronger than either original.
    assert!(merged.health > 10);
    assert!(moves[0].on_hit_effect.damage > 2);
}

/// B dies while A's attack still aims at it: A's target is cleared at or
/// before B's despawn, and A's next hit-frame check is a harmless no-op.
#[test]
fn dying_target_is_cleared() {
    let mut a = scenario_unit(0, 0, Team::Player, 10);
    let b = scenario_unit(50_000, 0, Team::Enemy, 10);
    let atk = scenario_attack(Team::Player, 8, 0);
    let b_id = UnitId { index: 1, generation: 0 };
    a.target = Some(b_id);
    a.active_attack = Some(ActiveAttack {
        attack: atk,
        target: b_id,
        hit_triggered: false,
    });
    let mut battle = scenario_battle(vec![(a, vec![atk]), (b, vec![])]);
    // B's health is spent before the next tick.
    let mut bu = battle.world.units[1].unwrap();
    bu.health = 0;
    battle.world.units[1] = Some(bu);
    battle.tick(100);
    let au = unit_at(&battle, 0);
    let bu = unit_at(&battle, 1);
    assert!(bu.dying);
    assert!(au.target.is_none());
    // Run until B despawns; A must survive untouched and never panic on its
    // stale attack handle.
    for _ in 0..10 {
        battle.tick(100);
    }
    assert!(battle.world.units[1].is_none());
    let au = unit_at(&battle, 0);
    assert_eq!(au.health, 10);
    assert!(au.target.is_none());
}

/// A unit stunned for 1.5 s: just before expiry it can neither pick a target
/// nor attack; just after, both capabilities return and its animation
/// resumes.
#[test]
fn stun_expires_on_time() {
    let mut c = scenario_unit(0, 0, Team::Enemy, 10);
    c.inert = true;
    c.stun_ms = Some(1_500);
    if let Some(anim) = c.animation.as_mut() {
        anim.finished = true;
    }
    let d = scenario_unit(50_000, 0, Team::Player, 10);
    let atk = scenario_attack(Team::Enemy, 2, 0);
    let mut battle = scenario_battle(vec![(c, vec![atk]), (d, vec![])]);
    battle.tick(1_490);
    let cu = unit_at(&battle, 0);
    assert!(cu.inert);
    assert!(cu.target.is_none());
    assert!(cu.active_attack.is_none());
    battle.tick(20);
    let cu = unit_at(&battle, 0);
    assert!(!cu.inert);
    assert!(cu.stun_ms.is_none());
    assert!(!cu.animation.unwrap().finished);
    battle.tick(100);
    let cu = unit_at(&battle, 0);
    assert!(cu.target.is_some());
    assert!(cu.active_attack.is_some());
}

/// A certain-stun tank hit: damage lands, the target is gated inert with the
/// stun countdown, its attack is cancelled, and a stunned notification goes
/// out.
#[test]
fn tank_stun_applies() {
    let a = scenario_unit(0, 0, Team::Player, 20);
    let mut b = scenario_unit(50_000, 0, Team::Enemy, 10);
    let b_atk = scenario_attack(Team::Enemy, 2, 0);
    b.active_attack = Some(ActiveAttack {
        attack: b_atk,
        target: UnitId { index: 0, generation: 0 },
        hit_triggered: false,
    });
    let tank_atk = scenario_attack(Team::Player, 2, 1_000);
    let mut battle = scenario_battle(vec![(a, vec![tank_atk]), (b, vec![b_atk])]);
    let mut stunned_seen = false;
    for _ in 0..8 {
        battle.tick(100);
        let bu = unit_at(&battle, 1);
        if bu.inert {
            stunned_seen = true;
            assert!(bu.stun_ms.is_some());
            assert!(bu.active_attack.is_none());
            assert!(bu.stun_vfx);
            break;
        }
    }
    assert!(stunned_seen);
    let evs = battle.take_events();
    assert!(evs
        .iter()
        .any(|e| matches!(e, GameEvent::Stunned { .. })));
}

/// A telegraphing unit whose partner starts dying is returned to normal
/// eligibility.
#[test]
fn merge_cancelled_when_partner_dies() {
    let mut a = scenario_unit(0, 0, Team::Player, 10);
    let mut b = scenario_unit(40_000, 0, Team::Player, 10);
    let a_id = UnitId { index: 0, generation: 0 };
    let b_id = UnitId { index: 1, generation: 0 };
    let meet = Pos { x: 20_000, y: 0 };
    a.merge = MergeState::PreMerging {
        remaining_ms: 1_500,
        partner: b_id,
        meeting_point: meet,
    };
    a.animation = None;
    a.merge_alert_vfx = true;
    b.merge = MergeState::PreMerging {
        remaining_ms: 1_500,
        partner: a_id,
        meeting_point: meet,
    };
    b.animation = None;
    b.merge_alert_vfx = true;
    let mut battle = scenario_battle(vec![(a, vec![]), (b, vec![])]);
    let mut bu = battle.world.units[1].unwrap();
    bu.health = 0;
    battle.world.units[1] = Some(bu);
    battle.tick(100);
    battle.tick(100);
    let au = unit_at(&battle, 0);
    assert!(matches!(au.merge, MergeState::Lone));
    assert!(!au.merge_alert_vfx);
    assert!(au.animation.is_some());
}

/// Once a side has no living members the round resolves, and the survivors
/// switch to their victory clips.
#[test]
fn round_end_reports_victory() {
    let a = scenario_unit(0, 0, Team::Player, 10);
    let mut battle = scenario_battle(vec![(a, vec![])]);
    let outcome = battle.tick(100);
    assert_eq!(outcome, RoundOutcome::Victory);
    assert!(battle.round_over);
    let au = unit_at(&battle, 0);
    assert_eq!(au.current_clip, au.victory_animation);
    // The latch holds: later ticks report the round as settled.
    assert_eq!(battle.tick(100), RoundOutcome::Ongoing);
}

/// Mutual annihilation (an empty field) counts as defeat.
#[test]
fn round_end_empty_field_is_defeat() {
    let mut battle = scenario_battle(vec![]);
    assert_eq!(battle.tick(100), RoundOutcome::Defeat);
}
