//! Movement: seeking the current target, and pairwise separation.
//!
//! Seek reads every target position from a snapshot taken before anything
//! moves, so no mover's step depends on another mover's step in the same
//! tick. Separation works the same way: all pairwise pushes are computed from
//! one position snapshot and applied afterwards, and a pair's two pushes are
//! exactly opposite, so a separated pair suffers zero net displacement.

use vstd::prelude::*;

verus! {

use crate::battle::{Battle, MAX_UNITS, lemma_stat_caps_preserved};
use crate::components::{MAX_DT_MS, MAX_SPEED, Unit, unit_wf};
use crate::config::{Config, config_wf};
use crate::geom::{
    MAX_COORD, MAX_STEP, Pos, apply_offset, displaced, dist2, dist2_exec, in_bounds, isqrt,
    lemma_abs_mul_bound, lemma_dist2_bounded, lemma_offset_toward_bounded,
    lemma_sqrt_floor_bounds, offset_toward, offset_toward_exec, sq, sqrt_floor,
};
use crate::world::{World, lemma_wf_preserved};
use vstd::arithmetic::div_mod::{lemma_div_by_multiple, lemma_div_is_ordered, lemma_div_pos_is_pos};

/// One tick's travel budget in milli-units: speed is per second, the delta
/// per millisecond.
pub open spec fn step_magnitude(speed: int, dt_ms: u64) -> int {
    speed * dt_ms / 1000
}

/// A tick's step never exceeds the global displacement cap.
pub proof fn lemma_step_magnitude_bounded(speed: int, dt_ms: u64)
    requires
        0 <= speed <= MAX_SPEED,
        dt_ms <= MAX_DT_MS,
    ensures
        0 <= step_magnitude(speed, dt_ms) <= MAX_STEP,
{
    lemma_abs_mul_bound(speed, dt_ms as int, MAX_SPEED as int, MAX_DT_MS as int);
    assert(1_000_000 * 10_000 == 10_000_000_000int) by (nonlinear_arith);
    assert(speed * dt_ms >= 0) by (nonlinear_arith)
        requires speed >= 0, dt_ms >= 0;
    lemma_div_pos_is_pos(speed * dt_ms, 1000);
    lemma_div_is_ordered(speed * dt_ms, 10_000_000_000, 1000);
}

/// The exact step: from the travel budget, clipped by the stop threshold.
pub open spec fn seek_step(cfg: Config, u: Unit, tpos: Pos, dt_ms: u64) -> Pos {
    if dist2(u.pos, tpos) > cfg.stop_distance * cfg.stop_distance {
        displaced(u.pos, offset_toward(u.pos, tpos, step_magnitude(u.speed as int, dt_ms)))
    } else {
        u.pos
    }
}

/// Eligible for proactive movement: not inert, not dying, not in a merge.
pub open spec fn seek_eligible(u: Unit) -> bool {
    &&& !u.inert
    &&& !u.dying
    &&& u.merge is Lone
}

/// What the seek pass does to one slot, all positions read from the old
/// world: a dangled target is dropped (an ordinary state transition, not an
/// error), an eligible unit beyond the stop threshold advances toward its
/// target's snapshotted position.
pub open spec fn sought(w: World, cfg: Config, i: int, dt_ms: u64) -> Option<Unit>
    recommends
        0 <= i < w.n(),
{
    match w.units@[i] {
        Option::None => Option::None,
        Option::Some(u) => Option::Some(
            match u.target {
                Option::None => u,
                Option::Some(t) => {
                    if !w.valid(t) {
                        Unit { target: Option::None, ..u }
                    } else if seek_eligible(u) {
                        Unit { pos: seek_step(cfg, u, w.u(t.index as int).pos, dt_ms), ..u }
                    } else {
                        u
                    }
                },
            },
        ),
    }
}

/// One slot's seek step, computed against the unmutated world.
fn seek_unit(world: &World, cfg: &Config, i: usize, dt_ms: u64) -> (r: Option<Unit>)
    requires
        world.wf(),
        config_wf(*cfg),
        i < world.n(),
        dt_ms <= MAX_DT_MS,
    ensures
        r == sought(*world, *cfg, i as int, dt_ms),
{
    let slot = world.at(i);
    match slot {
        Option::None => Option::None,
        Option::Some(u) => {
            match u.target {
                Option::None => Option::Some(u),
                Option::Some(t) => {
                    let tslot = world.get(t);
                    match tslot {
                        Option::None => Option::Some(Unit { target: Option::None, ..u }),
                        Option::Some(tu) => {
                            if !u.inert && !u.dying && u.merge.is_lone() {
                                proof {
                                    assert(world.live(i as int));
                                    assert(unit_wf(world.u(i as int)));
                                    assert(world.live(t.index as int));
                                    assert(unit_wf(world.u(t.index as int)));
                                    lemma_abs_mul_bound(
                                        cfg.stop_distance as int,
                                        cfg.stop_distance as int,
                                        MAX_COORD as int,
                                        MAX_COORD as int,
                                    );
                                    lemma_step_magnitude_bounded(u.speed as int, dt_ms);
                                }
                                let d2 = dist2_exec(u.pos, tu.pos);
                                if d2 > cfg.stop_distance * cfg.stop_distance {
                                    let step = (u.speed * (dt_ms as i64)) / 1000;
                                    let off = offset_toward_exec(u.pos, tu.pos, step);
                                    let np = apply_offset(u.pos, off);
                                    Option::Some(Unit { pos: np, ..u })
                                } else {
                                    Option::Some(u)
                                }
                            } else {
                                Option::Some(u)
                            }
                        },
                    }
                },
            }
        },
    }
}


/// The seek pass preserves the battle invariant.
#[verifier::rlimit(100)]
proof fn lemma_seek_wf(b1: Battle, b2: Battle, dt_ms: u64)
    requires
        b1.wf(),
        b2.config == b1.config,
        b2.world.units@.len() == b1.world.units@.len(),
        b2.world.generations@ == b1.world.generations@,
        b2.world.attacks@ == b1.world.attacks@,
        forall|i: int|
            0 <= i < b1.world.n() ==> #[trigger] b2.world.units@[i] == sought(
                b1.world,
                b1.config,
                i,
                dt_ms,
            ),
    ensures
        b2.world.wf(),
        b2.stat_caps(),
{
    assert forall|i: int| b2.world.live(i) <==> b1.world.live(i) by {
        if 0 <= i < b1.world.n() {
            assert(b2.world.units@[i] == sought(b1.world, b1.config, i, dt_ms));
        }
    }
    assert forall|i: int| b2.world.live(i) implies unit_wf(b2.world.u(i)) && b2.world.u(i).merge
        == b1.world.u(i).merge && b2.world.u(i).health == b1.world.u(i).health && b2.world.u(
        i,
    ).merged == b1.world.u(i).merged && b2.world.u(i).dying == b1.world.u(i).dying && (b2.world.u(
        i,
    ).active_attack is Some ==> b2.world.u(i).active_attack == b1.world.u(i).active_attack) && (
    b2.world.u(i).target is Some ==> b2.world.u(i).target == b1.world.u(i).target) by {
        assert(b2.world.units@[i] == sought(b1.world, b1.config, i, dt_ms));
        assert(b1.world.live(i));
        assert(unit_wf(b1.world.u(i)));
    }
    lemma_wf_preserved(b1.world, b2.world);
    lemma_stat_caps_preserved(b1, b2);
}

impl Battle {
    /// Seek: every eligible unit with a live target advances toward it at
    /// its own speed until within the stop threshold; a unit whose target
    /// has despawned has the handle cleared instead, whatever its state.
    /// All target positions come from one pre-move snapshot.
    #[verifier::rlimit(100)]
    pub fn move_to_target_system(&mut self, dt_ms: u64)
        requires
            old(self).wf(),
            dt_ms <= MAX_DT_MS,
        ensures
            final(self).wf(),
            final(self).world.n() == old(self).world.n(),
            final(self).world.generations@ == old(self).world.generations@,
            final(self).world.attacks@ == old(self).world.attacks@,
            forall|i: int|
                0 <= i < old(self).world.n() ==> #[trigger] final(self).world.units@[i] == sought(
                    old(self).world,
                    old(self).config,
                    i,
                    dt_ms,
                ),
            // An inert unit never moves by seeking.
            forall|i: int|
                old(self).world.live(i) && (#[trigger] old(self).world.u(i)).inert
                    ==> final(self).world.u(i).pos == old(self).world.u(i).pos,
            // After the pass, every kept target handle is live.
            forall|i: int|
                final(self).world.live(i) && (#[trigger] final(self).world.u(i)).target is Some
                    ==> final(self).world.valid(final(self).world.u(i).target->0),
            final(self).config == old(self).config,
            final(self).events == old(self).events,
            final(self).merge_timer_ms == old(self).merge_timer_ms,
            final(self).pre_game_ms_left == old(self).pre_game_ms_left,
            final(self).round_over == old(self).round_over,
            final(self).slimes_to_spawn == old(self).slimes_to_spawn,
            final(self).spawn_timer_ms == old(self).spawn_timer_ms,
    {
        let n = self.world.len();
        let mut staged: Vec<Option<Unit>> = Vec::new();
        let mut i: usize = 0;
        while i < n
            invariant
                old(self).wf(),
                *self == *old(self),
                n == old(self).world.n(),
                dt_ms <= MAX_DT_MS,
                staged@.len() == i,
                i <= n,
                forall|k: int|
                    0 <= k < i ==> #[trigger] staged@[k] == sought(
                        old(self).world,
                        old(self).config,
                        k,
                        dt_ms,
                    ),
            decreases n - i,
        {
            let nu = seek_unit(&self.world, &self.config, i, dt_ms);
            staged.push(nu);
            i = i + 1;
        }
        let mut j: usize = 0;
        while j < n
            invariant
                old(self).wf(),
                n == old(self).world.n(),
                staged@.len() == n,
                forall|k: int|
                    0 <= k < n ==> #[trigger] staged@[k] == sought(
                        old(self).world,
                        old(self).config,
                        k,
                        dt_ms,
                    ),
                self.world.units@.len() == n,
                self.world.generations@ == old(self).world.generations@,
                self.world.attacks@ == old(self).world.attacks@,
                forall|k: int|
                    j <= k < n ==> #[trigger] self.world.units@[k] == old(self).world.units@[k],
                forall|k: int|
                    0 <= k < j ==> #[trigger] self.world.units@[k] == sought(
                        old(self).world,
                        old(self).config,
                        k,
                        dt_ms,
                    ),
                self.config == old(self).config,
                self.events == old(self).events,
                self.merge_timer_ms == old(self).merge_timer_ms,
                self.pre_game_ms_left == old(self).pre_game_ms_left,
                self.round_over == old(self).round_over,
                self.slimes_to_spawn == old(self).slimes_to_spawn,
                self.spawn_timer_ms == old(self).spawn_timer_ms,
            decreases n - j,
        {
            let nu = staged[j];
            match nu {
                Option::Some(v) => {
                    self.world.units.set(j, Option::Some(v));
                },
                Option::None => {
                    proof {
                        assert(sought(old(self).world, old(self).config, j as int, dt_ms)
                            is None);
                        assert(old(self).world.units@[j as int] is None);
                    }
                },
            }
            j = j + 1;
        }
        proof {
            lemma_seek_wf(*old(self), *final(self), dt_ms);
            assert forall|i: int|
                old(self).world.live(i) && (#[trigger] old(self).world.u(i)).inert implies final(self).world.u(i).pos == old(self).world.u(i).pos by {
                assert(final(self).world.units@[i] == sought(
                    old(self).world,
                    old(self).config,
                    i,
                    dt_ms,
                ));
            }
            assert forall|i: int|
                final(self).world.live(i) && (#[trigger] final(self).world.u(i)).target
                    is Some implies final(self).world.valid(final(self).world.u(i).target->0) by {
                assert(final(self).world.units@[i] == sought(
                    old(self).world,
                    old(self).config,
                    i,
                    dt_ms,
                ));
                let t = final(self).world.u(i).target->0;
                assert(old(self).world.valid(t));
            }
        }
    }
}

/// The push one unit of an overlapping pair receives, toward itself and away
/// from the other: scaled by how deep the overlap is, the push strength, and
/// the tick's delta. Zero for separated pairs and for (near-)coincident
/// positions.
pub open spec fn spec_pair_push(cfg: Config, a: Pos, b: Pos, dt_ms: u64) -> Pos {
    let d2 = dist2(a, b);
    if d2 < cfg.min_spacing * cfg.min_spacing && d2 > 100 {
        let d = sqrt_floor(d2);
        let full = step_magnitude(cfg.push_strength as int, dt_ms);
        let mag = full * (cfg.min_spacing - d) / (cfg.min_spacing as int);
        offset_toward(b, a, mag)
    } else {
        Pos { x: 0, y: 0 }
    }
}

/// A pair push never exceeds one tick's full push budget on either axis.
pub proof fn lemma_pair_push_bounded(cfg: Config, a: Pos, b: Pos, dt_ms: u64)
    requires
        config_wf(cfg),
        in_bounds(a),
        in_bounds(b),
        dt_ms <= MAX_DT_MS,
    ensures
        -MAX_STEP <= spec_pair_push(cfg, a, b, dt_ms).x <= MAX_STEP,
        -MAX_STEP <= spec_pair_push(cfg, a, b, dt_ms).y <= MAX_STEP,
{
    let d2 = dist2(a, b);
    lemma_dist2_bounded(a, b);
    lemma_step_magnitude_bounded(cfg.push_strength as int, dt_ms);
    let full = step_magnitude(cfg.push_strength as int, dt_ms);
    let min = cfg.min_spacing as int;
    if d2 < min * min && d2 > 100 {
        let d = sqrt_floor(d2);
        lemma_sqrt_floor_bounds(d2);
        assert(d < min) by (nonlinear_arith)
            requires
                0 <= d,
                0 < min,
                d * d <= d2,
                d2 < min * min,
        ;
        let mag = full * (min - d) / min;
        lemma_abs_mul_bound(full, min - d, full, min);
        assert(full * (min - d) >= 0) by (nonlinear_arith)
            requires
                full >= 0,
                min - d >= 0,
        ;
        lemma_div_pos_is_pos(full * (min - d), min);
        lemma_div_is_ordered(full * (min - d), full * min, min);
        lemma_div_by_multiple(full, min);
        assert(full * min == min * full) by (nonlinear_arith);
        assert(0 <= mag <= full);
        lemma_offset_toward_bounded(b, a, mag);
    }
}

/// Zero net displacement for any pair: the two pushes of one pair are exactly
/// opposite.
pub proof fn lemma_pair_push_antisymmetric(cfg: Config, a: Pos, b: Pos, dt_ms: u64)
    requires
        config_wf(cfg),
        in_bounds(a),
        in_bounds(b),
        dt_ms <= MAX_DT_MS,
    ensures
        spec_pair_push(cfg, b, a, dt_ms).x == -spec_pair_push(cfg, a, b, dt_ms).x,
        spec_pair_push(cfg, b, a, dt_ms).y == -spec_pair_push(cfg, a, b, dt_ms).y,
{
    assert(sq(a.x - b.x) == sq(b.x - a.x) && sq(a.y - b.y) == sq(b.y - a.y))
        by (nonlinear_arith);
    assert(dist2(a, b) == dist2(b, a));
    let d2 = dist2(a, b);
    let min = cfg.min_spacing as int;
    lemma_dist2_bounded(a, b);
    lemma_step_magnitude_bounded(cfg.push_strength as int, dt_ms);
    if d2 < min * min && d2 > 100 {
        lemma_sqrt_floor_bounds(d2);
        let d = sqrt_floor(d2);
        assert(d != 0) by {
            if d == 0 {
                assert(d2 < (0 + 1) * (0 + 1));
            }
        }
        let full = step_magnitude(cfg.push_strength as int, dt_ms);
        assert(d < min) by (nonlinear_arith)
            requires
                0 <= d,
                0 < min,
                d * d <= d2,
                d2 < min * min,
        ;
        let mag = full * (min - d) / min;
        lemma_abs_mul_bound(full, min - d, full, min);
        assert(full * (min - d) >= 0) by (nonlinear_arith)
            requires
                full >= 0,
                min - d >= 0,
        ;
        lemma_div_pos_is_pos(full * (min - d), min);
        lemma_div_is_ordered(full * (min - d), full * min, min);
        lemma_div_by_multiple(full, min);
        assert(full * min == min * full) by (nonlinear_arith);
        assert(0 <= mag <= full);
        let dxa = a.x - b.x;
        let dya = a.y - b.y;
        crate::geom::lemma_component_le_sqrt(dxa, d2, d);
        crate::geom::lemma_component_le_sqrt(dya, d2, d);
        crate::geom::lemma_scaled_component_bounded(dxa, d, mag);
        crate::geom::lemma_scaled_component_bounded(dya, d, mag);
        crate::geom::lemma_scaled_component_bounded(-dxa, d, mag);
        crate::geom::lemma_scaled_component_bounded(-dya, d, mag);
        assert((-dxa) * mag == -(dxa * mag) && (-dya) * mag == -(dya * mag))
            by (nonlinear_arith);
        crate::geom::lemma_div_to_zero_neg(dxa * mag, d);
        crate::geom::lemma_div_to_zero_neg(dya * mag, d);
        assert(sqrt_floor(dist2(b, a)) == d);
        assert(b.x - a.x == -dxa && b.y - a.y == -dya);
    }
}

/// The push slot `k` contributes to slot `i` (zero unless both are live and
/// distinct).
pub open spec fn push_contribution(w: World, cfg: Config, i: int, k: int, dt_ms: u64) -> Pos {
    if k != i && w.live(k) && w.live(i) {
        spec_pair_push(cfg, w.u(i).pos, w.u(k).pos, dt_ms)
    } else {
        Pos { x: 0, y: 0 }
    }
}

/// The summed push on slot `i` from all slots below `k`.
pub open spec fn net_push_prefix(w: World, cfg: Config, i: int, k: int, dt_ms: u64) -> (int, int)
    decreases k,
{
    if k <= 0 {
        (0, 0)
    } else {
        let rest = net_push_prefix(w, cfg, i, k - 1, dt_ms);
        let c = push_contribution(w, cfg, i, k - 1, dt_ms);
        (rest.0 + c.x, rest.1 + c.y)
    }
}

/// The summed push stays within `k` full pushes on either axis.
pub proof fn lemma_net_push_prefix_bounded(w: World, cfg: Config, i: int, k: int, dt_ms: u64)
    requires
        w.wf(),
        config_wf(cfg),
        dt_ms <= MAX_DT_MS,
        0 <= k,
    ensures
        -(k * MAX_STEP) <= net_push_prefix(w, cfg, i, k, dt_ms).0 <= k * MAX_STEP,
        -(k * MAX_STEP) <= net_push_prefix(w, cfg, i, k, dt_ms).1 <= k * MAX_STEP,
    decreases k,
{
    if k <= 0 {
    } else {
        lemma_net_push_prefix_bounded(w, cfg, i, k - 1, dt_ms);
        let c = push_contribution(w, cfg, i, k - 1, dt_ms);
        if k - 1 != i && w.live(k - 1) && w.live(i) {
            assert(unit_wf(w.u(i)));
            assert(unit_wf(w.u(k - 1)));
            lemma_pair_push_bounded(cfg, w.u(i).pos, w.u(k - 1).pos, dt_ms);
        }
        assert(-MAX_STEP <= c.x <= MAX_STEP && -MAX_STEP <= c.y <= MAX_STEP);
        assert((k - 1) * MAX_STEP + MAX_STEP == k * MAX_STEP) by (nonlinear_arith);
    }
}

/// Clip one axis of an accumulated push to the per-tick displacement cap.
pub open spec fn clamp_step(v: int) -> int {
    if v < -MAX_STEP {
        -MAX_STEP as int
    } else if v > MAX_STEP {
        MAX_STEP as int
    } else {
        v
    }
}

/// What the separation pass does to one slot: the unit moves by the clipped
/// sum of all its pairwise pushes, computed from the old position snapshot.
pub open spec fn unsmushed(w: World, cfg: Config, i: int, dt_ms: u64) -> Option<Unit>
    recommends
        0 <= i < w.n(),
{
    match w.units@[i] {
        Option::None => Option::None,
        Option::Some(u) => {
            let net = net_push_prefix(w, cfg, i, w.n(), dt_ms);
            Option::Some(
                Unit {
                    pos: displaced(
                        u.pos,
                        Pos { x: clamp_step(net.0) as i64, y: clamp_step(net.1) as i64 },
                    ),
                    ..u
                },
            )
        },
    }
}

/// One pair's push, exactly as `spec_pair_push` specifies.
fn pair_push(cfg: &Config, a: Pos, b: Pos, dt_ms: u64) -> (r: Pos)
    requires
        config_wf(*cfg),
        in_bounds(a),
        in_bounds(b),
        dt_ms <= MAX_DT_MS,
    ensures
        r == spec_pair_push(*cfg, a, b, dt_ms),
        -MAX_STEP <= r.x <= MAX_STEP,
        -MAX_STEP <= r.y <= MAX_STEP,
{
    proof {
        lemma_pair_push_bounded(*cfg, a, b, dt_ms);
        lemma_abs_mul_bound(
            cfg.min_spacing as int,
            cfg.min_spacing as int,
            MAX_COORD as int,
            MAX_COORD as int,
        );
        lemma_step_magnitude_bounded(cfg.push_strength as int, dt_ms);
    }
    let d2 = dist2_exec(a, b);
    if d2 < cfg.min_spacing * cfg.min_spacing && d2 > 100 {
        let d = isqrt(d2);
        proof {
            assert(d < cfg.min_spacing) by (nonlinear_arith)
                requires
                    0 <= d,
                    0 < cfg.min_spacing,
                    d * d <= d2,
                    d2 < cfg.min_spacing * cfg.min_spacing,
            ;
        }
        let full = (cfg.push_strength * (dt_ms as i64)) / 1000;
        proof {
            lemma_abs_mul_bound(
                full as int,
                (cfg.min_spacing - d) as int,
                full as int,
                cfg.min_spacing as int,
            );
            lemma_abs_mul_bound(
                full as int,
                cfg.min_spacing as int,
                MAX_STEP as int,
                MAX_COORD as int,
            );
            assert(10_000_000 * 100_000_000 == 1_000_000_000_000_000int) by (nonlinear_arith);
            assert(full * (cfg.min_spacing - d) >= 0) by (nonlinear_arith)
                requires
                    full >= 0,
                    cfg.min_spacing - d >= 0,
            ;
            lemma_div_pos_is_pos(full as int * (cfg.min_spacing - d) as int, cfg.min_spacing as int);
            lemma_div_is_ordered(
                full as int * (cfg.min_spacing - d) as int,
                full as int * (cfg.min_spacing as int),
                cfg.min_spacing as int,
            );
            lemma_div_by_multiple(full as int, cfg.min_spacing as int);
            assert(full as int * (cfg.min_spacing as int) == (cfg.min_spacing as int) * (
            full as int)) by (nonlinear_arith);
        }
        let mag = (full * (cfg.min_spacing - d)) / cfg.min_spacing;
        offset_toward_exec(b, a, mag)
    } else {
        Pos { x: 0, y: 0 }
    }
}

impl Battle {
    /// Separation: any two units closer than the minimum spacing push each
    /// other apart, the push scaled by overlap depth, strength and delta.
    /// All pushes for the tick come from one position snapshot and are
    /// applied afterwards, so the result is order-independent, and each
    /// pair's two pushes cancel exactly.
    pub fn unsmush_system(&mut self, dt_ms: u64)
        requires
            old(self).wf(),
            dt_ms <= MAX_DT_MS,
        ensures
            final(self).wf(),
            final(self).world.n() == old(self).world.n(),
            final(self).world.generations@ == old(self).world.generations@,
            final(self).world.attacks@ == old(self).world.attacks@,
            forall|i: int|
                0 <= i < old(self).world.n() ==> #[trigger] final(self).world.units@[i]
                    == unsmushed(old(self).world, old(self).config, i, dt_ms),
            final(self).config == old(self).config,
            final(self).events == old(self).events,
            final(self).merge_timer_ms == old(self).merge_timer_ms,
            final(self).pre_game_ms_left == old(self).pre_game_ms_left,
            final(self).round_over == old(self).round_over,
            final(self).slimes_to_spawn == old(self).slimes_to_spawn,
            final(self).spawn_timer_ms == old(self).spawn_timer_ms,
    {
        let n = self.world.len();
        let mut staged: Vec<Option<Unit>> = Vec::new();
        let mut i: usize = 0;
        while i < n
            invariant
                old(self).wf(),
                *self == *old(self),
                n == old(self).world.n(),
                n <= MAX_UNITS,
                dt_ms <= MAX_DT_MS,
                staged@.len() == i,
                i <= n,
                forall|k: int|
                    0 <= k < i ==> #[trigger] staged@[k] == unsmushed(
                        old(self).world,
                        old(self).config,
                        k,
                        dt_ms,
                    ),
            decreases n - i,
        {
            let slot = self.world.units[i];
            match slot {
                Option::None => {
                    staged.push(Option::None);
                },
                Option::Some(u) => {
                    proof {
                        assert(old(self).world.live(i as int));
                        assert(unit_wf(old(self).world.u(i as int)));
                    }
                    let mut netx: i64 = 0;
                    let mut nety: i64 = 0;
                    let mut k: usize = 0;
                    while k < n
                        invariant
                            old(self).wf(),
                            *self == *old(self),
                            n == old(self).world.n(),
                            n <= MAX_UNITS,
                            dt_ms <= MAX_DT_MS,
                            i < n,
                            k <= n,
                            old(self).world.live(i as int),
                            u == old(self).world.u(i as int),
                            netx as int == net_push_prefix(
                                old(self).world,
                                old(self).config,
                                i as int,
                                k as int,
                                dt_ms,
                            ).0,
                            nety as int == net_push_prefix(
                                old(self).world,
                                old(self).config,
                                i as int,
                                k as int,
                                dt_ms,
                            ).1,
                            -(k as int * MAX_STEP) <= netx as int <= k as int * MAX_STEP,
                            -(k as int * MAX_STEP) <= nety as int <= k as int * MAX_STEP,
                        decreases n - k,
                    {
                        proof {
                            assert(k as int * MAX_STEP <= MAX_UNITS as int * MAX_STEP)
                                by (nonlinear_arith)
                                requires
                                    0 <= k as int <= MAX_UNITS as int,
                            ;
                            assert(100_000 * 10_000_000 == 1_000_000_000_000int)
                                by (nonlinear_arith);
                            assert((k as int + 1) * MAX_STEP == k as int * MAX_STEP + MAX_STEP)
                                by (nonlinear_arith);
                        }
                        let c = if k != i {
                            let kslot = self.world.units[k];
                            match kslot {
                                Option::Some(ku) => {
                                    proof {
                                        assert(old(self).world.live(k as int));
                                        assert(unit_wf(old(self).world.u(k as int)));
                                        assert(unit_wf(old(self).world.u(i as int)));
                                        assert(ku == old(self).world.u(k as int));
                                    }
                                    pair_push(&self.config, u.pos, ku.pos, dt_ms)
                                },
                                Option::None => Pos { x: 0, y: 0 },
                            }
                        } else {
                            Pos { x: 0, y: 0 }
                        };
                        proof {
                            assert(c == push_contribution(
                                old(self).world,
                                old(self).config,
                                i as int,
                                k as int,
                                dt_ms,
                            ));
                        }
                        netx = netx + c.x;
                        nety = nety + c.y;
                        k = k + 1;
                    }
                    let cx = if netx < -MAX_STEP {
                        -MAX_STEP
                    } else if netx > MAX_STEP {
                        MAX_STEP
                    } else {
                        netx
                    };
                    let cy = if nety < -MAX_STEP {
                        -MAX_STEP
                    } else if nety > MAX_STEP {
                        MAX_STEP
                    } else {
                        nety
                    };
                    let np = apply_offset(u.pos, Pos { x: cx, y: cy });
                    staged.push(Option::Some(Unit { pos: np, ..u }));
                },
            }
            i = i + 1;
        }
        let mut j: usize = 0;
        while j < n
            invariant
                old(self).wf(),
                n == old(self).world.n(),
                staged@.len() == n,
                forall|k: int|
                    0 <= k < n ==> #[trigger] staged@[k] == unsmushed(
                        old(self).world,
                        old(self).config,
                        k,
                        dt_ms,
                    ),
                self.world.units@.len() == n,
                self.world.generations@ == old(self).world.generations@,
                self.world.attacks@ == old(self).world.attacks@,
                forall|k: int|
                    j <= k < n ==> #[trigger] self.world.units@[k] == old(self).world.units@[k],
                forall|k: int|
                    0 <= k < j ==> #[trigger] self.world.units@[k] == unsmushed(
                        old(self).world,
                        old(self).config,
                        k,
                        dt_ms,
                    ),
                self.config == old(self).config,
                self.events == old(self).events,
                self.merge_timer_ms == old(self).merge_timer_ms,
                self.pre_game_ms_left == old(self).pre_game_ms_left,
                self.round_over == old(self).round_over,
                self.slimes_to_spawn == old(self).slimes_to_spawn,
                self.spawn_timer_ms == old(self).spawn_timer_ms,
            decreases n - j,
        {
            let nu = staged[j];
            match nu {
                Option::Some(v) => {
                    self.world.units.set(j, Option::Some(v));
                },
                Option::None => {
                    proof {
                        assert(unsmushed(old(self).world, old(self).config, j as int, dt_ms)
                            is None);
                        assert(old(self).world.units@[j as int] is None);
                    }
                },
            }
            j = j + 1;
        }
        proof {
            assert forall|i: int| final(self).world.live(i) <==> old(self).world.live(i) by {
                if 0 <= i < n {
                    assert(final(self).world.units@[i] == unsmushed(
                        old(self).world,
                        old(self).config,
                        i,
                        dt_ms,
                    ));
                }
            }
            assert forall|i: int| final(self).world.live(i) implies unit_wf(final(self).world.u(i))
                && final(self).world.u(i).merge == old(self).world.u(i).merge && final(self).world.u(i).target == old(self).world.u(i).target && final(self).world.u(i).active_attack == old(self).world.u(i).active_attack && final(self).world.u(i).dying == old(self).world.u(i).dying
                && final(self).world.u(i).health == old(self).world.u(i).health && final(self).world.u(i).merged == old(self).world.u(i).merged by {
                assert(final(self).world.units@[i] == unsmushed(
                    old(self).world,
                    old(self).config,
                    i,
                    dt_ms,
                ));
                assert(old(self).world.live(i));
                assert(unit_wf(old(self).world.u(i)));
            }
            lemma_wf_preserved(old(self).world, final(self).world);
            lemma_stat_caps_preserved(*old(self), *final(self));
        }
    }
}

} // verus!
