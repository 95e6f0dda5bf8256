//! The per-unit data model.
//!
//! Transient behaviour ("this entity is currently attacking") is explicit
//! state held in one `Unit` struct: an optional in-flight attack, a
//! three-way merge phase, boolean flags for the inert gate and the death
//! pipeline, and an optional animation. Presence and absence drive every
//! system's eligibility filters, as plain pattern matches with proved
//! exclusivity.

use vstd::prelude::*;

verus! {

use crate::geom::{Pos, in_bounds, MAX_STEP};

/// Milliseconds of simulated time a single tick may cover.
pub const MAX_DT_MS: u64 = 10_000;

/// Cap on a unit's speed in milli-units per second; together with
/// `MAX_DT_MS` it keeps one tick's step below `geom::MAX_STEP`.
pub const MAX_SPEED: i64 = 1_000_000;

/// Cap on an animation clip's frame count.
pub const MAX_FRAMES: usize = 100_000;

/// A weak, generation-tagged reference to a unit slot. It may dangle once the
/// unit despawns; every consumer re-validates it against the arena.
#[derive(Clone, Copy, PartialEq, Eq, Structural, Debug)]
pub struct UnitId {
    pub index: usize,
    pub generation: u64,
}

#[derive(Clone, Copy, PartialEq, Eq, Structural, Debug)]
pub enum Team {
    Player,
    Enemy,
}

#[derive(Clone, Copy, PartialEq, Eq, Structural, Debug)]
pub enum PickTargetStrategy {
    Close,
}

/// Which animation clip a unit is currently showing. The sprite sheets behind
/// each clip are presentation; the simulation only needs each clip's frame
/// count, frame duration and looping behaviour (see `clip_profile`).
#[derive(Clone, Copy, PartialEq, Eq, Structural, Debug)]
pub enum AnimationType {
    SlimeJumpIdle,
    SlimeAttack,
    SlimeMoveSmallJump,
    SlimeHurt,
    SlimeDeath,
    BigSlimeJumpIdle,
    BigSlimeAttack,
    BigSlimeDeath,
    EnemySlimeJumpIdle,
    EnemySlimeAttack,
    EnemySlimeMoveSmallJump,
    EnemySlimeHurt,
    EnemySlimeDeath,
    EnemyBigSlimeJumpIdle,
    EnemyBigSlimeAttack,
    EnemyBigSlimeDeath,
}

/// Frame timing of one clip: milliseconds per frame, frame count, looping.
#[derive(Clone, Copy, PartialEq, Eq, Structural, Debug)]
pub struct ClipProfile {
    pub frame_ms: u64,
    pub frames: usize,
    pub looping: bool,
}

/// The timing table for every clip. "Big" variants reuse the normal sheets at
/// twice the frame duration, which is what makes merged slimes lumber; enemy
/// variants are recolours with identical timing.
pub open spec fn spec_clip_profile(t: AnimationType) -> ClipProfile {
    match t {
        AnimationType::SlimeJumpIdle => ClipProfile { frame_ms: 100, frames: 6, looping: true },
        AnimationType::SlimeAttack => ClipProfile { frame_ms: 100, frames: 5, looping: false },
        AnimationType::SlimeMoveSmallJump => ClipProfile {
            frame_ms: 100,
            frames: 6,
            looping: true,
        },
        AnimationType::SlimeHurt => ClipProfile { frame_ms: 100, frames: 3, looping: false },
        AnimationType::SlimeDeath => ClipProfile { frame_ms: 100, frames: 6, looping: false },
        AnimationType::BigSlimeJumpIdle => ClipProfile { frame_ms: 200, frames: 6, looping: true },
        AnimationType::BigSlimeAttack => ClipProfile { frame_ms: 200, frames: 5, looping: false },
        AnimationType::BigSlimeDeath => ClipProfile { frame_ms: 200, frames: 6, looping: false },
        AnimationType::EnemySlimeJumpIdle => ClipProfile {
            frame_ms: 100,
            frames: 6,
            looping: true,
        },
        AnimationType::EnemySlimeAttack => ClipProfile { frame_ms: 100, frames: 5, looping: false },
        AnimationType::EnemySlimeMoveSmallJump => ClipProfile {
            frame_ms: 100,
            frames: 6,
            looping: true,
        },
        AnimationType::EnemySlimeHurt => ClipProfile { frame_ms: 100, frames: 3, looping: false },
        AnimationType::EnemySlimeDeath => ClipProfile { frame_ms: 100, frames: 6, looping: false },
        AnimationType::EnemyBigSlimeJumpIdle => ClipProfile {
            frame_ms: 200,
            frames: 6,
            looping: true,
        },
        AnimationType::EnemyBigSlimeAttack => ClipProfile {
            frame_ms: 200,
            frames: 5,
            looping: false,
        },
        AnimationType::EnemyBigSlimeDeath => ClipProfile {
            frame_ms: 200,
            frames: 6,
            looping: false,
        },
    }
}

pub fn clip_profile(t: AnimationType) -> (p: ClipProfile)
    ensures
        p == spec_clip_profile(t),
{
    match t {
        AnimationType::SlimeJumpIdle => ClipProfile { frame_ms: 100, frames: 6, looping: true },
        AnimationType::SlimeAttack => ClipProfile { frame_ms: 100, frames: 5, looping: false },
        AnimationType::SlimeMoveSmallJump => ClipProfile {
            frame_ms: 100,
            frames: 6,
            looping: true,
        },
        AnimationType::SlimeHurt => ClipProfile { frame_ms: 100, frames: 3, looping: false },
        AnimationType::SlimeDeath => ClipProfile { frame_ms: 100, frames: 6, looping: false },
        AnimationType::BigSlimeJumpIdle => ClipProfile { frame_ms: 200, frames: 6, looping: true },
        AnimationType::BigSlimeAttack => ClipProfile { frame_ms: 200, frames: 5, looping: false },
        AnimationType::BigSlimeDeath => ClipProfile { frame_ms: 200, frames: 6, looping: false },
        AnimationType::EnemySlimeJumpIdle => ClipProfile {
            frame_ms: 100,
            frames: 6,
            looping: true,
        },
        AnimationType::EnemySlimeAttack => ClipProfile { frame_ms: 100, frames: 5, looping: false },
        AnimationType::EnemySlimeMoveSmallJump => ClipProfile {
            frame_ms: 100,
            frames: 6,
            looping: true,
        },
        AnimationType::EnemySlimeHurt => ClipProfile { frame_ms: 100, frames: 3, looping: false },
        AnimationType::EnemySlimeDeath => ClipProfile { frame_ms: 100, frames: 6, looping: false },
        AnimationType::EnemyBigSlimeJumpIdle => ClipProfile {
            frame_ms: 200,
            frames: 6,
            looping: true,
        },
        AnimationType::EnemyBigSlimeAttack => ClipProfile {
            frame_ms: 200,
            frames: 5,
            looping: false,
        },
        AnimationType::EnemyBigSlimeDeath => ClipProfile {
            frame_ms: 200,
            frames: 6,
            looping: false,
        },
    }
}

/// Every clip in the table has sane timing.
pub proof fn lemma_clip_profile_wf(t: AnimationType)
    ensures
        1 <= spec_clip_profile(t).frame_ms,
        1 <= spec_clip_profile(t).frames <= MAX_FRAMES,
{
}

/// Per-unit frame state: which frame is showing, how long it has shown, and
/// whether a non-looping clip has run to its end.
#[derive(Clone, Copy, PartialEq, Eq, Structural, Debug)]
pub struct AnimationState {
    pub frame_index: usize,
    pub frame_timer_ms: u64,
    pub frame_duration_ms: u64,
    pub total_frames: usize,
    pub looping: bool,
    pub finished: bool,
}

pub open spec fn anim_wf(s: AnimationState) -> bool {
    &&& 1 <= s.frame_duration_ms
    &&& s.total_frames <= MAX_FRAMES
    &&& if s.total_frames == 0 {
        s.frame_index == 0
    } else {
        s.frame_index < s.total_frames
    }
}

/// One tick of animation time: accumulate the delta, and advance by at most
/// one frame once the accumulated time covers a frame's duration. A
/// non-looping clip parks on its last frame and reports `finished`.
pub open spec fn anim_step(s: AnimationState, dt_ms: u64) -> AnimationState {
    if s.finished || s.total_frames == 0 {
        s
    } else {
        let t = s.frame_timer_ms.saturating_add(dt_ms);
        if t >= s.frame_duration_ms {
            let rest = (t - s.frame_duration_ms) as u64;
            if s.frame_index + 1 >= s.total_frames {
                if s.looping {
                    AnimationState { frame_index: 0, frame_timer_ms: rest, ..s }
                } else {
                    AnimationState {
                        frame_index: (s.total_frames - 1) as usize,
                        frame_timer_ms: rest,
                        finished: true,
                        ..s
                    }
                }
            } else {
                AnimationState {
                    frame_index: (s.frame_index + 1) as usize,
                    frame_timer_ms: rest,
                    ..s
                }
            }
        } else {
            AnimationState { frame_timer_ms: t, ..s }
        }
    }
}

/// Whether one tick of animation time makes a non-looping clip finish.
pub open spec fn anim_step_finishes(s: AnimationState, dt_ms: u64) -> bool {
    &&& !s.finished
    &&& s.total_frames > 0
    &&& s.frame_timer_ms.saturating_add(dt_ms) >= s.frame_duration_ms
    &&& s.frame_index + 1 >= s.total_frames
    &&& !s.looping
}

impl AnimationState {
    pub fn new(frame_duration_ms: u64, total_frames: usize, looping: bool) -> (s: AnimationState)
        requires
            1 <= frame_duration_ms,
            total_frames <= MAX_FRAMES,
        ensures
            s == (AnimationState {
                frame_index: 0,
                frame_timer_ms: 0,
                frame_duration_ms,
                total_frames,
                looping,
                finished: false,
            }),
            anim_wf(s),
    {
        AnimationState {
            frame_index: 0,
            frame_timer_ms: 0,
            frame_duration_ms,
            total_frames,
            looping,
            finished: false,
        }
    }

    /// Advance this state by `dt_ms`; the result says whether the clip
    /// finished on this very tick.
    pub fn update(&mut self, dt_ms: u64) -> (finished_now: bool)
        requires
            anim_wf(*old(self)),
        ensures
            *final(self) == anim_step(*old(self), dt_ms),
            finished_now == anim_step_finishes(*old(self), dt_ms),
            anim_wf(*final(self)),
    {
        if self.finished || self.total_frames == 0 {
            return false;
        }
        let t = self.frame_timer_ms.saturating_add(dt_ms);
        if t >= self.frame_duration_ms {
            self.frame_timer_ms = t - self.frame_duration_ms;
            if self.frame_index + 1 >= self.total_frames {
                if self.looping {
                    self.frame_index = 0;
                } else {
                    self.frame_index = self.total_frames - 1;
                    self.finished = true;
                    return true;
                }
            } else {
                self.frame_index = self.frame_index + 1;
            }
        } else {
            self.frame_timer_ms = t;
        }
        false
    }
}

/// A fresh animation state for a clip, as created whenever a unit switches to
/// that clip.
pub open spec fn spec_fresh_animation(t: AnimationType) -> AnimationState {
    AnimationState {
        frame_index: 0,
        frame_timer_ms: 0,
        frame_duration_ms: spec_clip_profile(t).frame_ms,
        total_frames: spec_clip_profile(t).frames,
        looping: spec_clip_profile(t).looping,
        finished: false,
    }
}

pub proof fn lemma_fresh_animation_wf(t: AnimationType)
    ensures
        anim_wf(spec_fresh_animation(t)),
{
    lemma_clip_profile_wf(t);
}

pub fn fresh_animation(t: AnimationType) -> (s: AnimationState)
    ensures
        s == spec_fresh_animation(t),
        anim_wf(s),
{
    let p = clip_profile(t);
    proof {
        lemma_clip_profile_wf(t);
    }
    AnimationState::new(p.frame_ms, p.frames, p.looping)
}

/// What one landed hit does: damage, an instant knockback displacement, and a
/// chance (in thousandths) of stunning the target for a while.
#[derive(Clone, Copy, PartialEq, Eq, Structural, Debug)]
pub struct AttackEffect {
    pub damage: i32,
    pub knockback: i64,
    pub stun_chance_permille: u32,
    pub stun_duration_ms: u64,
}

/// One attack a unit knows: the clip to play, the 0-indexed frame of that
/// clip on which damage lands, the effect of a hit, and the reach.
#[derive(Clone, Copy, PartialEq, Eq, Structural, Debug)]
pub struct Attack {
    pub animation: AnimationType,
    pub hit_frame: usize,
    pub on_hit_effect: AttackEffect,
    pub range: i64,
}

pub open spec fn attack_wf(a: Attack) -> bool {
    &&& 0 <= a.on_hit_effect.damage
    &&& 0 <= a.on_hit_effect.knockback <= MAX_STEP
    &&& a.on_hit_effect.stun_chance_permille <= 1000
    &&& 0 <= a.range <= crate::geom::MAX_COORD
}

/// Cap on the size of a move list.
pub const MAX_ATTACKS: usize = 1_000;

/// A unit's immutable move list.
#[derive(Clone, PartialEq, Eq, Debug)]
pub struct KnownAttacks(pub Vec<Attack>);

pub open spec fn known_attacks_wf(k: KnownAttacks) -> bool {
    &&& k.0@.len() <= MAX_ATTACKS
    &&& forall|i: int| 0 <= i < k.0@.len() ==> attack_wf(#[trigger] k.0@[i])
}

/// The attack a unit is in the middle of performing, with the flag that keeps
/// its hit from being applied more than once.
#[derive(Clone, Copy, PartialEq, Eq, Structural, Debug)]
pub struct ActiveAttack {
    pub attack: Attack,
    pub target: UnitId,
    pub hit_triggered: bool,
}

/// The merge phase a unit is in. `PreMerging` is the frozen telegraph;
/// `Merging` is the walk to the shared meeting point. Both carry the partner
/// and the meeting point fixed at pairing time.
#[derive(Clone, Copy, PartialEq, Eq, Structural, Debug)]
pub enum MergeState {
    Lone,
    PreMerging { remaining_ms: u64, partner: UnitId, meeting_point: Pos },
    Merging { partner: UnitId, meeting_point: Pos },
}

impl MergeState {
    /// The partner handle, for either in-progress phase.
    pub open spec fn spec_partner(self) -> Option<UnitId> {
        match self {
            MergeState::Lone => Option::None,
            MergeState::PreMerging { partner, .. } => Option::Some(partner),
            MergeState::Merging { partner, .. } => Option::Some(partner),
        }
    }

    pub fn is_lone(self) -> (b: bool)
        ensures
            b == (self is Lone),
    {
        match self {
            MergeState::Lone => true,
            MergeState::PreMerging { .. } => false,
            MergeState::Merging { .. } => false,
        }
    }

    pub fn partner(self) -> (r: Option<UnitId>)
        ensures
            r == self.spec_partner(),
    {
        match self {
            MergeState::Lone => Option::None,
            MergeState::PreMerging { partner, .. } => Option::Some(partner),
            MergeState::Merging { partner, .. } => Option::Some(partner),
        }
    }
}

/// One combatant. Each transient marker is an explicit field: `inert` for
/// the stun gate, `dying` for the death pipeline, `merged` for the
/// permanent post-merge tag, and the two option/enum fields for the attack
/// and merge state machines.
#[derive(Clone, Copy, PartialEq, Eq, Structural, Debug)]
pub struct Unit {
    pub pos: Pos,
    pub team: Team,
    pub strategy: PickTargetStrategy,
    pub health: i32,
    pub speed: i64,
    pub target: Option<UnitId>,
    pub active_attack: Option<ActiveAttack>,
    pub merge: MergeState,
    pub merged: bool,
    pub inert: bool,
    pub stun_ms: Option<u64>,
    pub dying: bool,
    pub animation: Option<AnimationState>,
    pub current_clip: AnimationType,
    pub idle_animation: AnimationType,
    pub death_animation: AnimationType,
    pub victory_animation: AnimationType,
    pub stun_vfx: bool,
    pub merge_alert_vfx: bool,
}

/// Per-unit well-formedness, independent of the arena it lives in.
pub open spec fn unit_wf(u: Unit) -> bool {
    &&& in_bounds(u.pos)
    &&& 0 <= u.health
    &&& 0 <= u.speed <= MAX_SPEED
    &&& match u.animation {
        Option::Some(s) => anim_wf(s),
        Option::None => true,
    }
    &&& match u.active_attack {
        Option::Some(a) => attack_wf(a.attack),
        Option::None => true,
    }
    &&& match u.merge {
        MergeState::Lone => true,
        MergeState::PreMerging { meeting_point, .. } => in_bounds(meeting_point),
        MergeState::Merging { meeting_point, .. } => in_bounds(meeting_point),
    }
}

/// A unit never attacks while it telegraphs or walks a merge.
pub open spec fn attack_merge_exclusive(u: Unit) -> bool {
    u.active_attack is Some ==> u.merge is Lone
}

/// Notifications for presentation collaborators (audio, VFX, UI), emitted in
/// tick order.
#[derive(Clone, Copy, PartialEq, Eq, Structural, Debug)]
pub enum GameEvent {
    Damaged { entity: UnitId, amount: i32 },
    Stunned { entity: UnitId },
}

/// A resolved hit waiting to be applied: who hit whom, with what effect.
#[derive(Clone, Copy, PartialEq, Eq, Structural, Debug)]
pub struct OnHitEvent {
    pub attacker: UnitId,
    pub target: UnitId,
    pub effect: AttackEffect,
}

} // verus!
