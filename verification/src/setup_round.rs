//! The inert gate: the pre-game pause and the per-unit stun countdown.
//!
//! `inert` is the single switch that suspends all proactive behaviour of a
//! unit — targeting, seeking and attack selection all test it — without
//! deleting anything. The pre-game timer holds every unit inert for a moment
//! at round start; a stun sets `inert` together with a one-shot countdown
//! that removes it again, unfreezes the animation and despawns the stun
//! visual.

use vstd::prelude::*;

verus! {

use crate::battle::{Battle, all_damage_le};
use crate::components::{AnimationState, Unit, unit_wf};
use crate::world::lemma_wf_preserved;

/// The pre-game pause expiring: every unit's inert gate opens.
pub open spec fn pregame_cleared(s: Option<Unit>) -> Option<Unit> {
    match s {
        Option::None => Option::None,
        Option::Some(u) => Option::Some(Unit { inert: false, ..u }),
    }
}

/// One tick of the stun countdown applied to a slot. On expiry the unit
/// leaves the inert state, drops the timer, resumes its animation and loses
/// the stun visual; otherwise only the remaining time shrinks.
pub open spec fn stun_ticked(s: Option<Unit>, dt_ms: u64) -> Option<Unit> {
    match s {
        Option::None => Option::None,
        Option::Some(u) => Option::Some(
            match u.stun_ms {
                Option::None => u,
                Option::Some(ms) => {
                    let left = ms.saturating_sub(dt_ms);
                    if left == 0 {
                        Unit {
                            inert: false,
                            stun_ms: Option::None,
                            stun_vfx: false,
                            animation: match u.animation {
                                Option::None => Option::None,
                                Option::Some(a) => Option::Some(
                                    AnimationState { finished: false, ..a },
                                ),
                            },
                            ..u
                        }
                    } else {
                        Unit { stun_ms: Option::Some(left), ..u }
                    }
                },
            },
        ),
    }
}

/// One unit's stun countdown step, exactly as `stun_ticked` specifies.
fn stun_tick_unit(u: Unit, dt_ms: u64) -> (r: Unit)
    ensures
        Option::Some(r) == stun_ticked(Option::Some(u), dt_ms),
{
    match u.stun_ms {
        Option::None => u,
        Option::Some(ms) => {
            let left = ms.saturating_sub(dt_ms);
            if left == 0 {
                let anim = match u.animation {
                    Option::Some(a) => Option::Some(AnimationState { finished: false, ..a }),
                    Option::None => Option::None,
                };
                Unit {
                    inert: false,
                    stun_ms: Option::None,
                    stun_vfx: false,
                    animation: anim,
                    ..u
                }
            } else {
                Unit { stun_ms: Option::Some(left), ..u }
            }
        },
    }
}

impl Battle {
    /// Count down the pre-game pause; the moment it expires, open every
    /// unit's inert gate so combat can begin.
    pub fn pre_game_timer_system(&mut self, dt_ms: u64)
        requires
            old(self).wf(),
        ensures
            final(self).wf(),
            final(self).pre_game_ms_left == if old(self).pre_game_ms_left == 0 {
                0u64
            } else {
                old(self).pre_game_ms_left.saturating_sub(dt_ms)
            },
            final(self).world.n() == old(self).world.n(),
            final(self).world.generations@ == old(self).world.generations@,
            final(self).world.attacks@ == old(self).world.attacks@,
            forall|i: int|
                0 <= i < old(self).world.n() ==> #[trigger] final(self).world.units@[i] == if old(
                    self,
                ).pre_game_ms_left > 0 && old(self).pre_game_ms_left.saturating_sub(dt_ms) == 0 {
                    pregame_cleared(old(self).world.units@[i])
                } else {
                    old(self).world.units@[i]
                },
            final(self).config == old(self).config,
            final(self).events == old(self).events,
            final(self).merge_timer_ms == old(self).merge_timer_ms,
            final(self).round_over == old(self).round_over,
            final(self).slimes_to_spawn == old(self).slimes_to_spawn,
            final(self).spawn_timer_ms == old(self).spawn_timer_ms,
    {
        if self.pre_game_ms_left == 0 {
            return ;
        }
        let left = self.pre_game_ms_left.saturating_sub(dt_ms);
        self.pre_game_ms_left = left;
        if left != 0 {
            return ;
        }
        let n = self.world.len();
        let mut i: usize = 0;
        while i < n
            invariant
                old(self).wf(),
                n == old(self).world.n(),
                self.world.units@.len() == n,
                self.world.generations@ == old(self).world.generations@,
                self.world.attacks@ == old(self).world.attacks@,
                forall|j: int|
                    i <= j < n ==> #[trigger] self.world.units@[j] == old(self).world.units@[j],
                forall|j: int|
                    0 <= j < i ==> #[trigger] self.world.units@[j] == pregame_cleared(
                        old(self).world.units@[j],
                    ),
                self.config == old(self).config,
                self.events == old(self).events,
                self.merge_timer_ms == old(self).merge_timer_ms,
                self.pre_game_ms_left == 0,
                self.round_over == old(self).round_over,
                self.slimes_to_spawn == old(self).slimes_to_spawn,
                self.spawn_timer_ms == old(self).spawn_timer_ms,
            decreases n - i,
        {
            let slot = self.world.units[i];
            match slot {
                Option::Some(u) => {
                    self.world.units.set(i, Option::Some(Unit { inert: false, ..u }));
                },
                Option::None => {},
            }
            i = i + 1;
        }
        proof {
            assert forall|i: int| final(self).world.live(i) <==> old(self).world.live(i) by {
                if 0 <= i < n {
                    assert(final(self).world.units@[i] == pregame_cleared(
                        old(self).world.units@[i],
                    ));
                }
            }
            assert forall|i: int| final(self).world.live(i) implies unit_wf(final(self).world.u(i))
                && final(self).world.u(i).merge == old(self).world.u(i).merge by {
                assert(final(self).world.units@[i] == pregame_cleared(old(self).world.units@[i]));
                assert(old(self).world.live(i));
                assert(unit_wf(old(self).world.u(i)));
            }
            lemma_wf_preserved(old(self).world, final(self).world);
            assert forall|i: int|
                final(self).world.live(i) && !(#[trigger] final(self).world.u(i)).merged implies
                final(self).world.u(i).health <= final(self).config.tank_health && all_damage_le(
                final(self).world.attacks@[i],
                final(self).config.base_damage,
            ) by {
                assert(final(self).world.units@[i] == pregame_cleared(old(self).world.units@[i]));
                assert(old(self).world.live(i) && !old(self).world.u(i).merged);
            }
        }
    }

    /// Tick every stunned unit's countdown; on expiry the unit is restored
    /// to normal behaviour in the same tick.
    #[verifier::rlimit(50)]
    pub fn stun_timer_system(&mut self, dt_ms: u64)
        requires
            old(self).wf(),
        ensures
            final(self).wf(),
            final(self).world.n() == old(self).world.n(),
            final(self).world.generations@ == old(self).world.generations@,
            final(self).world.attacks@ == old(self).world.attacks@,
            forall|i: int|
                0 <= i < old(self).world.n() ==> #[trigger] final(self).world.units@[i]
                    == stun_ticked(old(self).world.units@[i], dt_ms),
            final(self).config == old(self).config,
            final(self).events == old(self).events,
            final(self).merge_timer_ms == old(self).merge_timer_ms,
            final(self).pre_game_ms_left == old(self).pre_game_ms_left,
            final(self).round_over == old(self).round_over,
            final(self).slimes_to_spawn == old(self).slimes_to_spawn,
            final(self).spawn_timer_ms == old(self).spawn_timer_ms,
    {
        let n = self.world.len();
        let mut i: usize = 0;
        while i < n
            invariant
                old(self).wf(),
                n == old(self).world.n(),
                self.world.units@.len() == n,
                self.world.generations@ == old(self).world.generations@,
                self.world.attacks@ == old(self).world.attacks@,
                forall|j: int|
                    i <= j < n ==> #[trigger] self.world.units@[j] == old(self).world.units@[j],
                forall|j: int|
                    0 <= j < i ==> #[trigger] self.world.units@[j] == stun_ticked(
                        old(self).world.units@[j],
                        dt_ms,
                    ),
                self.config == old(self).config,
                self.events == old(self).events,
                self.merge_timer_ms == old(self).merge_timer_ms,
                self.pre_game_ms_left == old(self).pre_game_ms_left,
                self.round_over == old(self).round_over,
                self.slimes_to_spawn == old(self).slimes_to_spawn,
                self.spawn_timer_ms == old(self).spawn_timer_ms,
            decreases n - i,
        {
            let slot = self.world.units[i];
            match slot {
                Option::Some(u) => {
                    let nu = stun_tick_unit(u, dt_ms);
                    self.world.units.set(i, Option::Some(nu));
                },
                Option::None => {},
            }
            i = i + 1;
        }
        proof {
            assert forall|i: int| final(self).world.live(i) <==> old(self).world.live(i) by {
                if 0 <= i < n {
                    assert(final(self).world.units@[i] == stun_ticked(
                        old(self).world.units@[i],
                        dt_ms,
                    ));
                }
            }
            assert forall|i: int| final(self).world.live(i) implies unit_wf(final(self).world.u(i))
                && final(self).world.u(i).merge == old(self).world.u(i).merge by {
                assert(final(self).world.units@[i] == stun_ticked(
                    old(self).world.units@[i],
                    dt_ms,
                ));
                assert(old(self).world.live(i));
                assert(unit_wf(old(self).world.u(i)));
            }
            lemma_wf_preserved(old(self).world, final(self).world);
            assert forall|i: int|
                final(self).world.live(i) && !(#[trigger] final(self).world.u(i)).merged implies
                final(self).world.u(i).health <= final(self).config.tank_health && all_damage_le(
                final(self).world.attacks@[i],
                final(self).config.base_damage,
            ) by {
                assert(final(self).world.units@[i] == stun_ticked(
                    old(self).world.units@[i],
                    dt_ms,
                ));
                assert(old(self).world.live(i) && !old(self).world.u(i).merged);
            }
        }
    }
}

} // verus!
