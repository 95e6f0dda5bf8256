//! Round end: the terminal "one side has no living members" condition.
//!
//! Checked once per tick after the death pipeline, skipped during the
//! pre-game pause, and latched so the round resolves exactly once. On
//! resolution every surviving unit of the winning team switches to its
//! victory clip; presentation (the banner, the restart button) is the
//! caller's business.

use vstd::prelude::*;

verus! {

use crate::battle::{Battle, RoundOutcome, lemma_stat_caps_preserved};
use crate::components::{Team, Unit, lemma_fresh_animation_wf, spec_fresh_animation, unit_wf};
use crate::world::{World, lemma_wf_preserved};

/// Some living member of `team` is on the field (dying ones still count
/// until they despawn).
pub open spec fn team_alive(w: World, team: Team) -> bool {
    exists|i: int| w.live(i) && (#[trigger] w.u(i)).team == team
}

/// The winning team celebrates: each of its units switches to its victory
/// clip.
pub open spec fn victory_switched(s: Option<Unit>, winner: Team) -> Option<Unit> {
    match s {
        Option::None => Option::None,
        Option::Some(u) => Option::Some(
            if u.team == winner {
                Unit {
                    current_clip: u.victory_animation,
                    animation: Option::Some(spec_fresh_animation(u.victory_animation)),
                    ..u
                }
            } else {
                u
            },
        ),
    }
}

/// What the round-end check concludes from the current field.
pub open spec fn spec_round_outcome(b: Battle) -> RoundOutcome {
    if b.pre_game_ms_left > 0 || b.round_over {
        RoundOutcome::Ongoing
    } else if team_alive(b.world, Team::Player) && team_alive(b.world, Team::Enemy) {
        RoundOutcome::Ongoing
    } else if team_alive(b.world, Team::Player) {
        RoundOutcome::Victory
    } else {
        RoundOutcome::Defeat
    }
}

impl Battle {
    /// Resolve the round once a side has no living members: latch the
    /// result, and switch the surviving winners (if any) to their victory
    /// clips. During the pre-game pause, or once latched, this is a no-op
    /// that reports `Ongoing`.
    pub fn check_round_end_system(&mut self) -> (r: RoundOutcome)
        requires
            old(self).wf(),
        ensures
            final(self).wf(),
            r == spec_round_outcome(*old(self)),
            final(self).round_over == (old(self).round_over || !(r is Ongoing)),
            final(self).world.n() == old(self).world.n(),
            final(self).world.generations@ == old(self).world.generations@,
            final(self).world.attacks@ == old(self).world.attacks@,
            r is Ongoing ==> final(self).world.units@ == old(self).world.units@,
            r is Victory ==> forall|i: int|
                0 <= i < old(self).world.n() ==> #[trigger] final(self).world.units@[i]
                    == victory_switched(old(self).world.units@[i], Team::Player),
            r is Defeat && team_alive(old(self).world, Team::Enemy) ==> forall|i: int|
                0 <= i < old(self).world.n() ==> #[trigger] final(self).world.units@[i]
                    == victory_switched(old(self).world.units@[i], Team::Enemy),
            r is Defeat && !team_alive(old(self).world, Team::Enemy) ==> final(self).world.units@
                == old(self).world.units@,
            final(self).config == old(self).config,
            final(self).events == old(self).events,
            final(self).merge_timer_ms == old(self).merge_timer_ms,
            final(self).pre_game_ms_left == old(self).pre_game_ms_left,
            final(self).slimes_to_spawn == old(self).slimes_to_spawn,
            final(self).spawn_timer_ms == old(self).spawn_timer_ms,
    {
        if self.pre_game_ms_left > 0 || self.round_over {
            return RoundOutcome::Ongoing;
        }
        let n = self.world.len();
        let mut has_player = false;
        let mut has_enemy = false;
        let mut i: usize = 0;
        while i < n
            invariant
                old(self).wf(),
                *self == *old(self),
                n == old(self).world.n(),
                has_player == exists|k: int|
                    0 <= k < i && old(self).world.live(k) && (#[trigger] old(self).world.u(
                        k,
                    )).team == Team::Player,
                has_enemy == exists|k: int|
                    0 <= k < i && old(self).world.live(k) && (#[trigger] old(self).world.u(
                        k,
                    )).team == Team::Enemy,
            decreases n - i,
        {
            let slot = self.world.units[i];
            proof {
                if slot is Some {
                    assert(old(self).world.live(i as int));
                    assert(old(self).world.u(i as int) == slot->0);
                }
            }
            match slot {
                Option::Some(u) => {
                    match u.team {
                        Team::Player => {
                            has_player = true;
                        },
                        Team::Enemy => {
                            has_enemy = true;
                        },
                    }
                },
                Option::None => {},
            }
            i = i + 1;
        }
        proof {
            assert(has_player == team_alive(old(self).world, Team::Player));
            assert(has_enemy == team_alive(old(self).world, Team::Enemy));
        }
        if has_player && has_enemy {
            return RoundOutcome::Ongoing;
        }
        self.round_over = true;
        if has_player || has_enemy {
            let winner = if has_player {
                Team::Player
            } else {
                Team::Enemy
            };
            let mut j: usize = 0;
            while j < n
                invariant
                    old(self).wf(),
                    n == old(self).world.n(),
                    self.world.units@.len() == n,
                    self.world.generations@ == old(self).world.generations@,
                    self.world.attacks@ == old(self).world.attacks@,
                    forall|k: int|
                        j <= k < n ==> #[trigger] self.world.units@[k] == old(self).world.units@[k],
                    forall|k: int|
                        0 <= k < j ==> #[trigger] self.world.units@[k] == victory_switched(
                            old(self).world.units@[k],
                            winner,
                        ),
                    self.config == old(self).config,
                    self.events == old(self).events,
                    self.merge_timer_ms == old(self).merge_timer_ms,
                    self.pre_game_ms_left == old(self).pre_game_ms_left,
                    self.round_over,
                    self.slimes_to_spawn == old(self).slimes_to_spawn,
                    self.spawn_timer_ms == old(self).spawn_timer_ms,
                decreases n - j,
            {
                let slot = self.world.units[j];
                match slot {
                    Option::Some(u) => {
                        if u.team == winner {
                            let anim = crate::components::fresh_animation(u.victory_animation);
                            self.world.units.set(
                                j,
                                Option::Some(
                                    Unit {
                                        current_clip: u.victory_animation,
                                        animation: Option::Some(anim),
                                        ..u
                                    },
                                ),
                            );
                        }
                    },
                    Option::None => {},
                }
                j = j + 1;
            }
            proof {
                assert forall|k: int| final(self).world.live(k) <==> old(self).world.live(k) by {
                    if 0 <= k < n {
                        assert(final(self).world.units@[k] == victory_switched(
                            old(self).world.units@[k],
                            winner,
                        ));
                    }
                }
                assert forall|k: int| final(self).world.live(k) implies unit_wf(
                    final(self).world.u(k),
                ) && final(self).world.u(k).merge == old(self).world.u(k).merge by {
                    assert(final(self).world.units@[k] == victory_switched(
                        old(self).world.units@[k],
                        winner,
                    ));
                    assert(old(self).world.live(k));
                    assert(unit_wf(old(self).world.u(k)));
                    lemma_fresh_animation_wf(old(self).world.u(k).victory_animation);
                }
                lemma_wf_preserved(old(self).world, final(self).world);
                assert forall|k: int|
                    final(self).world.live(k) implies (#[trigger] final(self).world.u(k)).merged
                    == old(self).world.u(k).merged && final(self).world.u(k).health == old(
                    self,
                ).world.u(k).health by {
                    assert(final(self).world.units@[k] == victory_switched(
                        old(self).world.units@[k],
                        winner,
                    ));
                }
                lemma_stat_caps_preserved(*old(self), *final(self));
            }
        }
        if has_player {
            RoundOutcome::Victory
        } else {
            RoundOutcome::Defeat
        }
    }
}

/// Worlds with the same slot contents agree on which teams live.
pub proof fn lemma_team_alive_same_units(w1: World, w2: World)
    requires
        w2.units@ == w1.units@,
    ensures
        forall|t: Team| team_alive(w2, t) == team_alive(w1, t),
{
    assert forall|t: Team| team_alive(w2, t) == team_alive(w1, t) by {
        if team_alive(w1, t) {
            let i = choose|i: int| w1.live(i) && (#[trigger] w1.u(i)).team == t;
            assert(w2.live(i) && w2.u(i).team == t);
        }
        if team_alive(w2, t) {
            let i = choose|i: int| w2.live(i) && (#[trigger] w2.u(i)).team == t;
            assert(w1.live(i) && w1.u(i).team == t);
        }
    }
}

/// The victory clip switch changes no unit's liveness or team.
pub proof fn lemma_victory_switch_keeps_teams(w1: World, w2: World, winner: Team)
    requires
        w2.units@.len() == w1.units@.len(),
        forall|i: int|
            0 <= i < w1.n() ==> #[trigger] w2.units@[i] == victory_switched(
                w1.units@[i],
                winner,
            ),
    ensures
        forall|t: Team| team_alive(w2, t) == team_alive(w1, t),
{
    assert forall|t: Team| team_alive(w2, t) == team_alive(w1, t) by {
        if team_alive(w1, t) {
            let i = choose|i: int| w1.live(i) && (#[trigger] w1.u(i)).team == t;
            assert(w2.units@[i] == victory_switched(w1.units@[i], winner));
            assert(w2.live(i) && w2.u(i).team == t);
        }
        if team_alive(w2, t) {
            let i = choose|i: int| w2.live(i) && (#[trigger] w2.u(i)).team == t;
            assert(w2.units@[i] == victory_switched(w1.units@[i], winner));
            assert(w1.live(i) && w1.u(i).team == t);
        }
    }
}

} // verus!
