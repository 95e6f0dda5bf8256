//! Targeting: proximity-biased random acquisition.
//!
//! A targetless, eligible unit looks at the opposing team, randomly samples
//! up to three living candidates, and locks onto the nearest of the sample.
//! The bounded sample keeps units from dog-piling the one globally nearest
//! enemy without paying for a full sort each tick. A unit with no opposing
//! candidates simply stays targetless and is re-examined next tick.

use vstd::prelude::*;

verus! {

use crate::battle::{Battle, lemma_stat_caps_preserved};
use crate::components::{PickTargetStrategy, Unit, UnitId, unit_wf};
use crate::geom::{Pos, dist2, dist2_exec};
use crate::rng::rand_index;
use crate::world::{World, lemma_wf_preserved};
use vstd::pervasive::unreached;

/// Ready to acquire a target: no target yet, and not suppressed by the inert
/// gate, the death pipeline or a merge.
pub open spec fn target_eligible(u: Unit) -> bool {
    &&& u.target is None
    &&& !u.inert
    &&& !u.dying
    &&& u.merge is Lone
}

/// Slot `j` is a targeting candidate for the unit in slot `i`: alive, on the
/// opposing team, and not dying.
pub open spec fn is_candidate(w: World, i: int, j: int) -> bool {
    &&& w.live(j)
    &&& w.u(j).team != w.u(i).team
    &&& !w.u(j).dying
}

pub open spec fn has_candidate(w: World, i: int) -> bool {
    exists|j: int| is_candidate(w, i, j)
}

/// Number of targeting candidates for slot `i` among slots below `upto`.
pub open spec fn candidate_count(w: World, i: int, upto: int) -> int
    decreases upto,
{
    if upto <= 0 {
        0
    } else {
        candidate_count(w, i, upto - 1) + if is_candidate(w, i, upto - 1) {
            1int
        } else {
            0int
        }
    }
}

/// Worlds that agree on candidacy agree on the candidate count.
pub proof fn lemma_candidate_count_same(w1: World, w2: World, i: int, upto: int)
    requires
        forall|j: int| is_candidate(w1, i, j) == is_candidate(w2, i, j),
    ensures
        candidate_count(w1, i, upto) == candidate_count(w2, i, upto),
    decreases upto,
{
    if upto > 0 {
        lemma_candidate_count_same(w1, w2, i, upto - 1);
    }
}

/// A proper sample for slot `i`: distinct candidates, as many as exist up
/// to three.
pub open spec fn sample_of(w: World, i: int, s: Seq<UnitId>) -> bool {
    &&& s.len() == if candidate_count(w, i, w.n()) < 3 {
        candidate_count(w, i, w.n())
    } else {
        3
    }
    &&& forall|k: int|
        0 <= k < s.len() ==> w.valid(#[trigger] s[k]) && is_candidate(w, i, s[k].index as int)
    &&& forall|k1: int, k2: int|
        0 <= k1 < s.len() && 0 <= k2 < s.len() && k1 != k2 ==> s[k1] != s[k2]
}

/// `t` is a minimum-distance member of the sample, seen from slot `i`.
pub open spec fn nearest_of_sample(w: World, i: int, t: UnitId, s: Seq<UnitId>) -> bool {
    &&& s.contains(t)
    &&& forall|k: int|
        0 <= k < s.len() ==> dist2(w.u(i).pos, w.u(t.index as int).pos) <= dist2(
            w.u(i).pos,
            w.u((#[trigger] s[k]).index as int).pos,
        )
}

/// What the pass may do to one slot: nothing for an ineligible unit or one
/// with no opposing candidates; otherwise exactly a new target, which is
/// the nearest member of a random sample of up to three live, opposing,
/// non-dying units — a bounded sample, not a full sort.
pub open spec fn retarget_ok(w: World, i: int, s: Option<Unit>) -> bool
    recommends
        0 <= i < w.n(),
{
    match w.units@[i] {
        Option::None => s is None,
        Option::Some(u) => {
            if target_eligible(u) && has_candidate(w, i) {
                exists|t: UnitId, sample: Seq<UnitId>|
                    {
                        &&& s == Option::Some(Unit { target: Option::Some(t), ..u })
                        &&& w.valid(t)
                        &&& is_candidate(w, i, t.index as int)
                        &&& sample_of(w, i, sample)
                        &&& #[trigger] nearest_of_sample(w, i, t, sample)
                    }
            } else {
                s == Option::Some(u)
            }
        },
    }
}

/// Every live opposing non-dying unit, as a handle.
fn collect_candidates(world: &World, i: usize) -> (c: Vec<UnitId>)
    requires
        world.wf(),
        world.live(i as int),
    ensures
        forall|k: int|
            0 <= k < c@.len() ==> world.valid(#[trigger] c@[k]) && is_candidate(
                *world,
                i as int,
                c@[k].index as int,
            ),
        c@.len() > 0 <==> has_candidate(*world, i as int),
        c@.len() <= world.n(),
        c@.len() == candidate_count(*world, i as int, world.n()),
        forall|k1: int, k2: int|
            0 <= k1 < k2 < c@.len() ==> (#[trigger] c@[k1]).index < (#[trigger] c@[k2]).index,
{
    let me = match world.at(i) {
        Option::Some(u) => u,
        Option::None => unreached(),
    };
    let n = world.len();
    let mut c: Vec<UnitId> = Vec::new();
    let mut j: usize = 0;
    while j < n
        invariant
            world.wf(),
            world.live(i as int),
            me == world.u(i as int),
            n == world.n(),
            j <= n,
            forall|k: int|
                0 <= k < c@.len() ==> world.valid(#[trigger] c@[k]) && is_candidate(
                    *world,
                    i as int,
                    c@[k].index as int,
                ),
            c@.len() > 0 <==> exists|l: int| 0 <= l < j && is_candidate(*world, i as int, l),
            c@.len() <= j,
            c@.len() == candidate_count(*world, i as int, j as int),
            forall|k: int| 0 <= k < c@.len() ==> (#[trigger] c@[k]).index < j,
            forall|k1: int, k2: int|
                0 <= k1 < k2 < c@.len() ==> (#[trigger] c@[k1]).index < (#[trigger] c@[k2]).index,
        decreases n - j,
    {
        let slot = world.at(j);
        proof {
            if slot is Some {
                assert(world.live(j as int));
                assert(world.u(j as int) == slot->0);
            }
        }
        match slot {
            Option::Some(cu) => {
                if (match (cu.team, me.team) {
                    (crate::components::Team::Player, crate::components::Team::Enemy) => true,
                    (crate::components::Team::Enemy, crate::components::Team::Player) => true,
                    _ => false,
                }) && !cu.dying {
                    let gen = world.generations[j];
                    c.push(UnitId { index: j, generation: gen });
                    proof {
                        assert(is_candidate(*world, i as int, j as int));
                    }
                } else {
                    proof {
                        assert(!is_candidate(*world, i as int, j as int));
                    }
                }
            },
            Option::None => {
                proof {
                    assert(!is_candidate(*world, i as int, j as int));
                }
            },
        }
        j = j + 1;
    }
    c
}

/// Randomly move up to three candidates to the front: a partial shuffle, so
/// the prefix is an unbiased sample. Every element still comes from the
/// original list.
fn sample_up_to_3(c: &mut Vec<UnitId>) -> (m: usize)
    requires
        old(c)@.len() <= 0x7fff_fffe,
        forall|k1: int, k2: int|
            0 <= k1 < old(c)@.len() && 0 <= k2 < old(c)@.len() && k1 != k2 ==> old(c)@[k1]
                != old(c)@[k2],
    ensures
        final(c)@.len() == old(c)@.len(),
        m == if old(c)@.len() < 3 {
            old(c)@.len()
        } else {
            3
        },
        forall|k: int| 0 <= k < final(c)@.len() ==> old(c)@.contains(#[trigger] final(c)@[k]),
        forall|k1: int, k2: int|
            0 <= k1 < final(c)@.len() && 0 <= k2 < final(c)@.len() && k1 != k2 ==> final(c)@[k1]
                != final(c)@[k2],
{
    let len = c.len();
    let m = if len < 3 {
        len
    } else {
        3
    };
    let mut k: usize = 0;
    while k < m
        invariant
            len == c@.len(),
            c@.len() == old(c)@.len(),
            m <= c@.len() <= 0x7fff_fffe,
            k <= m,
            forall|l: int| 0 <= l < c@.len() ==> old(c)@.contains(#[trigger] c@[l]),
            forall|l1: int, l2: int|
                0 <= l1 < c@.len() && 0 <= l2 < c@.len() && l1 != l2 ==> c@[l1] != c@[l2],
        decreases m - k,
    {
        let ghost before = c@;
        let pick = k + rand_index(len - k);
        let a = c[k];
        let b = c[pick];
        c.set(k, b);
        c.set(pick, a);
        proof {
            // A transposition keeps the entries pairwise distinct.
            assert forall|l1: int, l2: int|
                0 <= l1 < c@.len() && 0 <= l2 < c@.len() && l1 != l2 implies c@[l1] != c@[l2] by {
                let s1: int = if l1 == k as int {
                    pick as int
                } else if l1 == pick as int {
                    k as int
                } else {
                    l1
                };
                let s2: int = if l2 == k as int {
                    pick as int
                } else if l2 == pick as int {
                    k as int
                } else {
                    l2
                };
                assert(c@[l1] == before[s1]);
                assert(c@[l2] == before[s2]);
                assert(s1 != s2);
            }
        }
        k = k + 1;
    }
    m
}

/// The nearest of the first `m` sampled candidates.
fn closest_of(world: &World, from: Pos, c: &Vec<UnitId>, m: usize) -> (t: UnitId)
    requires
        world.wf(),
        crate::geom::in_bounds(from),
        1 <= m <= c@.len(),
        forall|k: int| 0 <= k < c@.len() ==> world.valid(#[trigger] c@[k]),
    ensures
        exists|k: int| 0 <= k < m && c@[k] == t,
        world.valid(t),
        forall|k: int|
            0 <= k < m ==> dist2(from, world.u(t.index as int).pos) <= dist2(
                from,
                world.u((#[trigger] c@[k]).index as int).pos,
            ),
{
    let mut best = c[0];
    proof {
        assert(world.valid(c@[0]));
        assert(world.live(best.index as int));
        assert(unit_wf(world.u(best.index as int)));
    }
    let bu = world.get(best);
    let mut best_d2: i64 = match bu {
        Option::Some(u) => dist2_exec(from, u.pos),
        Option::None => unreached(),
    };
    let mut k: usize = 1;
    while k < m
        invariant
            world.wf(),
            crate::geom::in_bounds(from),
            1 <= m <= c@.len(),
            k <= m,
            forall|l: int| 0 <= l < c@.len() ==> world.valid(#[trigger] c@[l]),
            world.valid(best),
            exists|l: int| 0 <= l < m && c@[l] == best,
            best_d2 == dist2(from, world.u(best.index as int).pos),
            forall|l: int|
                0 <= l < k ==> best_d2 <= dist2(
                    from,
                    world.u((#[trigger] c@[l]).index as int).pos,
                ),
        decreases m - k,
    {
        let cand = c[k];
        proof {
            assert(world.valid(c@[k as int]));
            assert(world.live(cand.index as int));
            assert(unit_wf(world.u(cand.index as int)));
        }
        let cu = world.get(cand);
        match cu {
            Option::Some(u) => {
                let d2 = dist2_exec(from, u.pos);
                if d2 < best_d2 {
                    best = cand;
                    best_d2 = d2;
                }
            },
            Option::None => {
                unreached::<()>();
            },
        }
        k = k + 1;
    }
    best
}

impl Battle {
    /// Assign a target to every eligible, targetless unit: sample up to
    /// three living opposing units at random and lock onto the nearest of
    /// the sample. No-op for a unit with no opposing candidates.
    #[verifier::rlimit(100)]
    pub fn pick_target_system(&mut self)
        requires
            old(self).wf(),
        ensures
            final(self).wf(),
            final(self).world.n() == old(self).world.n(),
            final(self).world.generations@ == old(self).world.generations@,
            final(self).world.attacks@ == old(self).world.attacks@,
            forall|i: int|
                0 <= i < old(self).world.n() ==> retarget_ok(
                    old(self).world,
                    i,
                    #[trigger] final(self).world.units@[i],
                ),
            // An inert unit never gains a target here.
            forall|i: int|
                old(self).world.live(i) && (#[trigger] old(self).world.u(i)).inert
                    ==> final(self).world.units@[i] == old(self).world.units@[i],
            final(self).config == old(self).config,
            final(self).events == old(self).events,
            final(self).merge_timer_ms == old(self).merge_timer_ms,
            final(self).pre_game_ms_left == old(self).pre_game_ms_left,
            final(self).round_over == old(self).round_over,
            final(self).slimes_to_spawn == old(self).slimes_to_spawn,
            final(self).spawn_timer_ms == old(self).spawn_timer_ms,
    {
        let n = self.world.len();
        let mut i: usize = 0;
        while i < n
            invariant
                old(self).wf(),
                n == old(self).world.n(),
                self.world.units@.len() == n,
                self.world.generations@ == old(self).world.generations@,
                self.world.attacks@ == old(self).world.attacks@,
                forall|k: int|
                    i <= k < n ==> #[trigger] self.world.units@[k] == old(self).world.units@[k],
                forall|k: int|
                    0 <= k < i ==> retarget_ok(
                        old(self).world,
                        k,
                        #[trigger] self.world.units@[k],
                    ),
                forall|k: int|
                    old(self).world.live(k) && (#[trigger] old(self).world.u(k)).inert
                        ==> self.world.units@[k] == old(self).world.units@[k],
                self.config == old(self).config,
                self.events == old(self).events,
                self.merge_timer_ms == old(self).merge_timer_ms,
                self.pre_game_ms_left == old(self).pre_game_ms_left,
                self.round_over == old(self).round_over,
                self.slimes_to_spawn == old(self).slimes_to_spawn,
                self.spawn_timer_ms == old(self).spawn_timer_ms,
            decreases n - i,
        {
            let slot = self.world.units[i];
            match slot {
                Option::Some(u) => {
                    proof {
                        assert(old(self).world.live(i as int));
                        assert(old(self).world.u(i as int) == u);
                        assert(unit_wf(old(self).world.u(i as int)));
                    }
                    let eligible = match u.target {
                        Option::None => !u.inert && !u.dying && u.merge.is_lone(),
                        Option::Some(_) => false,
                    };
                    if eligible {
                        match u.strategy {
                            PickTargetStrategy::Close => {
                                // Candidate liveness, teams and dying flags read
                                // identically in the old and current world: only
                                // targets have changed so far.
                                proof {
                                    assert forall|j: int| self.world.live(j) implies (
                                    #[trigger] self.world.u(j)).team == old(self).world.u(j).team
                                        && self.world.u(j).dying == old(self).world.u(j).dying
                                        && self.world.u(j).pos == old(self).world.u(j).pos by {
                                        assert(retarget_ok(
                                            old(self).world,
                                            j,
                                            self.world.units@[j],
                                        ) || self.world.units@[j] == old(self).world.units@[j]);
                                    }
                                    assert forall|j: int| old(self).world.live(j) <==> self.world.live(j) by {
                                        if 0 <= j < n {
                                            assert(retarget_ok(
                                                old(self).world,
                                                j,
                                                self.world.units@[j],
                                            ) || self.world.units@[j] == old(self).world.units@[j]);
                                        }
                                    }
                                }
                                let mut cands = collect_candidates_current(
                                    &self.world,
                                    Ghost(old(self).world),
                                    i,
                                );
                                if cands.len() > 0 {
                                    let ghost pre = cands@;
                                    let m = sample_up_to_3(&mut cands);
                                    let t = closest_of_current(
                                        &self.world,
                                        Ghost(old(self).world),
                                        u.pos,
                                        &cands,
                                        m,
                                    );
                                    proof {
                                        let k = choose|k: int| 0 <= k < m && cands@[k] == t;
                                        assert(pre.contains(cands@[k]));
                                        let l = choose|l: int|
                                            0 <= l < pre.len() && pre[l] == t;
                                        assert(is_candidate(
                                            old(self).world,
                                            i as int,
                                            t.index as int,
                                        ));
                                        assert(old(self).world.valid(t));
                                        // The sample the target was picked
                                        // from, judged against the pass-start
                                        // world.
                                        let sample = cands@.subrange(0, m as int);
                                        assert forall|q: int|
                                            0 <= q < sample.len() implies old(self).world.valid(
                                            #[trigger] sample[q],
                                        ) && is_candidate(
                                            old(self).world,
                                            i as int,
                                            sample[q].index as int,
                                        ) by {
                                            assert(sample[q] == cands@[q]);
                                            assert(pre.contains(cands@[q]));
                                            let l2 = choose|l2: int|
                                                0 <= l2 < pre.len() && pre[l2] == cands@[q];
                                            assert(old(self).world.valid(pre[l2]));
                                        }
                                        assert(sample_of(old(self).world, i as int, sample)) by {
                                            assert(sample.len() == m as int);
                                            assert(pre.len() == candidate_count(
                                                old(self).world,
                                                i as int,
                                                old(self).world.n(),
                                            ));
                                        }
                                        assert(nearest_of_sample(
                                            old(self).world,
                                            i as int,
                                            t,
                                            sample,
                                        )) by {
                                            assert(sample[k] == t);
                                            assert(sample.contains(t));
                                            assert forall|q: int|
                                                0 <= q < sample.len() implies dist2(
                                                old(self).world.u(i as int).pos,
                                                old(self).world.u(t.index as int).pos,
                                            ) <= dist2(
                                                old(self).world.u(i as int).pos,
                                                old(self).world.u(
                                                    (#[trigger] sample[q]).index as int,
                                                ).pos,
                                            ) by {
                                                assert(sample[q] == cands@[q]);
                                                assert(dist2(u.pos, self.world.u(t.index as int).pos)
                                                    <= dist2(
                                                    u.pos,
                                                    self.world.u(cands@[q].index as int).pos,
                                                ));
                                                assert(self.world.valid(cands@[q]));
                                                assert(self.world.live(cands@[q].index as int));
                                                assert(self.world.live(t.index as int));
                                                assert(self.world.u(t.index as int).pos == old(self).world.u(t.index as int).pos);
                                                assert(self.world.u(cands@[q].index as int).pos
                                                    == old(self).world.u(cands@[q].index as int).pos);
                                                assert(old(self).world.u(i as int).pos == u.pos);
                                            }
                                        }
                                    }
                                    self.world.units.set(
                                        i,
                                        Option::Some(Unit { target: Option::Some(t), ..u }),
                                    );
                                    proof {
                                        assert(retarget_ok(
                                            old(self).world,
                                            i as int,
                                            self.world.units@[i as int],
                                        ));
                                    }
                                } else {
                                    proof {
                                        assert(!has_candidate(old(self).world, i as int));
                                        assert(retarget_ok(
                                            old(self).world,
                                            i as int,
                                            self.world.units@[i as int],
                                        ));
                                    }
                                }
                            },
                        }
                    }
                },
                Option::None => {},
            }
            i = i + 1;
        }
        proof {
            assert forall|i: int| final(self).world.live(i) <==> old(self).world.live(i) by {
                if 0 <= i < n {
                    assert(retarget_ok(old(self).world, i, final(self).world.units@[i]));
                }
            }
            assert forall|i: int| final(self).world.live(i) implies unit_wf(final(self).world.u(i))
                && final(self).world.u(i).merge == old(self).world.u(i).merge && final(self).world.u(i).active_attack == old(self).world.u(i).active_attack && final(self).world.u(i).dying == old(self).world.u(i).dying && final(self).world.u(i).health
                == old(self).world.u(i).health && final(self).world.u(i).merged == old(self).world.u(i).merged && (final(self).world.u(i).target is Some ==> final(self).world.u(i).target == old(self).world.u(i).target || final(self).world.valid(
                final(self).world.u(i).target->0,
            )) by {
                assert(retarget_ok(old(self).world, i, final(self).world.units@[i]));
                assert(old(self).world.live(i));
                assert(unit_wf(old(self).world.u(i)));
            }
            lemma_wf_preserved(old(self).world, final(self).world);
            lemma_stat_caps_preserved(*old(self), *final(self));
        }
    }
}

/// `collect_candidates` against the current mid-pass world, whose liveness,
/// teams and dying flags agree with the old snapshot.
fn collect_candidates_current(world: &World, Ghost(snap): Ghost<World>, i: usize) -> (c: Vec<
    UnitId,
>)
    requires
        world.wf(),
        world.live(i as int),
        snap.n() == world.n(),
        snap.generations@ == world.generations@,
        forall|j: int| snap.live(j) <==> world.live(j),
        forall|j: int|
            world.live(j) ==> (#[trigger] world.u(j)).team == snap.u(j).team && world.u(j).dying
                == snap.u(j).dying,
    ensures
        forall|k: int|
            0 <= k < c@.len() ==> snap.valid(#[trigger] c@[k]) && is_candidate(
                snap,
                i as int,
                c@[k].index as int,
            ) && world.valid(c@[k]),
        c@.len() > 0 <==> has_candidate(snap, i as int),
        c@.len() <= world.n(),
        c@.len() == candidate_count(snap, i as int, snap.n()),
        forall|k1: int, k2: int|
            0 <= k1 < c@.len() && 0 <= k2 < c@.len() && k1 != k2 ==> c@[k1] != c@[k2],
{
    let c = collect_candidates(world, i);
    proof {
        assert forall|j: int| is_candidate(snap, i as int, j) == is_candidate(
            *world,
            i as int,
            j,
        ) by {}
        lemma_candidate_count_same(snap, *world, i as int, snap.n());
        assert forall|k1: int, k2: int|
            0 <= k1 < c@.len() && 0 <= k2 < c@.len() && k1 != k2 implies c@[k1] != c@[k2] by {
            if k1 < k2 {
                assert(c@[k1].index < c@[k2].index);
            } else {
                assert(c@[k2].index < c@[k1].index);
            }
        }
        assert forall|k: int| 0 <= k < c@.len() implies snap.valid(#[trigger] c@[k])
            && is_candidate(snap, i as int, c@[k].index as int) by {
            assert(world.valid(c@[k]));
            assert(is_candidate(*world, i as int, c@[k].index as int));
            assert(world.live(c@[k].index as int));
        }
        if c@.len() > 0 {
            assert(is_candidate(*world, i as int, c@[0].index as int));
            assert(is_candidate(snap, i as int, c@[0].index as int));
        }
        if has_candidate(snap, i as int) {
            let j = choose|j: int| is_candidate(snap, i as int, j);
            assert(is_candidate(*world, i as int, j));
            assert(has_candidate(*world, i as int));
        }
    }
    c
}

/// `closest_of`, with validity re-stated against the old snapshot.
fn closest_of_current(
    world: &World,
    Ghost(snap): Ghost<World>,
    from: Pos,
    c: &Vec<UnitId>,
    m: usize,
) -> (t: UnitId)
    requires
        world.wf(),
        crate::geom::in_bounds(from),
        1 <= m <= c@.len(),
        forall|k: int| 0 <= k < c@.len() ==> world.valid(#[trigger] c@[k]),
        snap.n() == world.n(),
        snap.generations@ == world.generations@,
        forall|j: int| snap.live(j) <==> world.live(j),
    ensures
        exists|k: int| 0 <= k < m && c@[k] == t,
        world.valid(t),
        snap.valid(t),
        forall|k: int|
            0 <= k < m ==> dist2(from, world.u(t.index as int).pos) <= dist2(
                from,
                world.u((#[trigger] c@[k]).index as int).pos,
            ),
{
    let t = closest_of(world, from, c, m);
    proof {
        assert(world.live(t.index as int));
        assert(snap.live(t.index as int));
    }
    t
}

} // verus!
