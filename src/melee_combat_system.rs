use vstd::prelude::*;
use crate::components::{CombatStats, EntityRecord};
use crate::world::{damage_non_negative, has_id, ids_unique, World};

verus! {

/// Damage of one blow: attacker's power less defender's defense, never below
/// zero (a blow that cannot get through does no damage).
pub open spec fn melee_damage(attacker: CombatStats, defender: CombatStats) -> int {
    if attacker.power - defender.defense > 0 {
        attacker.power - defender.defense
    } else {
        0
    }
}

/// The combat stats of the record with identifier `id` in `s`, if any.
pub open spec fn stats_by_id(s: Seq<EntityRecord>, id: u64) -> Option<CombatStats>
    decreases s.len(),
{
    if s.len() == 0 {
        None
    } else if s.last().id == id {
        s.last().stats
    } else {
        stats_by_id(s.drop_last(), id)
    }
}

/// The blow that `attacker` deals to entity `id`, looked up in `s`, if any.
pub open spec fn blow(s: Seq<EntityRecord>, attacker: EntityRecord, id: u64) -> Seq<i32> {
    match (attacker.stats, attacker.wants_to_melee, stats_by_id(s, id)) {
        (Some(a), Some(t), Some(d)) => if t == id {
            seq![melee_damage(a, d) as i32]
        } else {
            Seq::empty()
        },
        _ => Seq::empty(),
    }
}

/// The damage the attackers queue onto entity `id`, in the order the
/// attackers stand; `s` is the store the stats are looked up in.
pub open spec fn hits_on(s: Seq<EntityRecord>, attackers: Seq<EntityRecord>, id: u64) -> Seq<i32>
    decreases attackers.len(),
{
    if attackers.len() == 0 {
        Seq::empty()
    } else {
        hits_on(s, attackers.drop_last(), id) + blow(s, attackers.last(), id)
    }
}

/// Every blow's damage fits in an `i32`.
pub open spec fn melee_fits(s: Seq<EntityRecord>) -> bool {
    forall|i: int, j: int|
        0 <= i < s.len() && 0 <= j < s.len() && (#[trigger] s[i]).stats is Some && (#[trigger] s[j]).stats is Some
            ==> s[i].stats.unwrap().power - s[j].stats.unwrap().defense <= i32::MAX
}

/// `after` is `before` once melee resolution has run: every melee intent is
/// consumed, each entity's queue has gained the blows aimed at it, in the
/// order of the attackers, and nothing else changes.
pub open spec fn melee_resolved(before: Seq<EntityRecord>, after: Seq<EntityRecord>) -> bool {
    &&& after.len() == before.len()
    &&& forall|j: int| 0 <= j < before.len() ==> {
        &&& (#[trigger] after[j]).same_identity(&before[j])
        &&& after[j].stats == before[j].stats
        &&& after[j].wants_to_melee is None
        &&& after[j].suffer_damage@ == before[j].suffer_damage@ + hits_on(before, before, before[j].id)
    }
}

proof fn lemma_stats_by_id(s: Seq<EntityRecord>, j: int)
    requires
        ids_unique(s),
        0 <= j < s.len(),
    ensures
        stats_by_id(s, s[j].id) == s[j].stats,
    decreases s.len(),
{
    let t = s.drop_last();
    if j < t.len() {
        assert(s[j] == t[j]);
        assert(s.last() == s[s.len() - 1]);
        assert forall|a: int, b: int| 0 <= a < t.len() && 0 <= b < t.len() && a != b
            implies #[trigger] t[a].id != #[trigger] t[b].id by {
            assert(t[a] == s[a] && t[b] == s[b]);
        }
        lemma_stats_by_id(t, j);
    }
}

proof fn lemma_stats_by_missing_id(s: Seq<EntityRecord>, id: u64)
    requires
        !has_id(s, id),
    ensures
        stats_by_id(s, id) is None,
    decreases s.len(),
{
    if s.len() > 0 {
        let t = s.drop_last();
        assert(s.last() == s[s.len() - 1]);
        assert(!has_id(t, id)) by {
            if has_id(t, id) {
                let k = choose|k: int| 0 <= k < t.len() && #[trigger] t[k].id == id;
                assert(s[k] == t[k]);
            }
        }
        lemma_stats_by_missing_id(t, id);
    }
}

/// The pass that turns melee intents into queued damage.
pub struct MeleeCombatSystem {}

impl MeleeCombatSystem {
    /// Melee resolution: for every entity with combat stats and a melee
    /// intent aimed at a live entity with combat stats, queue
    /// `max(0, power - defense)` onto the target's damage queue. Every intent
    /// is consumed; `hp` is left alone.
    pub fn run(&mut self, ecs: &mut World)
        requires
            old(ecs).wf(),
            melee_fits(old(ecs).entities@),
        ensures
            final(ecs).wf(),
            melee_resolved(old(ecs).entities@, final(ecs).entities@),
            final(ecs).log == old(ecs).log,
            final(ecs).runstate == old(ecs).runstate,
            final(ecs).next_id == old(ecs).next_id,
    {
        let ghost s = ecs.entities@;
        let mut i: usize = 0;
        while i < ecs.entities.len()
            invariant
                ecs.entities@.len() == s.len(),
                i <= s.len(),
                ids_unique(s),
                damage_non_negative(s),
                melee_fits(s),
                forall|j: int| 0 <= j < s.len() ==> s[j].id < ecs.next_id,
                ecs.log == old(ecs).log,
                ecs.runstate == old(ecs).runstate,
                ecs.next_id == old(ecs).next_id,
                forall|j: int| 0 <= j < s.len() ==> {
                    &&& (#[trigger] ecs.entities@[j]).same_identity(&s[j])
                    &&& ecs.entities@[j].stats == s[j].stats
                    &&& ecs.entities@[j].wants_to_melee == if j < i { None } else { s[j].wants_to_melee }
                    &&& ecs.entities@[j].suffer_damage@ == s[j].suffer_damage@ + hits_on(s, s.take(i as int), s[j].id)
                    &&& forall|k: int| 0 <= k < ecs.entities@[j].suffer_damage@.len()
                        ==> #[trigger] ecs.entities@[j].suffer_damage@[k] >= 0
                },
            decreases s.len() - i,
        {
            let ghost cur = ecs.entities@;
            assert(s.take(i + 1).drop_last() =~= s.take(i as int));
            assert(s.take(i + 1).last() == s[i as int]);
            let attacker = ecs.entities[i].stats;
            let intent = ecs.entities[i].wants_to_melee;
            let mut hit_at: Option<usize> = None;
            let mut amount: i32 = 0;
            if let (Some(a), Some(t)) = (attacker, intent) {
                match ecs.index_of(t) {
                    Some(j) => {
                        proof {
                            lemma_stats_by_id(s, j as int);
                        }
                        if let Some(d) = ecs.entities[j].stats {
                            assert(cur[i as int].stats == s[i as int].stats);
                            assert(melee_fits(s) ==> s[i as int].stats.unwrap().power - s[j as int].stats.unwrap().defense <= i32::MAX);
                            let diff: i64 = a.power as i64 - d.defense as i64;
                            amount = if diff > 0 { diff as i32 } else { 0 };
                            hit_at = Some(j);
                        }
                    },
                    None => {
                        proof {
                            assert(!has_id(s, t)) by {
                                if has_id(s, t) {
                                    let k = choose|k: int| 0 <= k < s.len() && #[trigger] s[k].id == t;
                                    assert(cur[k].id == t);
                                }
                            }
                            lemma_stats_by_missing_id(s, t);
                        }
                    },
                }
            }
            if let Some(j) = hit_at {
                ecs.entities[j].suffer_damage.push(amount);
            }
            ecs.entities[i].wants_to_melee = None;
            proof {
                assert forall|j: int| 0 <= j < s.len() implies
                    #[trigger] ecs.entities@[j].suffer_damage@ == s[j].suffer_damage@ + hits_on(s, s.take(i + 1), s[j].id) by {
                    assert(hits_on(s, s.take(i + 1), s[j].id) == hits_on(s, s.take(i as int), s[j].id) + blow(s, s[i as int], s[j].id));
                    lemma_stats_by_id(s, j);
                    match hit_at {
                        Some(h) => {
                            if h as int == j {
                                assert(ecs.entities@[j].suffer_damage@ =~= cur[j].suffer_damage@.push(amount));
                            } else {
                                assert(s[h as int].id != s[j].id);
                            }
                        },
                        None => {},
                    }
                    assert(ecs.entities@[j].suffer_damage@ =~= s[j].suffer_damage@ + hits_on(s, s.take(i + 1), s[j].id));
                }
            }
            i = i + 1;
        }
        assert(s.take(s.len() as int) =~= s);
        assert(ids_unique(ecs.entities@)) by {
            assert(forall|j: int| 0 <= j < s.len() ==> #[trigger] ecs.entities@[j].id == s[j].id);
        }
        assert(forall|j: int| 0 <= j < s.len() ==> #[trigger] ecs.entities@[j].id < ecs.next_id);
    }
}

} // verus!
