use vstd::prelude::*;
use crate::components::EntityRecord;
use crate::world::{damage_non_negative, has_id, ids_unique, log_view, World};

verus! {

/// Sum of the queued amounts.
pub open spec fn sum_damage(s: Seq<i32>) -> int
    decreases s.len(),
{
    if s.len() == 0 {
        0
    } else {
        sum_damage(s.drop_last()) + s.last()
    }
}

/// The record can take its queued damage without `hp` leaving `i32`.
pub open spec fn damage_fits(e: EntityRecord) -> bool {
    match e.stats {
        Some(st) => st.hp - sum_damage(e.suffer_damage@) >= i32::MIN,
        None => true,
    }
}

/// `after` is `before` once its queued damage has been applied: `hp` drops by
/// the sum of the queue where the entity has combat stats, the queue is empty,
/// and nothing else changes.
pub open spec fn resolved(before: EntityRecord, after: EntityRecord) -> bool {
    &&& after.same_identity(&before)
    &&& after.wants_to_melee == before.wants_to_melee
    &&& after.suffer_damage@.len() == 0
    &&& match before.stats {
        Some(st) => after.stats == Some(
            crate::components::CombatStats { hp: (st.hp - sum_damage(before.suffer_damage@)) as i32, ..st },
        ),
        None => after.stats.is_none(),
    }
}

/// `after` is the store `before` once damage resolution has run.
pub open spec fn all_resolved(before: Seq<EntityRecord>, after: Seq<EntityRecord>) -> bool {
    &&& after.len() == before.len()
    &&& forall|i: int| 0 <= i < before.len() ==> resolved(#[trigger] before[i], after[i])
}

proof fn lemma_sum_prefix_bounded(s: Seq<i32>, k: int)
    requires
        0 <= k <= s.len(),
        forall|j: int| 0 <= j < s.len() ==> s[j] >= 0,
    ensures
        0 <= sum_damage(s.take(k)) <= sum_damage(s),
    decreases s.len(),
{
    if s.len() > 0 {
        if k == s.len() {
            assert(s.take(k) =~= s);
            lemma_sum_prefix_bounded(s.drop_last(), k - 1);
            assert(s.drop_last().take(k - 1) =~= s.drop_last());
        } else {
            lemma_sum_prefix_bounded(s.drop_last(), k);
            assert(s.drop_last().take(k) =~= s.take(k));
        }
    }
}

/// The pass that applies the damage queued during a tick.
pub struct DamageSystem {}

/// Applies one record's damage queue to its `hp` and empties the queue.
fn resolve_one(e: &mut EntityRecord)
    requires
        damage_fits(*old(e)),
        forall|j: int| 0 <= j < old(e).suffer_damage@.len() ==> old(e).suffer_damage@[j] >= 0,
    ensures
        resolved(*old(e), *final(e)),
{
    match e.stats {
        Some(st) => {
            let ghost q = e.suffer_damage@;
            let mut hp: i32 = st.hp;
            let mut k: usize = 0;
            while k < e.suffer_damage.len()
                invariant
                    e.suffer_damage@ == q,
                    k <= q.len(),
                    hp == st.hp - sum_damage(q.take(k as int)),
                    st.hp - sum_damage(q) >= i32::MIN,
                    forall|j: int| 0 <= j < q.len() ==> q[j] >= 0,
                decreases q.len() - k,
            {
                proof {
                    lemma_sum_prefix_bounded(q, k + 1);
                    assert(q.take(k + 1).drop_last() =~= q.take(k as int));
                }
                hp = hp - e.suffer_damage[k];
                k = k + 1;
            }
            assert(q.take(q.len() as int) =~= q);
            e.stats = Some(crate::components::CombatStats { hp, ..st });
        },
        None => {},
    }
    e.suffer_damage.clear();
}

impl DamageSystem {
    /// Damage resolution: every entity with combat stats loses the sum of its
    /// queued damage from `hp`, and every queue is emptied, whether or not its
    /// entity has combat stats. No entity is removed.
    pub fn run(&mut self, ecs: &mut World)
        requires
            old(ecs).wf(),
            forall|i: int| 0 <= i < old(ecs).entities@.len() ==> damage_fits(#[trigger] old(ecs).entities@[i]),
        ensures
            final(ecs).wf(),
            all_resolved(old(ecs).entities@, final(ecs).entities@),
            final(ecs).log == old(ecs).log,
            final(ecs).runstate == old(ecs).runstate,
            final(ecs).next_id == old(ecs).next_id,
    {
        let ghost before = ecs.entities@;
        let mut i: usize = 0;
        while i < ecs.entities.len()
            invariant
                ecs.entities@.len() == before.len(),
                i <= before.len(),
                forall|j: int| 0 <= j < i ==> resolved(#[trigger] before[j], ecs.entities@[j]),
                forall|j: int| i <= j < before.len() ==> #[trigger] ecs.entities@[j] == before[j],
                forall|j: int| 0 <= j < before.len() ==> damage_fits(#[trigger] before[j]),
                damage_non_negative(before),
                ecs.log == old(ecs).log,
                ecs.runstate == old(ecs).runstate,
                ecs.next_id == old(ecs).next_id,
            decreases before.len() - i,
        {
            assert(forall|k: int| 0 <= k < before[i as int].suffer_damage@.len()
                ==> #[trigger] before[i as int].suffer_damage@[k] >= 0);
            resolve_one(&mut ecs.entities[i]);
            i = i + 1;
        }
        assert(ids_unique(ecs.entities@)) by {
            assert(forall|j: int| 0 <= j < before.len() ==> #[trigger] ecs.entities@[j].id == before[j].id);
        }
        assert forall|j: int| 0 <= j < before.len() implies #[trigger] ecs.entities@[j].id == before[j].id
            && ecs.entities@[j].suffer_damage@.len() == 0 && ecs.entities@[j].id < ecs.next_id by {
            assert(resolved(before[j], ecs.entities@[j]));
            assert(old(ecs).entities@[j].id < old(ecs).next_id);
        }
        assert(ids_unique(ecs.entities@));
        assert forall|j: int, k: int| 0 <= j < ecs.entities@.len() && 0 <= k < ecs.entities@[j].suffer_damage@.len()
            implies #[trigger] ecs.entities@[j].suffer_damage@[k] >= 0 by {
            assert(resolved(before[j], ecs.entities@[j]));
        }
        assert(forall|j: int| 0 <= j < ecs.entities@.len() ==> #[trigger] ecs.entities@[j].id < ecs.next_id);
    }
}

/// After damage resolution every queue is empty.
pub proof fn lemma_resolution_empties_queues(before: Seq<EntityRecord>, after: Seq<EntityRecord>)
    requires
        all_resolved(before, after),
    ensures
        forall|i: int| 0 <= i < after.len() ==> (#[trigger] after[i]).suffer_damage@.len() == 0,
{
    assert forall|i: int| 0 <= i < after.len() implies (#[trigger] after[i]).suffer_damage@.len() == 0 by {
        assert(resolved(before[i], after[i]));
    }
}

/// Resolving damage a second time, with nothing queued in between, changes no
/// entity's combat stats.
pub proof fn lemma_resolution_idempotent(
    before: Seq<EntityRecord>,
    mid: Seq<EntityRecord>,
    after: Seq<EntityRecord>,
)
    requires
        all_resolved(before, mid),
        all_resolved(mid, after),
    ensures
        after.len() == mid.len(),
        forall|i: int| 0 <= i < mid.len() ==> (#[trigger] after[i]).stats == mid[i].stats,
{
    assert forall|i: int| 0 <= i < mid.len() implies (#[trigger] after[i]).stats == mid[i].stats by {
        assert(resolved(before[i], mid[i]));
        assert(resolved(mid[i], after[i]));
        assert(mid[i].suffer_damage@ =~= Seq::<i32>::empty());
        match mid[i].stats {
            Some(st) => {
                assert(after[i].stats == Some(crate::components::CombatStats { hp: st.hp, ..st }));
            },
            None => {},
        }
    }
}

/// A non-player entity with combat stats and `hp < 1`: the sweep removes it.
pub open spec fn dies(e: EntityRecord) -> bool {
    &&& !e.player
    &&& match e.stats {
        Some(st) => st.hp < 1,
        None => false,
    }
}

/// The player entity with combat stats and `hp < 1`.
pub open spec fn player_dies(e: EntityRecord) -> bool {
    &&& e.player
    &&& match e.stats {
        Some(st) => st.hp < 1,
        None => false,
    }
}

/// The death notice for an entity named `n`.
pub open spec fn death_message(n: Seq<char>) -> Seq<char> {
    n + " is dead"@
}

/// The death notices the sweep writes for `s`, newest first: one for each
/// named entity that dies, the last one scanned at the front.
pub open spec fn death_log(s: Seq<EntityRecord>) -> Seq<Seq<char>>
    decreases s.len(),
{
    if s.len() == 0 {
        Seq::empty()
    } else {
        let rest = death_log(s.drop_last());
        if dies(s.last()) && s.last().name is Some {
            seq![death_message(s.last().name_view().unwrap())] + rest
        } else {
            rest
        }
    }
}

/// The records of `s` that the sweep keeps, in their order.
pub open spec fn survivors(s: Seq<EntityRecord>) -> Seq<EntityRecord>
    decreases s.len(),
{
    if s.len() == 0 {
        Seq::empty()
    } else {
        let rest = survivors(s.drop_last());
        if dies(s.last()) {
            rest
        } else {
            rest.push(s.last())
        }
    }
}

/// Whether the player is among the records that died.
pub open spec fn player_died(s: Seq<EntityRecord>) -> bool {
    exists|i: int| 0 <= i < s.len() && player_dies(#[trigger] s[i])
}

/// Whether the sweep removes `e`.
fn is_dead_monster(e: &EntityRecord) -> (r: bool)
    ensures
        r == dies(*e),
{
    match e.stats {
        Some(st) => !e.player && st.hp < 1,
        None => false,
    }
}

/// The death notice for `name`.
fn death_notice(name: &String) -> (r: String)
    ensures
        r@ == death_message(name@),
{
    let r = name.clone().concat(" is dead");
    r
}

/// The scan of the sweep: writes the death notices and reports whether the
/// player died; removes nothing.
fn scan_deaths(entities: &Vec<EntityRecord>, log: &mut Vec<String>) -> (game_over: bool)
    ensures
        log_view(final(log)@) == death_log(entities@) + log_view(old(log)@),
        game_over == player_died(entities@),
{
    let ghost before = entities@;
    let ghost log0 = log_view(log@);
    let mut game_over = false;
    let mut i: usize = 0;
    while i < entities.len()
        invariant
            entities@ == before,
            i <= before.len(),
            log_view(log@) == death_log(before.take(i as int)) + log0,
            game_over == player_died(before.take(i as int)),
        decreases before.len() - i,
    {
        let ghost pre = before.take(i as int);
        let ghost cur = before.take(i + 1);
        let ghost prev_log = log@;
        assert(cur.drop_last() =~= pre);
        assert(cur.last() == before[i as int]);
        let e = &entities[i];
        if let Some(st) = e.stats {
            if st.hp < 1 {
                if e.player {
                    game_over = true;
                } else if let Some(n) = &e.name {
                    let msg = death_notice(n);
                    log.insert(0, msg);
                    assert(log_view(log@) =~= seq![msg@] + log_view(prev_log));
                }
            }
        }
        proof {
            assert(log_view(log@) =~= death_log(cur) + log0);
            if game_over {
                if !player_died(pre) {
                    assert(player_dies(cur[i as int]));
                }
            } else {
                assert forall|j: int| 0 <= j < i + 1 implies !player_dies(#[trigger] cur[j]) by {
                    if j < i {
                        assert(cur[j] == pre[j]);
                    }
                }
            }
        }
        i = i + 1;
    }
    assert(before.take(before.len() as int) =~= before);
    game_over
}

/// The removal step of the sweep: drops every record that dies, keeping the
/// order of the others.
fn remove_dead(entities: &mut Vec<EntityRecord>)
    ensures
        final(entities)@ == survivors(old(entities)@),
{
    let ghost before = entities@;
    let mut k: usize = 0;
    let ghost mut c: int = 0;
    assert(entities@ =~= survivors(before.take(0)) + before.skip(0));
    while k < entities.len()
        invariant
            0 <= c <= before.len(),
            entities@ == survivors(before.take(c)) + before.skip(c),
            k == survivors(before.take(c)).len(),
        decreases entities@.len() - k,
    {
        assert(before.take(c + 1).drop_last() =~= before.take(c));
        assert(before.take(c + 1).last() == before[c]);
        assert(entities@[k as int] == before[c]);
        if is_dead_monster(&entities[k]) {
            entities.remove(k);
            assert(entities@ =~= survivors(before.take(c + 1)) + before.skip(c + 1));
        } else {
            k = k + 1;
            assert(entities@ =~= survivors(before.take(c + 1)) + before.skip(c + 1));
        }
        proof {
            c = c + 1;
        }
    }
    assert(c == before.len());
    assert(before.take(c) =~= before);
    assert(entities@ =~= survivors(before));
}

/// Mortality sweep. Every entity with combat stats and `hp < 1` is found; a
/// non-player one gets `"<name> is dead"` prepended to the log if it has a
/// name, and is removed once the whole scan is done. The player is never
/// removed: the result is the game-over signal, true when the player is dead.
pub fn delete_the_dead(ecs: &mut World) -> (game_over: bool)
    requires
        old(ecs).wf(),
    ensures
        final(ecs).wf(),
        final(ecs).entities@ == survivors(old(ecs).entities@),
        log_view(final(ecs).log@) == death_log(old(ecs).entities@) + log_view(old(ecs).log@),
        game_over == player_died(old(ecs).entities@),
        final(ecs).runstate == old(ecs).runstate,
        final(ecs).next_id == old(ecs).next_id,
{
    let game_over = scan_deaths(&ecs.entities, &mut ecs.log);
    // Removal happens only now, after every health check and log write.
    remove_dead(&mut ecs.entities);
    proof {
        lemma_survivors_wf(old(ecs).entities@, ecs.next_id);
    }
    game_over
}

/// Where a surviving record came from in `s`.
proof fn lemma_survivor_origin(s: Seq<EntityRecord>, k: int) -> (j: int)
    requires
        0 <= k < survivors(s).len(),
    ensures
        0 <= j < s.len(),
        s[j] == survivors(s)[k],
        !dies(s[j]),
    decreases s.len(),
{
    let t = s.drop_last();
    if k < survivors(t).len() {
        let j = lemma_survivor_origin(t, k);
        assert(s[j] == t[j]);
        j
    } else {
        (s.len() - 1) as int
    }
}

/// Identifiers stay unique among the survivors.
proof fn lemma_survivors_unique(s: Seq<EntityRecord>)
    requires
        ids_unique(s),
    ensures
        ids_unique(survivors(s)),
    decreases s.len(),
{
    if s.len() > 0 {
        let t = s.drop_last();
        assert forall|a: int, b: int| 0 <= a < t.len() && 0 <= b < t.len() && a != b
            implies #[trigger] t[a].id != #[trigger] t[b].id by {
            assert(t[a] == s[a] && t[b] == s[b]);
        }
        lemma_survivors_unique(t);
        if !dies(s.last()) {
            let r = survivors(t);
            let u = survivors(s);
            assert forall|a: int, b: int| 0 <= a < u.len() && 0 <= b < u.len() && a != b
                implies #[trigger] u[a].id != #[trigger] u[b].id by {
                if a < r.len() && b < r.len() {
                    assert(u[a] == r[a] && u[b] == r[b]);
                } else if a < r.len() {
                    let j = lemma_survivor_origin(t, a);
                    assert(s[j] == t[j]);
                    assert(u[a] == r[a]);
                } else {
                    let j = lemma_survivor_origin(t, b);
                    assert(s[j] == t[j]);
                    assert(u[b] == r[b]);
                }
            }
        }
    }
}

/// The survivors of a well-formed store form a well-formed store.
proof fn lemma_survivors_wf(s: Seq<EntityRecord>, next_id: u64)
    requires
        ids_unique(s),
        damage_non_negative(s),
        forall|i: int| 0 <= i < s.len() ==> #[trigger] s[i].id < next_id,
    ensures
        ids_unique(survivors(s)),
        damage_non_negative(survivors(s)),
        forall|i: int| 0 <= i < survivors(s).len() ==> #[trigger] survivors(s)[i].id < next_id,
{
    lemma_survivors_unique(s);
    let u = survivors(s);
    assert forall|a: int, k: int| 0 <= a < u.len() && 0 <= k < u[a].suffer_damage@.len()
        implies #[trigger] u[a].suffer_damage@[k] >= 0 by {
        let j = lemma_survivor_origin(s, a);
    }
    assert forall|a: int| 0 <= a < u.len() implies #[trigger] u[a].id < next_id by {
        let j = lemma_survivor_origin(s, a);
    }
}

/// Where a record of `s` that does not die stands among the survivors.
proof fn lemma_survivor_kept(s: Seq<EntityRecord>, j: int) -> (k: int)
    requires
        0 <= j < s.len(),
        !dies(s[j]),
    ensures
        0 <= k < survivors(s).len(),
        survivors(s)[k] == s[j],
    decreases s.len(),
{
    let t = s.drop_last();
    if j < t.len() {
        assert(t[j] == s[j]);
        lemma_survivor_kept(t, j)
    } else {
        survivors(t).len() as int
    }
}

/// The death notice of a named record of `s` that dies is in `death_log(s)`.
proof fn lemma_death_logged(s: Seq<EntityRecord>, j: int)
    requires
        0 <= j < s.len(),
        dies(s[j]),
        s[j].name is Some,
    ensures
        death_log(s).contains(death_message(s[j].name_view().unwrap())),
    decreases s.len(),
{
    let t = s.drop_last();
    let m = death_message(s[j].name_view().unwrap());
    if j < t.len() {
        assert(t[j] == s[j]);
        lemma_death_logged(t, j);
        let x = choose|x: int| 0 <= x < death_log(t).len() && death_log(t)[x] == m;
        if dies(s.last()) && s.last().name is Some {
            assert(death_log(s)[x + 1] == m);
        } else {
            assert(death_log(s)[x] == m);
        }
    } else {
        assert(death_log(s)[0] == m);
    }
}

/// After the sweep, no entity that died (non-player, combat stats, `hp < 1`)
/// is in the store, every other entity still is, and each one that died with
/// a name has its notice `"<name> is dead"` among the entries put in front of
/// the log.
pub proof fn lemma_sweep_removes_dead(before: Seq<EntityRecord>, after: Seq<EntityRecord>)
    requires
        ids_unique(before),
        after == survivors(before),
    ensures
        forall|i: int| 0 <= i < before.len() && dies(#[trigger] before[i]) ==> !has_id(after, before[i].id),
        forall|i: int| 0 <= i < before.len() && !dies(#[trigger] before[i]) ==> has_id(after, before[i].id),
        forall|i: int| 0 <= i < before.len() && dies(#[trigger] before[i]) && before[i].name is Some
            ==> death_log(before).contains(death_message(before[i].name_view().unwrap())),
{
    assert forall|i: int| 0 <= i < before.len() && dies(#[trigger] before[i]) implies !has_id(after, before[i].id) by {
        if has_id(after, before[i].id) {
            let k = choose|k: int| 0 <= k < after.len() && #[trigger] after[k].id == before[i].id;
            let j = lemma_survivor_origin(before, k);
            assert(before[j].id == before[i].id);
        }
    }
    assert forall|i: int| 0 <= i < before.len() && !dies(#[trigger] before[i]) implies has_id(after, before[i].id) by {
        let k = lemma_survivor_kept(before, i);
        assert(after[k].id == before[i].id);
    }
    assert forall|i: int| 0 <= i < before.len() && dies(#[trigger] before[i]) && before[i].name is Some
        implies death_log(before).contains(death_message(before[i].name_view().unwrap())) by {
        lemma_death_logged(before, i);
    }
}

/// The sweep never removes the player, whatever its `hp`.
pub proof fn lemma_sweep_keeps_player(before: Seq<EntityRecord>, after: Seq<EntityRecord>)
    requires
        after == survivors(before),
    ensures
        forall|i: int| 0 <= i < before.len() && (#[trigger] before[i]).player ==> has_id(after, before[i].id),
{
    assert forall|i: int| 0 <= i < before.len() && (#[trigger] before[i]).player implies has_id(after, before[i].id) by {
        let k = lemma_survivor_kept(before, i);
        assert(after[k].id == before[i].id);
    }
}

} // verus!
