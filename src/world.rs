use vstd::prelude::*;
use crate::components::{CombatStats, EntityRecord, RunState};

verus! {

/// Identifiers are unique among the records of `s`.
pub open spec fn ids_unique(s: Seq<EntityRecord>) -> bool {
    forall|i: int, j: int|
        0 <= i < s.len() && 0 <= j < s.len() && i != j ==> #[trigger] s[i].id != #[trigger] s[j].id
}

/// Every queued damage amount is non-negative.
pub open spec fn damage_non_negative(s: Seq<EntityRecord>) -> bool {
    forall|i: int, k: int|
        0 <= i < s.len() && 0 <= k < s[i].suffer_damage@.len() ==> #[trigger] s[i].suffer_damage@[k] >= 0
}

/// Some record of `s` has identifier `id`.
pub open spec fn has_id(s: Seq<EntityRecord>, id: u64) -> bool {
    exists|i: int| 0 <= i < s.len() && #[trigger] s[i].id == id
}

/// The log as character sequences, newest first.
pub open spec fn log_view(log: Seq<String>) -> Seq<Seq<char>> {
    log.map_values(|s: String| s@)
}

/// The entity store, the narrative log and the current turn phase.
pub struct World {
    pub entities: Vec<EntityRecord>,
    /// Narrative entries, newest first.
    pub log: Vec<String>,
    pub runstate: RunState,
    /// The identifier the next spawned entity receives.
    pub next_id: u64,
}

impl World {
    /// Identifiers are unique and below `next_id`, and queued damage is
    /// non-negative.
    pub open spec fn wf(&self) -> bool {
        &&& ids_unique(self.entities@)
        &&& damage_non_negative(self.entities@)
        &&& forall|i: int| 0 <= i < self.entities@.len() ==> #[trigger] self.entities@[i].id < self.next_id
    }

    /// An empty world whose log holds `welcome`, in phase PreRun.
    pub fn new(welcome: String) -> (w: World)
        ensures
            w.wf(),
            w.entities@.len() == 0,
            log_view(w.log@) == seq![welcome@],
            w.runstate == RunState::PreRun,
            w.next_id == 0,
    {
        let mut log: Vec<String> = Vec::new();
        log.push(welcome);
        let w = World { entities: Vec::new(), log, runstate: RunState::PreRun, next_id: 0 };
        assert(log_view(w.log@) =~= seq![w.log@[0]@]);
        w
    }

    /// Adds an entity with the given components and an empty damage queue;
    /// returns its identifier.
    pub fn create_entity(
        &mut self,
        name: Option<String>,
        player: bool,
        monster: bool,
        blocks_tile: bool,
        stats: Option<CombatStats>,
    ) -> (id: u64)
        requires
            old(self).wf(),
            old(self).next_id < u64::MAX,
        ensures
            final(self).wf(),
            id == old(self).next_id,
            final(self).next_id == id + 1,
            !has_id(old(self).entities@, id),
            final(self).entities@.len() == old(self).entities@.len() + 1,
            final(self).entities@.drop_last() == old(self).entities@,
            final(self).entities@.last().id == id,
            final(self).entities@.last().name == name,
            final(self).entities@.last().player == player,
            final(self).entities@.last().monster == monster,
            final(self).entities@.last().blocks_tile == blocks_tile,
            final(self).entities@.last().stats == stats,
            final(self).entities@.last().suffer_damage@.len() == 0,
            final(self).entities@.last().wants_to_melee.is_none(),
            final(self).log == old(self).log,
            final(self).runstate == old(self).runstate,
    {
        let id = self.next_id;
        let rec = EntityRecord {
            id,
            name,
            player,
            monster,
            blocks_tile,
            stats,
            suffer_damage: Vec::new(),
            wants_to_melee: None,
        };
        self.entities.push(rec);
        self.next_id = id + 1;
        assert(final(self).entities@.drop_last() =~= old(self).entities@);
        id
    }

    /// Position of the entity with identifier `id` in the store, if any.
    pub fn index_of(&self, id: u64) -> (r: Option<usize>)
        ensures
            match r {
                Some(i) => i < self.entities@.len() && self.entities@[i as int].id == id,
                None => !has_id(self.entities@, id),
            },
    {
        let mut i: usize = 0;
        while i < self.entities.len()
            invariant
                i <= self.entities@.len(),
                forall|j: int| 0 <= j < i ==> #[trigger] self.entities@[j].id != id,
            decreases self.entities@.len() - i,
        {
            if self.entities[i].id == id {
                return Some(i);
            }
            i = i + 1;
        }
        None
    }

    /// Whether an entity with identifier `id` is live.
    pub fn contains(&self, id: u64) -> (r: bool)
        ensures
            r == has_id(self.entities@, id),
    {
        self.index_of(id).is_some()
    }

    /// The combat stats of entity `id`, if it is live and has them.
    pub fn stats_of(&self, id: u64) -> (r: Option<CombatStats>)
        requires
            self.wf(),
        ensures
            match r {
                Some(s) => exists|i: int|
                    0 <= i < self.entities@.len() && #[trigger] self.entities@[i].id == id
                        && self.entities@[i].stats == Some(s),
                None => forall|i: int|
                    0 <= i < self.entities@.len() && #[trigger] self.entities@[i].id == id
                        ==> self.entities@[i].stats.is_none(),
            },
    {
        match self.index_of(id) {
            Some(i) => self.entities[i].stats,
            None => None,
        }
    }

    /// Queues `amount` of damage onto entity `id`; false, with nothing
    /// changed, when no such entity is live.
    pub fn inflict_damage(&mut self, id: u64, amount: i32) -> (done: bool)
        requires
            old(self).wf(),
            amount >= 0,
        ensures
            final(self).wf(),
            done == has_id(old(self).entities@, id),
            final(self).entities@.len() == old(self).entities@.len(),
            forall|j: int| 0 <= j < old(self).entities@.len() ==> {
                &&& (#[trigger] final(self).entities@[j]).same_identity(&old(self).entities@[j])
                &&& final(self).entities@[j].stats == old(self).entities@[j].stats
                &&& final(self).entities@[j].wants_to_melee == old(self).entities@[j].wants_to_melee
                &&& final(self).entities@[j].suffer_damage@ == if old(self).entities@[j].id == id {
                    old(self).entities@[j].suffer_damage@.push(amount)
                } else {
                    old(self).entities@[j].suffer_damage@
                }
            },
            final(self).log == old(self).log,
            final(self).runstate == old(self).runstate,
            final(self).next_id == old(self).next_id,
    {
        let ghost s = self.entities@;
        match self.index_of(id) {
            Some(p) => {
                self.entities[p].suffer_damage.push(amount);
                proof {
                    assert forall|j: int| 0 <= j < s.len() implies #[trigger] self.entities@[j].suffer_damage@
                        == if s[j].id == id { s[j].suffer_damage@.push(amount) } else { s[j].suffer_damage@ } by {
                        if j != p && s[j].id == id {
                            assert(s[p as int].id == s[j].id);
                        }
                    }
                    assert(forall|j: int| 0 <= j < s.len() ==> #[trigger] self.entities@[j].id == s[j].id);
                    assert forall|j: int, k: int| 0 <= j < s.len() && 0 <= k < self.entities@[j].suffer_damage@.len()
                        implies #[trigger] self.entities@[j].suffer_damage@[k] >= 0 by {
                        if j == p && k == s[j].suffer_damage@.len() {
                        } else {
                            assert(self.entities@[j].suffer_damage@[k] == s[j].suffer_damage@[k]);
                        }
                    }
                }
                true
            },
            None => false,
        }
    }

    /// Sets the melee intent of entity `id` to `target`; false, with nothing
    /// changed, when no such entity is live.
    pub fn set_wants_to_melee(&mut self, id: u64, target: u64) -> (done: bool)
        requires
            old(self).wf(),
        ensures
            final(self).wf(),
            done == has_id(old(self).entities@, id),
            final(self).entities@.len() == old(self).entities@.len(),
            forall|j: int| 0 <= j < old(self).entities@.len() ==> {
                &&& (#[trigger] final(self).entities@[j]).same_identity(&old(self).entities@[j])
                &&& final(self).entities@[j].stats == old(self).entities@[j].stats
                &&& final(self).entities@[j].suffer_damage@ == old(self).entities@[j].suffer_damage@
                &&& final(self).entities@[j].wants_to_melee == if old(self).entities@[j].id == id {
                    Some(target)
                } else {
                    old(self).entities@[j].wants_to_melee
                }
            },
            final(self).log == old(self).log,
            final(self).runstate == old(self).runstate,
            final(self).next_id == old(self).next_id,
    {
        let ghost s = self.entities@;
        match self.index_of(id) {
            Some(p) => {
                self.entities[p].wants_to_melee = Some(target);
                proof {
                    assert forall|j: int| 0 <= j < s.len() implies #[trigger] self.entities@[j].wants_to_melee
                        == if s[j].id == id { Some(target) } else { s[j].wants_to_melee } by {
                        if j != p && s[j].id == id {
                            assert(s[p as int].id == s[j].id);
                        }
                    }
                    assert(forall|j: int| 0 <= j < s.len() ==> #[trigger] self.entities@[j].id == s[j].id);
                    assert(forall|j: int, k: int| 0 <= j < s.len() && 0 <= k < self.entities@[j].suffer_damage@.len()
                        ==> #[trigger] self.entities@[j].suffer_damage@[k] == s[j].suffer_damage@[k]);
                }
                true
            },
            None => false,
        }
    }

    /// Removes entity `id` from the store. Deleting an entity that is not
    /// live is an error: it means it was deleted twice.
    pub fn delete_entity(&mut self, id: u64) -> (r: Result<(), ()>)
        requires
            old(self).wf(),
        ensures
            final(self).wf(),
            r is Ok == has_id(old(self).entities@, id),
            r is Ok ==> exists|p: int| 0 <= p < old(self).entities@.len()
                && #[trigger] old(self).entities@[p].id == id
                && final(self).entities@ == old(self).entities@.remove(p),
            r is Err ==> final(self).entities@ == old(self).entities@,
            !has_id(final(self).entities@, id),
            final(self).log == old(self).log,
            final(self).runstate == old(self).runstate,
            final(self).next_id == old(self).next_id,
    {
        let ghost s = self.entities@;
        match self.index_of(id) {
            Some(p) => {
                self.entities.remove(p);
                proof {
                    let t = self.entities@;
                    assert(forall|j: int| 0 <= j < p ==> #[trigger] t[j] == s[j]);
                    assert(forall|j: int| p <= j < t.len() ==> #[trigger] t[j] == s[j + 1]);
                    assert(ids_unique(t)) by {
                        assert forall|a: int, b: int| 0 <= a < t.len() && 0 <= b < t.len() && a != b
                            implies #[trigger] t[a].id != #[trigger] t[b].id by {
                            let a2 = if a < p { a } else { a + 1 };
                            let b2 = if b < p { b } else { b + 1 };
                            assert(t[a] == s[a2] && t[b] == s[b2]);
                        }
                    }
                    assert forall|a: int, k: int| 0 <= a < t.len() && 0 <= k < t[a].suffer_damage@.len()
                        implies #[trigger] t[a].suffer_damage@[k] >= 0 by {
                        let a2 = if a < p { a } else { a + 1 };
                        assert(t[a] == s[a2]);
                    }
                    assert forall|a: int| 0 <= a < t.len() implies #[trigger] t[a].id < self.next_id by {
                        let a2 = if a < p { a } else { a + 1 };
                        assert(t[a] == s[a2]);
                    }
                    assert(!has_id(t, id)) by {
                        if has_id(t, id) {
                            let a = choose|a: int| 0 <= a < t.len() && #[trigger] t[a].id == id;
                            let a2 = if a < p { a } else { a + 1 };
                            assert(t[a] == s[a2]);
                        }
                    }
                }
                Ok(())
            },
            None => Err(()),
        }
    }
}

} // verus!
