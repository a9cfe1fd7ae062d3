use vstd::prelude::*;
use crate::components::{EntityRecord, PlayerInput, RunState};
use crate::damage_system::{
    all_resolved, damage_fits, death_log, delete_the_dead, player_died, sum_damage, survivors, DamageSystem,
};
use crate::melee_combat_system::{hits_on, melee_fits, melee_resolved, MeleeCombatSystem};
use crate::world::{has_id, log_view, World};

verus! {

/// What one tick did, for the caller to act on.
#[derive(Clone, Copy, Debug, PartialEq, Eq, Structural)]
pub struct TickReport {
    /// How many full pass sequences ran: one or none.
    pub sequences_run: u64,
    /// The game-over signal of the mortality sweep.
    pub game_over: bool,
}

/// The phase a tick moves to from `phase`; `acted` tells whether the input
/// of an awaiting tick took a turn.
pub open spec fn next_phase(phase: RunState, acted: bool) -> RunState {
    match phase {
        RunState::PreRun => RunState::AwaitingInput,
        RunState::AwaitingInput => if acted {
            RunState::PlayerTurn
        } else {
            RunState::AwaitingInput
        },
        RunState::PlayerTurn => RunState::MonsterTurn,
        RunState::MonsterTurn => RunState::AwaitingInput,
    }
}

/// Whether `phase` is one in which the pass sequence runs.
pub open spec fn simulates(phase: RunState) -> bool {
    phase != RunState::AwaitingInput
}

/// One full pass sequence takes `before` to `after`.
pub open spec fn pass_sequence(before: Seq<EntityRecord>, after: Seq<EntityRecord>) -> bool {
    exists|mid: Seq<EntityRecord>| melee_resolved(before, mid) && #[trigger] all_resolved(mid, after)
}

/// The pass sequence can run on `s` without any `i32` overflowing.
pub open spec fn pass_sequence_fits(s: Seq<EntityRecord>) -> bool {
    &&& melee_fits(s)
    &&& forall|j: int| 0 <= j < s.len() && (#[trigger] s[j]).stats is Some
        ==> s[j].stats.unwrap().hp - sum_damage(s[j].suffer_damage@ + hits_on(s, s, s[j].id)) >= i32::MIN
}

/// Whether `input` takes a turn when the player's identifier is `player`.
pub open spec fn takes_turn(s: Seq<EntityRecord>, player: u64, input: PlayerInput) -> bool {
    match input {
        PlayerInput::Nothing => false,
        PlayerInput::Act => true,
        PlayerInput::Attack(_) => has_id(s, player),
    }
}

/// `after` is `before` once `input` has been taken in: an attack sets the
/// player's melee intent, everything else leaves the store as it was.
pub open spec fn input_applied(
    before: Seq<EntityRecord>,
    player: u64,
    input: PlayerInput,
    after: Seq<EntityRecord>,
) -> bool {
    match input {
        PlayerInput::Attack(t) => if has_id(before, player) {
            &&& after.len() == before.len()
            &&& forall|j: int| 0 <= j < before.len() ==> {
                &&& (#[trigger] after[j]).same_identity(&before[j])
                &&& after[j].stats == before[j].stats
                &&& after[j].suffer_damage@ == before[j].suffer_damage@
                &&& after[j].wants_to_melee == if before[j].id == player {
                    Some(t)
                } else {
                    before[j].wants_to_melee
                }
            }
        } else {
            after == before
        },
        _ => after == before,
    }
}

/// The game: the world and the identifier of the player entity.
pub struct State {
    pub ecs: World,
    pub player: u64,
}

impl State {
    /// The simulation passes, in their fixed order: melee resolution, then
    /// damage resolution.
    fn run_systems(&mut self)
        requires
            old(self).ecs.wf(),
            pass_sequence_fits(old(self).ecs.entities@),
        ensures
            final(self).ecs.wf(),
            pass_sequence(old(self).ecs.entities@, final(self).ecs.entities@),
            final(self).ecs.log == old(self).ecs.log,
            final(self).ecs.runstate == old(self).ecs.runstate,
            final(self).player == old(self).player,
    {
        let ghost s = self.ecs.entities@;
        let mut melee = MeleeCombatSystem {};
        melee.run(&mut self.ecs);
        let ghost mid = self.ecs.entities@;
        assert forall|j: int| 0 <= j < mid.len() implies damage_fits(#[trigger] mid[j]) by {
            assert(melee_resolved(s, mid));
            if s[j].stats is Some {
                assert(s[j].stats.unwrap().hp - sum_damage(s[j].suffer_damage@ + hits_on(s, s, s[j].id)) >= i32::MIN);
            }
        }
        let mut damage = DamageSystem {};
        damage.run(&mut self.ecs);
        assert(all_resolved(mid, self.ecs.entities@));
    }

    /// Takes in one input event while awaiting the player; returns the next
    /// phase.
    fn player_input(&mut self, input: PlayerInput) -> (next: RunState)
        requires
            old(self).ecs.wf(),
        ensures
            final(self).ecs.wf(),
            next == next_phase(RunState::AwaitingInput, takes_turn(old(self).ecs.entities@, old(self).player, input)),
            input_applied(old(self).ecs.entities@, old(self).player, input, final(self).ecs.entities@),
            final(self).ecs.log == old(self).ecs.log,
            final(self).ecs.runstate == old(self).ecs.runstate,
            final(self).ecs.next_id == old(self).ecs.next_id,
            final(self).player == old(self).player,
    {
        match input {
            PlayerInput::Nothing => RunState::AwaitingInput,
            PlayerInput::Act => RunState::PlayerTurn,
            PlayerInput::Attack(t) => {
                match self.ecs.index_of(self.player) {
                    Some(p) => {
                        let ghost s = self.ecs.entities@;
                        self.ecs.entities[p].wants_to_melee = Some(t);
                        proof {
                            assert(has_id(s, self.player));
                            assert forall|j: int| 0 <= j < s.len() implies
                                #[trigger] self.ecs.entities@[j].wants_to_melee == if s[j].id == self.player {
                                    Some(t)
                                } else {
                                    s[j].wants_to_melee
                                } by {
                                if j != p && s[j].id == self.player {
                                    assert(s[p as int].id == s[j].id);
                                }
                            }
                            assert(forall|j: int| 0 <= j < s.len() ==> #[trigger] self.ecs.entities@[j].id == s[j].id);
                            assert(forall|j: int, k: int| 0 <= j < s.len() && 0 <= k < self.ecs.entities@[j].suffer_damage@.len()
                                ==> #[trigger] self.ecs.entities@[j].suffer_damage@[k] == s[j].suffer_damage@[k]);
                        }
                        RunState::PlayerTurn
                    },
                    None => RunState::AwaitingInput,
                }
            },
        }
    }

    /// One tick of the turn state machine. In PreRun, PlayerTurn and
    /// MonsterTurn the full pass sequence runs once; in AwaitingInput `input`
    /// is taken in and no pass runs. The phase then moves on by the
    /// transition table, and the mortality sweep runs whatever the phase.
    pub fn tick(&mut self, input: PlayerInput) -> (report: TickReport)
        requires
            old(self).ecs.wf(),
            simulates(old(self).ecs.runstate) ==> pass_sequence_fits(old(self).ecs.entities@),
        ensures
            final(self).ecs.wf(),
            final(self).player == old(self).player,
            report.sequences_run == if simulates(old(self).ecs.runstate) { 1u64 } else { 0u64 },
            final(self).ecs.runstate == next_phase(
                old(self).ecs.runstate,
                takes_turn(old(self).ecs.entities@, old(self).player, input),
            ),
            exists|mid: Seq<EntityRecord>| {
                &&& (if simulates(old(self).ecs.runstate) {
                    pass_sequence(old(self).ecs.entities@, mid)
                } else {
                    input_applied(old(self).ecs.entities@, old(self).player, input, mid)
                })
                &&& #[trigger] survivors(mid) == final(self).ecs.entities@
                &&& report.game_over == player_died(mid)
                &&& log_view(final(self).ecs.log@) == death_log(mid) + log_view(old(self).ecs.log@)
            },
    {
        let phase = self.ecs.runstate;
        let mut sequences_run: u64 = 0;
        let next = match phase {
            RunState::PreRun => {
                self.run_systems();
                sequences_run = 1;
                RunState::AwaitingInput
            },
            RunState::AwaitingInput => self.player_input(input),
            RunState::PlayerTurn => {
                self.run_systems();
                sequences_run = 1;
                RunState::MonsterTurn
            },
            RunState::MonsterTurn => {
                self.run_systems();
                sequences_run = 1;
                RunState::AwaitingInput
            },
        };
        self.ecs.runstate = next;
        let ghost mid = self.ecs.entities@;
        let game_over = delete_the_dead(&mut self.ecs);
        assert(survivors(mid) == self.ecs.entities@);
        TickReport { sequences_run, game_over }
    }
}

} // verus!
