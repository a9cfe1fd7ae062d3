use vstd::prelude::*;

verus! {

/// Health and fighting numbers of an entity; `hp` may go below zero until the
/// mortality sweep removes the entity.
#[derive(Clone, Copy, Debug, PartialEq, Eq, Structural)]
pub struct CombatStats {
    pub max_hp: i32,
    pub hp: i32,
    pub defense: i32,
    pub power: i32,
}

/// The phase of the turn state machine.
#[derive(Clone, Copy, Debug, PartialEq, Eq, Structural)]
pub enum RunState {
    PreRun,
    AwaitingInput,
    PlayerTurn,
    MonsterTurn,
}

/// One input event, as the input collaborator hands it over while the game
/// awaits the player.
#[derive(Clone, Copy, Debug, PartialEq, Eq, Structural)]
pub enum PlayerInput {
    /// No key, or a key that does not take a turn.
    Nothing,
    /// A turn-consuming action whose effect the collaborator has applied
    /// (a move, a wait).
    Act,
    /// The player wants to melee the entity with this id.
    Attack(u64),
}

/// One live entity: its identifier and the components attached to it. A
/// component that is absent (`None`, `false`) means the entity does not take
/// part in the passes that read it.
pub struct EntityRecord {
    pub id: u64,
    pub name: Option<String>,
    pub player: bool,
    pub monster: bool,
    pub blocks_tile: bool,
    pub stats: Option<CombatStats>,
    /// Pending damage amounts, in the order they were queued.
    pub suffer_damage: Vec<i32>,
    /// Target of a melee intent.
    pub wants_to_melee: Option<u64>,
}

impl EntityRecord {
    /// The name component as a character sequence.
    pub open spec fn name_view(&self) -> Option<Seq<char>> {
        match self.name {
            Some(n) => Some(n@),
            None => None,
        }
    }

    /// The two records agree on everything but the damage queue and the
    /// combat stats.
    pub open spec fn same_identity(&self, other: &EntityRecord) -> bool {
        &&& self.id == other.id
        &&& self.name == other.name
        &&& self.player == other.player
        &&& self.monster == other.monster
        &&& self.blocks_tile == other.blocks_tile
    }
}

} // verus!
