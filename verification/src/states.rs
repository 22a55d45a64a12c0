use vstd::prelude::*;

verus! {

/// The top-level screen the presentation layer is showing. Combat is
/// the only view this core drives.
#[derive(Clone, Copy, Debug, PartialEq, Eq, Structural, Hash)]
pub enum Views {
    Combat,
}

/// The phases of the combat state machine. `SelectActive` chooses the
/// next player unit to act, `SelectAction` awaits the player's choice
/// of action, `SelectTarget` awaits the target pick, `Enemy` resolves
/// all enemy attacks, and the two `...Wins` phases are terminal.
#[derive(Clone, Copy, Debug, PartialEq, Eq, Structural, Hash)]
pub enum CombatPhases {
    SelectActive,
    SelectAction,
    SelectTarget,
    Enemy,
    EnemyWins,
    PlayerWins,
}

impl CombatPhases {
    /// A terminal phase ends the encounter: no transition leaves it.
    pub open spec fn is_terminal(self) -> bool {
        self == CombatPhases::EnemyWins || self == CombatPhases::PlayerWins
    }
}

} // verus!
