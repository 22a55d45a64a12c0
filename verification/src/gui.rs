use vstd::prelude::*;

use crate::combat::CombatState;
use crate::states::CombatPhases;

verus! {

/// The actions the combat menu offers. Only Attack has an implemented
/// effect; Defend and Item are stubs and do nothing to combat state.
#[derive(Clone, Copy, Debug, PartialEq, Eq, Structural)]
pub enum CombatActions {
    Attack,
    Defend,
    Item,
}

/// A confirmed press of one of the action-menu buttons.
#[derive(Clone, Copy, Debug, PartialEq, Eq, Structural)]
pub struct CombatButtonEvent {
    pub action: CombatActions,
}

/// The decision behind the action menu: a confirmed Attack press
/// during `SelectAction` advances the machine to `SelectTarget`.
/// Defend and Item presses, and presses in any other phase, change
/// nothing.
pub fn combat_button_events(state: &mut CombatState, event: &CombatButtonEvent)
    ensures
        final(state).pl() == old(state).pl(),
        final(state).en() == old(state).en(),
        final(state).active == old(state).active,
        final(state).phase == (if old(state).phase == CombatPhases::SelectAction && event.action
            == CombatActions::Attack {
            CombatPhases::SelectTarget
        } else {
            old(state).phase
        }),
        old(state).wf() ==> final(state).wf(),
{
    match state.phase {
        CombatPhases::SelectAction => {
            match event.action {
                CombatActions::Attack => {
                    state.phase = CombatPhases::SelectTarget;
                },
                CombatActions::Defend => {},
                CombatActions::Item => {},
            }
        },
        _ => {},
    }
}

} // verus!
