use combat_core::combat::{
    do_enemy_turn, listen_for_input, resolve_attack, set_random_active_unit, tick, CombatEvent,
    CombatInput, CombatState,
};
use combat_core::gui::{combat_button_events, CombatActions, CombatButtonEvent};
use combat_core::states::CombatPhases;
use combat_core::unit::{DamageType, UnitJson};

fn def(hp: u32, max_hp: u32, dmg: u32, dmg_type: char, resistances: Vec<char>) -> UnitJson {
    UnitJson {
        name: String::from("unit"),
        sprite: String::from("pawn"),
        max_hp,
        hp,
        dmg,
        dmg_type,
        weaknesses: Vec::new(),
        resistances,
    }
}

fn attack() -> CombatInput {
    CombatInput::Button(CombatButtonEvent { action: CombatActions::Attack })
}

#[test]
fn spawned_teams_take_positions_and_consecutive_ids() {
    let players = vec![def(10, 10, 5, 'S', vec![]), def(8, 12, 3, 'P', vec![])];
    let enemies = vec![def(6, 6, 2, 'B', vec![])];
    let st = CombatState::new(&players, &enemies);
    assert_eq!(st.phase, CombatPhases::SelectActive);
    assert!(st.active.is_none());
    assert_eq!(st.players.units.len(), 2);
    assert_eq!(st.enemies.units.len(), 1);
    assert_eq!(st.players.units[0].id, 0);
    assert_eq!(st.players.units[1].id, 1);
    assert_eq!(st.enemies.units[0].id, 2);
    assert_eq!((st.players.units[0].x, st.players.units[0].y), (-300, -100));
    assert_eq!((st.players.units[1].x, st.players.units[1].y), (-300, 0));
    assert_eq!((st.enemies.units[0].x, st.enemies.units[0].y), (300, -100));
    assert_eq!(st.players.units[1].send.dmg_type, DamageType::Piercing);
    assert!(st.players.units.iter().all(|u| !u.send.used));
}

#[test]
fn unknown_damage_code_spawns_as_slashing() {
    let players = vec![def(10, 10, 5, 'Q', vec![])];
    let st = CombatState::new(&players, &Vec::new());
    assert_eq!(st.players.units[0].send.dmg_type, DamageType::Slashing);
}

#[test]
fn resolved_attack_against_resistance_deals_floored_half() {
    // one slashing attacker against a slashing-resistant defender:
    // dmg 5 halves to 2, hit points drop from 10 to 8
    let players = vec![def(10, 10, 5, 'S', vec![])];
    let enemies = vec![def(10, 10, 5, 'S', vec!['S'])];
    let mut st = CombatState::new(&players, &enemies);
    let rep = resolve_attack(&mut st, &CombatEvent { send: 0, receive: 1 }).unwrap();
    assert_eq!(rep.damage, 2);
    assert_eq!(rep.remaining_hp, 8);
    assert!(!rep.died);
    assert_eq!(st.enemies.units[0].receive.hp, 8);
    assert!(st.players.units[0].send.used);
    assert_eq!(st.players.units[0].receive.hp, 10);
}

#[test]
fn hit_points_stay_within_bounds_and_overkill_removes_the_unit() {
    let players = vec![def(10, 10, 50, 'S', vec![])];
    let enemies = vec![def(10, 10, 1, 'S', vec![])];
    let mut st = CombatState::new(&players, &enemies);
    let rep = resolve_attack(&mut st, &CombatEvent { send: 0, receive: 1 }).unwrap();
    assert_eq!(rep.damage, 50);
    assert_eq!(rep.remaining_hp, 0);
    assert!(rep.died);
    assert!(st.enemies.units.is_empty());
    for u in st.players.units.iter() {
        assert!(u.receive.hp >= 1 && u.receive.hp <= u.receive.max_hp);
    }
}

#[test]
fn dead_unit_resolves_no_further_intents() {
    let players = vec![def(10, 10, 50, 'S', vec![]), def(10, 10, 5, 'S', vec![])];
    let enemies = vec![def(10, 10, 5, 'S', vec![])];
    let mut st = CombatState::new(&players, &enemies);
    // kill the only enemy (id 2)
    let rep = resolve_attack(&mut st, &CombatEvent { send: 0, receive: 2 }).unwrap();
    assert!(rep.died);
    assert!(st.enemies.units.is_empty());
    // as receiver: intent silently dropped
    let hp_before = st.players.units[1].receive.hp;
    assert!(resolve_attack(&mut st, &CombatEvent { send: 1, receive: 2 }).is_none());
    assert_eq!(st.players.units[1].receive.hp, hp_before);
    assert!(!st.players.units[1].send.used);
    // as sender: intent silently dropped
    assert!(resolve_attack(&mut st, &CombatEvent { send: 2, receive: 1 }).is_none());
    assert_eq!(st.players.units[1].receive.hp, hp_before);
}

#[test]
fn self_targeting_intent_is_dropped() {
    let players = vec![def(10, 10, 5, 'S', vec![])];
    let enemies = vec![def(10, 10, 5, 'S', vec![])];
    let mut st = CombatState::new(&players, &enemies);
    assert!(resolve_attack(&mut st, &CombatEvent { send: 0, receive: 0 }).is_none());
    assert_eq!(st.players.units[0].receive.hp, 10);
}

#[test]
fn targeting_without_active_unit_emits_nothing() {
    let players = vec![def(10, 10, 5, 'S', vec![])];
    let enemies = vec![def(10, 10, 5, 'S', vec![])];
    let mut st = CombatState::new(&players, &enemies);
    st.phase = CombatPhases::SelectTarget;
    st.active = None;
    // a click dead on the enemy's position
    assert!(listen_for_input(&st, 300, -100).is_none());
    let evs = tick(&mut st, &CombatInput::Click(300, -100));
    assert!(evs.is_empty());
    assert_eq!(st.phase, CombatPhases::SelectTarget);
    assert_eq!(st.enemies.units[0].receive.hp, 10);
}

#[test]
fn targeting_picks_the_nearest_hit_enemy() {
    let players = vec![def(10, 10, 5, 'S', vec![])];
    let enemies = vec![def(10, 10, 5, 'S', vec![]), def(10, 10, 5, 'S', vec![])];
    let mut st = CombatState::new(&players, &enemies);
    st.active = Some(0);
    st.enemies.units[0].y = 0;
    st.enemies.units[1].y = 10;
    let ev = listen_for_input(&st, 300, 8).unwrap();
    assert_eq!(ev.send, 0);
    assert_eq!(ev.receive, st.enemies.units[1].id);
}

#[test]
fn targeting_breaks_distance_ties_in_roster_order() {
    let players = vec![def(10, 10, 5, 'S', vec![])];
    let enemies = vec![def(10, 10, 5, 'S', vec![]), def(10, 10, 5, 'S', vec![])];
    let mut st = CombatState::new(&players, &enemies);
    st.active = Some(0);
    st.enemies.units[0].y = 0;
    st.enemies.units[1].y = 16;
    let ev = listen_for_input(&st, 300, 8).unwrap();
    assert_eq!(ev.receive, st.enemies.units[0].id);
}

#[test]
fn clicks_outside_the_pick_radius_miss() {
    let players = vec![def(10, 10, 5, 'S', vec![])];
    let enemies = vec![def(10, 10, 5, 'S', vec![])];
    let mut st = CombatState::new(&players, &enemies);
    st.active = Some(0);
    // enemy at (300, -100); 33 units away vertically
    assert!(listen_for_input(&st, 300, -67).is_none());
    // 32 away: a hit
    assert!(listen_for_input(&st, 300, -68).is_some());
}

#[test]
fn single_unacted_unit_becomes_active() {
    let players = vec![def(10, 10, 5, 'S', vec![])];
    let enemies = vec![def(10, 10, 5, 'S', vec![])];
    let mut st = CombatState::new(&players, &enemies);
    set_random_active_unit(&mut st);
    assert_eq!(st.active, Some(0));
}

#[test]
fn active_selection_skips_units_that_acted() {
    let players = vec![def(10, 10, 5, 'S', vec![]), def(10, 10, 5, 'S', vec![])];
    let enemies = vec![def(10, 10, 5, 'S', vec![])];
    let mut st = CombatState::new(&players, &enemies);
    st.players.units[0].send.used = true;
    set_random_active_unit(&mut st);
    assert_eq!(st.active, Some(1));
}

#[test]
fn select_active_hands_over_to_enemy_when_all_acted() {
    let players = vec![def(10, 10, 5, 'S', vec![]), def(10, 10, 5, 'S', vec![])];
    let enemies = vec![def(10, 10, 5, 'S', vec![])];
    let mut st = CombatState::new(&players, &enemies);
    for u in st.players.units.iter_mut() {
        u.send.used = true;
    }
    let evs = tick(&mut st, &CombatInput::Idle);
    assert!(evs.is_empty());
    assert_eq!(st.phase, CombatPhases::Enemy);
    assert!(st.active.is_none());
}

#[test]
fn select_active_advances_to_select_action_with_an_active_unit() {
    let players = vec![def(10, 10, 5, 'S', vec![])];
    let enemies = vec![def(10, 10, 5, 'S', vec![])];
    let mut st = CombatState::new(&players, &enemies);
    let evs = tick(&mut st, &CombatInput::Idle);
    assert!(evs.is_empty());
    assert_eq!(st.phase, CombatPhases::SelectAction);
    assert_eq!(st.active, Some(0));
}

#[test]
fn attack_press_advances_to_select_target() {
    let players = vec![def(10, 10, 5, 'S', vec![])];
    let enemies = vec![def(10, 10, 5, 'S', vec![])];
    let mut st = CombatState::new(&players, &enemies);
    st.phase = CombatPhases::SelectAction;
    st.active = Some(0);
    let evs = tick(&mut st, &attack());
    assert!(evs.is_empty());
    assert_eq!(st.phase, CombatPhases::SelectTarget);
}

#[test]
fn defend_and_item_presses_do_nothing() {
    let players = vec![def(10, 10, 5, 'S', vec![])];
    let enemies = vec![def(10, 10, 5, 'S', vec![])];
    let mut st = CombatState::new(&players, &enemies);
    st.phase = CombatPhases::SelectAction;
    st.active = Some(0);
    combat_button_events(&mut st, &CombatButtonEvent { action: CombatActions::Defend });
    assert_eq!(st.phase, CombatPhases::SelectAction);
    combat_button_events(&mut st, &CombatButtonEvent { action: CombatActions::Item });
    assert_eq!(st.phase, CombatPhases::SelectAction);
}

#[test]
fn attack_press_outside_select_action_does_nothing() {
    let players = vec![def(10, 10, 5, 'S', vec![])];
    let enemies = vec![def(10, 10, 5, 'S', vec![])];
    let mut st = CombatState::new(&players, &enemies);
    combat_button_events(&mut st, &CombatButtonEvent { action: CombatActions::Attack });
    assert_eq!(st.phase, CombatPhases::SelectActive);
}

#[test]
fn enemy_turn_attacks_once_per_enemy_and_resets_flags() {
    let players = vec![def(100, 100, 1, 'S', vec![])];
    let enemies = vec![def(10, 10, 3, 'S', vec![]), def(10, 10, 4, 'S', vec![])];
    let mut st = CombatState::new(&players, &enemies);
    st.phase = CombatPhases::Enemy;
    st.players.units[0].send.used = true;
    let evs = do_enemy_turn(&mut st);
    assert_eq!(evs.len(), 2);
    assert_ne!(evs[0].send, evs[1].send);
    assert!(evs.iter().all(|e| e.receive == 0));
    assert_eq!(st.players.units[0].receive.hp, 93);
    assert_eq!(st.phase, CombatPhases::SelectActive);
    // acted flags are reset together when the Enemy phase exits
    assert!(st.players.units.iter().all(|u| !u.send.used));
    assert!(st.enemies.units.iter().all(|u| !u.send.used));
}

#[test]
fn enemy_turn_stops_once_the_player_roster_is_wiped() {
    let players = vec![def(2, 10, 1, 'S', vec![])];
    let enemies = vec![
        def(10, 10, 5, 'S', vec![]),
        def(10, 10, 5, 'S', vec![]),
        def(10, 10, 5, 'S', vec![]),
    ];
    let mut st = CombatState::new(&players, &enemies);
    st.phase = CombatPhases::Enemy;
    let evs = do_enemy_turn(&mut st);
    // the first attack kills the only player; later enemies skip
    assert_eq!(evs.len(), 1);
    assert!(evs[0].died);
    assert_eq!(st.phase, CombatPhases::EnemyWins);
    assert!(st.players.units.is_empty());
}

#[test]
fn enemy_phase_with_no_enemies_left_is_a_player_win() {
    // the last enemy died before its side's turn could start: the win
    // evaluator fires before any enemy intent is emitted
    let players = vec![def(10, 10, 5, 'S', vec![])];
    let mut st = CombatState::new(&players, &Vec::new());
    st.phase = CombatPhases::Enemy;
    let evs = tick(&mut st, &CombatInput::Idle);
    assert!(evs.is_empty());
    assert_eq!(st.phase, CombatPhases::PlayerWins);
}

#[test]
fn empty_player_roster_loses_and_the_loss_is_terminal() {
    let enemies = vec![def(10, 10, 5, 'S', vec![])];
    let mut st = CombatState::new(&Vec::new(), &enemies);
    let evs = tick(&mut st, &CombatInput::Idle);
    assert!(evs.is_empty());
    assert_eq!(st.phase, CombatPhases::EnemyWins);
    // further ticks and intents change nothing
    let evs = tick(&mut st, &attack());
    assert!(evs.is_empty());
    assert_eq!(st.phase, CombatPhases::EnemyWins);
    let evs = tick(&mut st, &CombatInput::Click(300, -100));
    assert!(evs.is_empty());
    assert_eq!(st.phase, CombatPhases::EnemyWins);
    assert_eq!(st.enemies.units[0].receive.hp, 10);
}

#[test]
fn empty_enemy_roster_wins_and_the_win_is_terminal() {
    let players = vec![def(10, 10, 5, 'S', vec![])];
    let mut st = CombatState::new(&players, &Vec::new());
    let evs = tick(&mut st, &CombatInput::Idle);
    assert!(evs.is_empty());
    assert_eq!(st.phase, CombatPhases::PlayerWins);
    let evs = tick(&mut st, &CombatInput::Idle);
    assert!(evs.is_empty());
    assert_eq!(st.phase, CombatPhases::PlayerWins);
}

#[test]
fn confirmed_target_click_resolves_and_returns_to_select_active() {
    let players = vec![def(10, 10, 4, 'S', vec![])];
    let enemies = vec![def(9, 9, 1, 'S', vec![])];
    let mut st = CombatState::new(&players, &enemies);
    st.phase = CombatPhases::SelectTarget;
    st.active = Some(0);
    let evs = tick(&mut st, &CombatInput::Click(300, -100));
    assert_eq!(evs.len(), 1);
    assert_eq!(evs[0].damage, 4);
    assert_eq!(evs[0].remaining_hp, 5);
    assert_eq!(st.enemies.units[0].receive.hp, 5);
    assert_eq!(st.phase, CombatPhases::SelectActive);
}

#[test]
fn killing_the_last_enemy_by_click_ends_the_encounter() {
    let players = vec![def(10, 10, 50, 'S', vec![])];
    let enemies = vec![def(9, 9, 1, 'S', vec![])];
    let mut st = CombatState::new(&players, &enemies);
    st.phase = CombatPhases::SelectTarget;
    st.active = Some(0);
    let evs = tick(&mut st, &CombatInput::Click(300, -100));
    assert_eq!(evs.len(), 1);
    assert!(evs[0].died);
    assert!(st.enemies.units.is_empty());
    assert_eq!(st.phase, CombatPhases::PlayerWins);
}

#[test]
fn a_full_encounter_runs_to_a_player_win() {
    let players = vec![def(100, 100, 10, 'S', vec![])];
    let enemies = vec![def(20, 20, 1, 'S', vec![]), def(20, 20, 1, 'S', vec!['S'])];
    let mut st = CombatState::new(&players, &enemies);
    let mut guard: u32 = 0;
    while !matches!(st.phase, CombatPhases::EnemyWins | CombatPhases::PlayerWins) {
        let input = match st.phase {
            CombatPhases::SelectAction => attack(),
            CombatPhases::SelectTarget => {
                let e = &st.enemies.units[0];
                CombatInput::Click(e.x, e.y)
            }
            _ => CombatInput::Idle,
        };
        tick(&mut st, &input);
        guard += 1;
        assert!(guard < 1000, "encounter did not terminate");
    }
    assert_eq!(st.phase, CombatPhases::PlayerWins);
    assert!(st.enemies.units.is_empty());
    assert!(!st.players.units.is_empty());
}
