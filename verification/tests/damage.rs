use combat_core::unit::{
    compute_damage, parse_dmg_type, AttackReceive, AttackSend, DamageType,
};

fn send(dmg: u32, dmg_type: DamageType) -> AttackSend {
    AttackSend { used: false, dmg, dmg_type }
}

fn receive(weaknesses: Vec<DamageType>, resistances: Vec<DamageType>) -> AttackReceive {
    AttackReceive { hp: 10, max_hp: 10, weaknesses, resistances }
}

#[test]
fn parse_known_damage_type_codes() {
    assert_eq!(parse_dmg_type('P'), DamageType::Piercing);
    assert_eq!(parse_dmg_type('B'), DamageType::Bludgeoning);
    assert_eq!(parse_dmg_type('S'), DamageType::Slashing);
}

#[test]
fn parse_unknown_code_defaults_to_slashing() {
    assert_eq!(parse_dmg_type('Q'), DamageType::Slashing);
    assert_eq!(parse_dmg_type('p'), DamageType::Slashing);
    assert_eq!(parse_dmg_type(' '), DamageType::Slashing);
}

#[test]
fn resistance_halves_damage() {
    let d = compute_damage(
        &send(10, DamageType::Slashing),
        &receive(vec![], vec![DamageType::Slashing]),
    );
    assert_eq!(d, 5);
}

#[test]
fn resistance_halves_with_floor_division() {
    let d = compute_damage(
        &send(7, DamageType::Piercing),
        &receive(vec![], vec![DamageType::Piercing]),
    );
    assert_eq!(d, 3);
}

#[test]
fn weakness_doubles_damage() {
    let d = compute_damage(
        &send(10, DamageType::Bludgeoning),
        &receive(vec![DamageType::Bludgeoning], vec![]),
    );
    assert_eq!(d, 20);
}

#[test]
fn type_in_both_sets_counts_as_resistance_only() {
    let d = compute_damage(
        &send(10, DamageType::Slashing),
        &receive(vec![DamageType::Slashing], vec![DamageType::Slashing]),
    );
    assert_eq!(d, 5);
}

#[test]
fn unmatched_type_passes_damage_through() {
    let d = compute_damage(
        &send(10, DamageType::Piercing),
        &receive(vec![DamageType::Slashing], vec![DamageType::Bludgeoning]),
    );
    assert_eq!(d, 10);
}

#[test]
fn doubling_near_the_integer_ceiling_does_not_overflow() {
    let d = compute_damage(
        &send(u32::MAX, DamageType::Piercing),
        &receive(vec![DamageType::Piercing], vec![]),
    );
    assert_eq!(d, 2 * (u32::MAX as u64));
}
