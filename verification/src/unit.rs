use vstd::prelude::*;

verus! {

/// A kind of damage. The same enumeration serves as an attack's damage
/// type and as the entries of a unit's weakness and resistance sets.
#[derive(Clone, Copy, Debug, PartialEq, Eq, Structural)]
pub enum DamageType {
    Piercing,
    Bludgeoning,
    Slashing,
}

/// The damage type a character of a unit definition encodes: 'P' is
/// Piercing and 'B' is Bludgeoning; every other character, 'S'
/// included, yields Slashing (unrecognized codes default to Slashing).
pub open spec fn dmg_type_of_char(c: char) -> DamageType {
    if c == 'P' {
        DamageType::Piercing
    } else if c == 'B' {
        DamageType::Bludgeoning
    } else {
        DamageType::Slashing
    }
}

/// Decode one damage-type character of a unit definition.
pub fn parse_dmg_type(character: char) -> (t: DamageType)
    ensures
        t == dmg_type_of_char(character),
{
    match character {
        'P' => DamageType::Piercing,
        'B' => DamageType::Bludgeoning,
        'S' => DamageType::Slashing,
        _ => DamageType::Slashing,
    }
}

/// One unit definition as delivered by the external loader, already
/// parsed from its on-disk schema: this core never reads files.
pub struct UnitJson {
    pub name: String,
    pub sprite: String,
    pub max_hp: u32,
    pub hp: u32,
    pub dmg: u32,
    pub dmg_type: char,
    pub weaknesses: Vec<char>,
    pub resistances: Vec<char>,
}

/// The outgoing half of a unit's combat stats: its base damage, the
/// type of that damage, and whether the unit has used its turn in the
/// current player action cycle.
pub struct AttackSend {
    pub used: bool,
    pub dmg: u32,
    pub dmg_type: DamageType,
}

/// The incoming half of a unit's combat stats: current and maximum hit
/// points and the damage types it is weak or resistant to.
pub struct AttackReceive {
    pub hp: u32,
    pub max_hp: u32,
    pub weaknesses: Vec<DamageType>,
    pub resistances: Vec<DamageType>,
}

/// One combatant: identity, board placement, and its two stat halves.
pub struct UnitRecord {
    pub id: u32,
    pub name: String,
    pub sprite: String,
    pub x: i32,
    pub y: i32,
    pub send: AttackSend,
    pub receive: AttackReceive,
}

/// A unit that may stand in a roster: alive (hit points above zero)
/// and within its hit-point ceiling.
pub open spec fn unit_ok(u: UnitRecord) -> bool {
    0 < u.receive.hp <= u.receive.max_hp
}

/// Membership test on a weakness or resistance list.
pub fn contains_type(types: &Vec<DamageType>, t: DamageType) -> (r: bool)
    ensures
        r == types@.contains(t),
{
    let mut i: usize = 0;
    while i < types.len()
        invariant
            i <= types@.len(),
            forall|j: int| 0 <= j < i ==> types@[j] != t,
        decreases types@.len() - i,
    {
        if types[i] == t {
            assert(types@.contains(t));
            return true;
        }
        i += 1;
    }
    assert(!types@.contains(t));
    false
}

/// The damage one attack deals: resistance to the attack's type halves
/// the base damage (integer floor division); otherwise weakness to it
/// doubles the base damage; otherwise the base damage passes through.
/// A type in both sets counts as resistance only.
pub open spec fn damage_dealt(
    dmg: u32,
    t: DamageType,
    weaknesses: Seq<DamageType>,
    resistances: Seq<DamageType>,
) -> nat {
    if resistances.contains(t) {
        (dmg / 2) as nat
    } else if weaknesses.contains(t) {
        2 * (dmg as nat)
    } else {
        dmg as nat
    }
}

/// Hit points left after taking `d` damage: they never drop below zero.
pub open spec fn hp_after(hp: u32, d: nat) -> u32 {
    if d >= hp {
        0u32
    } else {
        (hp - d) as u32
    }
}

/// Compute the damage `attack` deals to `target`, before applying it.
pub fn compute_damage(attack: &AttackSend, target: &AttackReceive) -> (d: u64)
    ensures
        d == damage_dealt(attack.dmg, attack.dmg_type, target.weaknesses@, target.resistances@),
{
    if contains_type(&target.resistances, attack.dmg_type) {
        (attack.dmg / 2) as u64
    } else if contains_type(&target.weaknesses, attack.dmg_type) {
        2 * (attack.dmg as u64)
    } else {
        attack.dmg as u64
    }
}

/// The damage rule's precedence spelled out: a resisted type is halved
/// even when it also appears among the weaknesses; a type only among
/// the weaknesses is doubled; a type in neither set passes unchanged.
pub proof fn lemma_resistance_precedence(
    dmg: u32,
    t: DamageType,
    weaknesses: Seq<DamageType>,
    resistances: Seq<DamageType>,
)
    ensures
        resistances.contains(t) ==> damage_dealt(dmg, t, weaknesses, resistances) == dmg / 2,
        !resistances.contains(t) && weaknesses.contains(t) ==> damage_dealt(
            dmg,
            t,
            weaknesses,
            resistances,
        ) == 2 * dmg,
        !resistances.contains(t) && !weaknesses.contains(t) ==> damage_dealt(
            dmg,
            t,
            weaknesses,
            resistances,
        ) == dmg,
{
}

} // verus!
