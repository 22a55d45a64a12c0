use vstd::prelude::*;

use crate::unit::{
    dmg_type_of_char, parse_dmg_type, unit_ok, AttackReceive, AttackSend, DamageType, UnitJson,
    UnitRecord,
};

verus! {

/// One side's ordered collection of living combat units. A unit
/// belongs to exactly one roster; a unit that dies is removed from it,
/// not merely flagged.
pub struct Roster {
    pub units: Vec<UnitRecord>,
}

/// Every unit of the sequence is alive and within its hit-point ceiling.
pub open spec fn units_ok(s: Seq<UnitRecord>) -> bool {
    forall|i: int| 0 <= i < s.len() ==> unit_ok(#[trigger] s[i])
}

/// No two units of the sequence share an identifier.
pub open spec fn distinct_ids(s: Seq<UnitRecord>) -> bool {
    forall|i: int, j: int| 0 <= i < j < s.len() ==> s[i].id != s[j].id
}

/// Some unit of the sequence carries the identifier.
pub open spec fn has_id(s: Seq<UnitRecord>, id: u32) -> bool {
    exists|i: int| 0 <= i < s.len() && s[i].id == id
}

/// The position of the unit carrying the identifier; meaningful only
/// when `has_id` holds, and unique when the identifiers are distinct.
pub open spec fn idx_of(s: Seq<UnitRecord>, id: u32) -> int {
    choose|i: int| 0 <= i < s.len() && s[i].id == id
}

/// All units of the sequence have used their turn.
pub open spec fn all_acted(s: Seq<UnitRecord>) -> bool {
    forall|i: int| 0 <= i < s.len() ==> (#[trigger] s[i]).send.used
}

/// No unit of the sequence has used its turn.
pub open spec fn none_acted(s: Seq<UnitRecord>) -> bool {
    forall|i: int| 0 <= i < s.len() ==> !(#[trigger] s[i]).send.used
}

/// Under distinct identifiers, the unit found at a position is the one
/// `idx_of` names for its identifier.
pub proof fn lemma_idx_of_position(s: Seq<UnitRecord>, i: int)
    requires
        distinct_ids(s),
        0 <= i < s.len(),
    ensures
        has_id(s, s[i].id),
        idx_of(s, s[i].id) == i,
{
    assert(has_id(s, s[i].id));
    let j = idx_of(s, s[i].id);
    if j != i {
        if j < i {
            assert(s[j].id != s[i].id);
        } else {
            assert(s[i].id != s[j].id);
        }
    }
}

/// Distinctness of a concatenation passes to both halves, and no
/// identifier occurs on both sides.
pub proof fn lemma_concat_distinct(a: Seq<UnitRecord>, b: Seq<UnitRecord>)
    requires
        distinct_ids(a + b),
    ensures
        distinct_ids(a),
        distinct_ids(b),
        forall|i: int, j: int|
            0 <= i < a.len() && 0 <= j < b.len() ==> (#[trigger] a[i]).id != (#[trigger] b[j]).id,
{
    let c = a + b;
    assert forall|i: int, j: int| 0 <= i < j < a.len() implies a[i].id != a[j].id by {
        assert(c[i] == a[i]);
        assert(c[j] == a[j]);
    }
    assert forall|i: int, j: int| 0 <= i < j < b.len() implies b[i].id != b[j].id by {
        assert(c[a.len() + i] == b[i]);
        assert(c[a.len() + j] == b[j]);
    }
    assert forall|i: int, j: int|
        0 <= i < a.len() && 0 <= j < b.len() implies (#[trigger] a[i]).id != (#[trigger] b[j]).id by {
        assert(c[i] == a[i]);
        assert(c[a.len() + j] == b[j]);
    }
}

/// Removing one unit keeps every other identifier present.
pub proof fn lemma_has_id_after_remove(s: Seq<UnitRecord>, i: int, id: u32)
    requires
        0 <= i < s.len(),
        has_id(s, id),
        s[i].id != id,
    ensures
        has_id(s.remove(i), id),
{
    let j = choose|j: int| 0 <= j < s.len() && s[j].id == id;
    if j < i {
        assert(s.remove(i)[j] == s[j]);
    } else {
        assert(s.remove(i)[j - 1] == s[j]);
    }
}

/// Removing a unit introduces no identifier that was absent before.
pub proof fn lemma_no_id_after_remove(s: Seq<UnitRecord>, i: int, id: u32)
    requires
        0 <= i < s.len(),
    ensures
        has_id(s.remove(i), id) ==> has_id(s, id),
{
    if has_id(s.remove(i), id) {
        let j = choose|j: int| 0 <= j < s.remove(i).len() && s.remove(i)[j].id == id;
        if j < i {
            assert(s[j] == s.remove(i)[j]);
            assert(has_id(s, id));
        } else {
            assert(s[j + 1] == s.remove(i)[j]);
            assert(has_id(s, id));
        }
    }
}

/// Under distinct identifiers, removing a unit removes its identifier.
pub proof fn lemma_removed_id_gone(s: Seq<UnitRecord>, i: int)
    requires
        distinct_ids(s),
        0 <= i < s.len(),
    ensures
        !has_id(s.remove(i), s[i].id),
{
    let id = s[i].id;
    if has_id(s.remove(i), id) {
        let j = choose|j: int| 0 <= j < s.remove(i).len() && s.remove(i)[j].id == id;
        if j < i {
            assert(s[j] == s.remove(i)[j]);
            assert(s[j].id != s[i].id);
        } else {
            assert(s[j + 1] == s.remove(i)[j]);
            assert(s[i].id != s[j + 1].id);
        }
    }
}

/// Find the position of the unit carrying `id`, scanning in roster
/// order.
pub fn find_index(units: &Vec<UnitRecord>, id: u32) -> (r: Option<usize>)
    ensures
        match r {
            Some(i) => i < units@.len() && units@[i as int].id == id && forall|j: int|
                0 <= j < i ==> units@[j].id != id,
            None => !has_id(units@, id),
        },
{
    let mut i: usize = 0;
    while i < units.len()
        invariant
            i <= units@.len(),
            forall|j: int| 0 <= j < i ==> units@[j].id != id,
        decreases units@.len() - i,
    {
        if units[i].id == id {
            return Some(i);
        }
        i += 1;
    }
    assert(!has_id(units@, id));
    None
}

/// Decode a weakness or resistance list from its definition characters.
pub fn parse_types(chars: &Vec<char>) -> (r: Vec<DamageType>)
    ensures
        r@.len() == chars@.len(),
        forall|i: int| 0 <= i < chars@.len() ==> r@[i] == dmg_type_of_char(chars@[i]),
{
    let mut r: Vec<DamageType> = Vec::new();
    let mut i: usize = 0;
    while i < chars.len()
        invariant
            i <= chars@.len(),
            r@.len() == i,
            forall|j: int| 0 <= j < i ==> r@[j] == dmg_type_of_char(chars@[j]),
        decreases chars@.len() - i,
    {
        r.push(parse_dmg_type(chars[i]));
        i += 1;
    }
    r
}

/// The unit a definition spawns into a roster slot: stats copied,
/// damage-type characters decoded, the acted flag clear, and the unit
/// placed in a vertical column at the side's horizontal offset.
pub open spec fn matches_def(u: UnitRecord, def: UnitJson, id: u32, x_offset: i32, slot: int) -> bool {
    &&& u.id == id
    &&& u.name == def.name
    &&& u.sprite == def.sprite
    &&& u.x == x_offset
    &&& u.y == -100 + 100 * slot
    &&& u.send.used == false
    &&& u.send.dmg == def.dmg
    &&& u.send.dmg_type == dmg_type_of_char(def.dmg_type)
    &&& u.receive.hp == def.hp
    &&& u.receive.max_hp == def.max_hp
    &&& u.receive.weaknesses@.len() == def.weaknesses@.len()
    &&& (forall|j: int|
        0 <= j < def.weaknesses@.len() ==> u.receive.weaknesses@[j] == dmg_type_of_char(
            def.weaknesses@[j],
        ))
    &&& u.receive.resistances@.len() == def.resistances@.len()
    &&& (forall|j: int|
        0 <= j < def.resistances@.len() ==> u.receive.resistances@[j] == dmg_type_of_char(
            def.resistances@[j],
        ))
}

/// Build one side's roster from its unit definitions. Units take the
/// consecutive identifiers starting at `first_id` and stand in roster
/// order in a vertical column at `x_offset`.
pub fn spawn_team(defs: &Vec<UnitJson>, x_offset: i32, first_id: u32) -> (r: Roster)
    requires
        first_id + defs@.len() <= 0x1_0000_0000,
        100 * defs@.len() <= 0x7fff_ffff,
    ensures
        r.units@.len() == defs@.len(),
        forall|i: int|
            0 <= i < defs@.len() ==> matches_def(
                #[trigger] r.units@[i],
                defs@[i],
                (first_id + i) as u32,
                x_offset,
                i,
            ),
{
    let mut units: Vec<UnitRecord> = Vec::new();
    let mut i: usize = 0;
    while i < defs.len()
        invariant
            i <= defs@.len(),
            units@.len() == i,
            first_id + defs@.len() <= 0x1_0000_0000,
            100 * defs@.len() <= 0x7fff_ffff,
            forall|k: int|
                0 <= k < i ==> matches_def(
                    #[trigger] units@[k],
                    defs@[k],
                    (first_id + k) as u32,
                    x_offset,
                    k,
                ),
        decreases defs@.len() - i,
    {
        let def = &defs[i];
        let unit = UnitRecord {
            id: first_id + (i as u32),
            name: def.name.clone(),
            sprite: def.sprite.clone(),
            x: x_offset,
            y: -100 + 100 * (i as i32),
            send: AttackSend {
                used: false,
                dmg: def.dmg,
                dmg_type: parse_dmg_type(def.dmg_type),
            },
            receive: AttackReceive {
                hp: def.hp,
                max_hp: def.max_hp,
                weaknesses: parse_types(&def.weaknesses),
                resistances: parse_types(&def.resistances),
            },
        };
        units.push(unit);
        i += 1;
    }
    Roster { units }
}

/// Reset the acted flag of every unit of the sequence, leaving all
/// other fields alone.
pub fn clear_acted_flags(units: &mut Vec<UnitRecord>)
    ensures
        final(units)@.len() == old(units)@.len(),
        forall|i: int|
            0 <= i < old(units)@.len() ==> final(units)@[i] == (UnitRecord {
                send: AttackSend { used: false, ..old(units)@[i].send },
                ..old(units)@[i]
            }),
{
    let mut i: usize = 0;
    while i < units.len()
        invariant
            i <= units@.len(),
            units@.len() == old(units)@.len(),
            forall|k: int|
                0 <= k < i ==> units@[k] == (UnitRecord {
                    send: AttackSend { used: false, ..old(units)@[k].send },
                    ..old(units)@[k]
                }),
            forall|k: int| i <= k < units@.len() ==> units@[k] == old(units)@[k],
        decreases units@.len() - i,
    {
        units[i].send.used = false;
        i += 1;
    }
}

} // verus!
