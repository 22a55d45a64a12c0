use vstd::prelude::*;

use crate::roster::{
    all_acted, clear_acted_flags, distinct_ids, find_index, has_id, idx_of,
    lemma_concat_distinct, lemma_has_id_after_remove, lemma_idx_of_position, none_acted,
    spawn_team, units_ok, Roster,
};
use crate::states::CombatPhases;
use crate::gui::{combat_button_events, CombatActions, CombatButtonEvent};
use crate::unit::{
    damage_dealt, hp_after, unit_ok, AttackReceive, AttackSend, UnitJson, UnitRecord,
    compute_damage,
};

verus! {

/// A pending attack intent: the identifiers of the unit dealing the
/// blow and of the unit receiving it.
#[derive(Clone, Copy, Debug, PartialEq, Eq, Structural)]
pub struct CombatEvent {
    pub send: u32,
    pub receive: u32,
}

/// What one resolved attack did, reported for logging and display.
#[derive(Clone, Copy, Debug, PartialEq, Eq, Structural)]
pub struct AttackReport {
    pub send: u32,
    pub receive: u32,
    pub damage: u64,
    pub remaining_hp: u32,
    pub died: bool,
}

/// The whole combat state: the current phase, the two rosters, and the
/// identifier of the player unit currently empowered to act, if any.
pub struct CombatState {
    pub phase: CombatPhases,
    pub players: Roster,
    pub enemies: Roster,
    pub active: Option<u32>,
}

impl CombatState {
    /// The player roster's units.
    pub open spec fn pl(self) -> Seq<UnitRecord> {
        self.players.units@
    }

    /// The enemy roster's units.
    pub open spec fn en(self) -> Seq<UnitRecord> {
        self.enemies.units@
    }

    /// Well-formedness: every unit in a roster is alive and within its
    /// hit-point ceiling, no identifier occurs twice across the two
    /// rosters, and the active unit, when set, is a player unit.
    pub open spec fn wf(self) -> bool {
        &&& units_ok(self.pl())
        &&& units_ok(self.en())
        &&& distinct_ids(self.pl() + self.en())
        &&& (self.active matches Some(id) ==> has_id(self.pl(), id))
    }
}

impl CombatState {
    /// Start an encounter: build both rosters from their already
    /// loaded definitions, placing the player side left and the enemy
    /// side right, and enter `SelectActive` with no active unit yet.
    /// Identifiers are consecutive: players first, then enemies.
    pub fn new(player_defs: &Vec<UnitJson>, enemy_defs: &Vec<UnitJson>) -> (s: CombatState)
        requires
            forall|i: int|
                0 <= i < player_defs@.len() ==> 0 < (#[trigger] player_defs@[i]).hp
                    <= player_defs@[i].max_hp,
            forall|i: int|
                0 <= i < enemy_defs@.len() ==> 0 < (#[trigger] enemy_defs@[i]).hp
                    <= enemy_defs@[i].max_hp,
            player_defs@.len() + enemy_defs@.len() <= 0x1_0000_0000,
            100 * player_defs@.len() <= 0x7fff_ffff,
            100 * enemy_defs@.len() <= 0x7fff_ffff,
        ensures
            s.wf(),
            s.phase == CombatPhases::SelectActive,
            s.active is None,
            s.pl().len() == player_defs@.len(),
            s.en().len() == enemy_defs@.len(),
            forall|i: int|
                0 <= i < player_defs@.len() ==> crate::roster::matches_def(
                    #[trigger] s.pl()[i],
                    player_defs@[i],
                    i as u32,
                    (-300i32),
                    i,
                ),
            forall|i: int|
                0 <= i < enemy_defs@.len() ==> crate::roster::matches_def(
                    #[trigger] s.en()[i],
                    enemy_defs@[i],
                    (player_defs@.len() + i) as u32,
                    (300i32),
                    i,
                ),
            none_acted(s.pl()),
            none_acted(s.en()),
    {
        let players = spawn_team(player_defs, -300, 0);
        let first_enemy_id = player_defs.len() as u32;
        let enemies = spawn_team(enemy_defs, 300, first_enemy_id);
        let s = CombatState {
            phase: CombatPhases::SelectActive,
            players,
            enemies,
            active: None,
        };
        proof {
            let c = s.pl() + s.en();
            let np = player_defs@.len() as int;
            assert forall|k: int| 0 <= k < c.len() implies (#[trigger] c[k]).id == k by {
                if k < np {
                    assert(c[k] == s.pl()[k]);
                } else {
                    assert(c[k] == s.en()[k - np]);
                }
            }
            assert(distinct_ids(c));
            assert(units_ok(s.pl())) by {
                assert forall|k: int| 0 <= k < s.pl().len() implies unit_ok(
                    #[trigger] s.pl()[k],
                ) by {
                    assert(crate::roster::matches_def(
                        s.pl()[k],
                        player_defs@[k],
                        k as u32,
                        (-300i32),
                        k,
                    ));
                }
            }
            assert(units_ok(s.en())) by {
                assert forall|k: int| 0 <= k < s.en().len() implies unit_ok(
                    #[trigger] s.en()[k],
                ) by {
                    assert(crate::roster::matches_def(
                        s.en()[k],
                        enemy_defs@[k],
                        (np + k) as u32,
                        (300i32),
                        k,
                    ));
                }
            }
        }
        s
    }
}

/// The pick radius: how close, in world distance units, a click must
/// land to a unit's position to count as a hit on it.
pub const PICK_RADIUS: u32 = 32;

/// Squared world distance between a unit's position and a click.
pub open spec fn dist2(u: UnitRecord, x: int, y: int) -> int {
    (u.x - x) * (u.x - x) + (u.y - y) * (u.y - y)
}

/// Whether a click at (x, y) hits the unit: within the pick radius.
pub open spec fn within_pick(u: UnitRecord, x: int, y: int) -> bool {
    dist2(u, x, y) <= PICK_RADIUS * PICK_RADIUS
}

/// The unit at `i` is the target a click at (x, y) picks out of the
/// roster: hit by the click, nearest to it among all hit units, and
/// earliest in roster order among equally near ones.
pub open spec fn picked_target(en: Seq<UnitRecord>, x: int, y: int, i: int) -> bool {
    &&& 0 <= i < en.len()
    &&& within_pick(en[i], x, y)
    &&& (forall|j: int|
        0 <= j < en.len() && within_pick(#[trigger] en[j], x, y) ==> dist2(en[i], x, y) <= dist2(
            en[j],
            x,
            y,
        ))
    &&& (forall|j: int|
        0 <= j < i && within_pick(#[trigger] en[j], x, y) ==> dist2(en[j], x, y) > dist2(
            en[i],
            x,
            y,
        ))
}

/// Squared distance from the unit's position to (x, y), computed wide
/// enough that no coordinate pair can overflow.
fn dist2_to(u: &UnitRecord, x: i32, y: i32) -> (d: i128)
    ensures
        d == dist2(*u, x as int, y as int),
{
    let dx: i128 = (u.x as i128) - (x as i128);
    let dy: i128 = (u.y as i128) - (y as i128);
    proof {
        assert(dx * dx <= 0x1_0000_0000_0000_0000 && dx * dx >= 0) by (nonlinear_arith)
            requires
                -0x1_0000_0000 <= dx <= 0x1_0000_0000,
        ;
        assert(dy * dy <= 0x1_0000_0000_0000_0000 && dy * dy >= 0) by (nonlinear_arith)
            requires
                -0x1_0000_0000 <= dy <= 0x1_0000_0000,
        ;
    }
    dx * dx + dy * dy
}

/// Player-mode targeting: consume one click at world position (x, y)
/// while a target is being chosen. An intent is emitted only when an
/// active unit is set and the click hits a living enemy; among the
/// enemies hit, the nearest to the click is chosen, and the earliest
/// in roster order among equally near ones. Without an active unit no
/// intent is ever emitted, however valid the click.
pub fn listen_for_input(state: &CombatState, x: i32, y: i32) -> (intent: Option<CombatEvent>)
    ensures
        state.active is None ==> intent is None,
        (forall|j: int|
            0 <= j < state.en().len() ==> !within_pick(#[trigger] state.en()[j], x as int, y as int))
            ==> intent is None,
        state.active is Some && (exists|j: int|
            0 <= j < state.en().len() && within_pick(#[trigger] state.en()[j], x as int, y as int))
            ==> intent is Some,
        intent matches Some(ev) ==> {
            &&& state.active == Some(ev.send)
            &&& exists|i: int|
                picked_target(state.en(), x as int, y as int, i) && (#[trigger] state.en()[i]).id
                    == ev.receive
        },
{
    let active_id: u32;
    match state.active {
        None => {
            return None;
        },
        Some(id) => {
            active_id = id;
        },
    }
    let radius2: i128 = (PICK_RADIUS as i128) * (PICK_RADIUS as i128);
    let ghost en0 = state.en();
    let mut best: Option<usize> = None;
    let mut best_d: i128 = 0;
    let mut i: usize = 0;
    while i < state.enemies.units.len()
        invariant
            i <= en0.len(),
            state.enemies.units@ == en0,
            radius2 == PICK_RADIUS * PICK_RADIUS,
            best is None ==> forall|j: int|
                0 <= j < i ==> !within_pick(#[trigger] en0[j], x as int, y as int),
            best matches Some(b) ==> {
                &&& b < i
                &&& within_pick(en0[b as int], x as int, y as int)
                &&& best_d == dist2(en0[b as int], x as int, y as int)
                &&& (forall|j: int|
                    0 <= j < i && within_pick(#[trigger] en0[j], x as int, y as int) ==> best_d
                        <= dist2(en0[j], x as int, y as int))
                &&& (forall|j: int|
                    0 <= j < b && within_pick(#[trigger] en0[j], x as int, y as int) ==> dist2(
                        en0[j],
                        x as int,
                        y as int,
                    ) > best_d)
            },
        decreases en0.len() - i,
    {
        let d = dist2_to(&state.enemies.units[i], x, y);
        if d <= radius2 {
            match best {
                None => {
                    best = Some(i);
                    best_d = d;
                },
                Some(_) => {
                    if d < best_d {
                        best = Some(i);
                        best_d = d;
                    }
                },
            }
        }
        i += 1;
    }
    match best {
        None => None,
        Some(b) => {
            proof {
                assert(picked_target(en0, x as int, y as int, b as int));
            }
            Some(CombatEvent { send: active_id, receive: state.enemies.units[b].id })
        },
    }
}

/// The sequence with the unit at `i` marked as having used its turn.
pub open spec fn mark_acted(s: Seq<UnitRecord>, i: int) -> Seq<UnitRecord>
    recommends
        0 <= i < s.len(),
{
    s.update(i, (UnitRecord { send: AttackSend { used: true, ..s[i].send }, ..s[i] }))
}

/// The sequence after the unit at `i` takes `d` damage: its hit points
/// drop, saturating at zero, and a unit brought to zero is removed.
pub open spec fn strike(s: Seq<UnitRecord>, i: int, d: nat) -> Seq<UnitRecord>
    recommends
        0 <= i < s.len(),
{
    if hp_after(s[i].receive.hp, d) == 0 {
        s.remove(i)
    } else {
        s.update(
            i,
            (UnitRecord {
                receive: AttackReceive { hp: hp_after(s[i].receive.hp, d), ..s[i].receive },
                ..s[i]
            }),
        )
    }
}

/// One roster's share of resolving an attack intent dealing `d`
/// damage: its copy of the sender, if present, is marked as having
/// acted, and its copy of the receiver, if present, is struck.
pub open spec fn after_attack(s: Seq<UnitRecord>, send_id: u32, recv_id: u32, d: nat) -> Seq<
    UnitRecord,
> {
    let marked = if has_id(s, send_id) {
        mark_acted(s, idx_of(s, send_id))
    } else {
        s
    };
    if has_id(s, recv_id) {
        strike(marked, idx_of(s, recv_id), d)
    } else {
        marked
    }
}

/// An intent is resolvable when sender and receiver are different
/// units and both still stand in a roster; otherwise it is silently
/// dropped.
pub open spec fn resolvable(
    pl: Seq<UnitRecord>,
    en: Seq<UnitRecord>,
    send_id: u32,
    recv_id: u32,
) -> bool {
    &&& send_id != recv_id
    &&& has_id(pl, send_id) || has_id(en, send_id)
    &&& has_id(pl, recv_id) || has_id(en, recv_id)
}

/// The unit carrying `id`, looked up in the player roster first.
pub open spec fn unit_with(pl: Seq<UnitRecord>, en: Seq<UnitRecord>, id: u32) -> UnitRecord {
    if has_id(pl, id) {
        pl[idx_of(pl, id)]
    } else {
        en[idx_of(en, id)]
    }
}

/// The damage a resolvable intent deals, from the sender's outgoing
/// stats and the receiver's weaknesses and resistances.
pub open spec fn resolve_damage(
    pl: Seq<UnitRecord>,
    en: Seq<UnitRecord>,
    send_id: u32,
    recv_id: u32,
) -> nat {
    let att = unit_with(pl, en, send_id);
    let tgt = unit_with(pl, en, recv_id);
    damage_dealt(att.send.dmg, att.send.dmg_type, tgt.receive.weaknesses@, tgt.receive.resistances@)
}

/// Marking a unit as acted changes nothing but that unit's flag.
pub proof fn lemma_mark_acted_facts(s: Seq<UnitRecord>, i: int)
    requires
        0 <= i < s.len(),
    ensures
        mark_acted(s, i).len() == s.len(),
        forall|k: int| 0 <= k < s.len() ==> (#[trigger] mark_acted(s, i)[k]).id == s[k].id,
        forall|k: int| 0 <= k < s.len() ==> (#[trigger] mark_acted(s, i)[k]).receive == s[k].receive,
        forall|k: int| 0 <= k < s.len() && k != i ==> #[trigger] mark_acted(s, i)[k] == s[k],
        mark_acted(s, i)[i].send.used,
        units_ok(s) ==> units_ok(mark_acted(s, i)),
{
    assert forall|k: int| 0 <= k < s.len() && units_ok(s) implies unit_ok(
        #[trigger] mark_acted(s, i)[k],
    ) by {
        assert(unit_ok(s[k]));
    }
}

/// Striking a unit preserves roster well-formedness and touches no
/// other unit; a killed unit leaves, a surviving one keeps its
/// identity and stats with reduced hit points.
pub proof fn lemma_strike_facts(s: Seq<UnitRecord>, i: int, d: nat)
    requires
        0 <= i < s.len(),
        units_ok(s),
    ensures
        units_ok(strike(s, i, d)),
        hp_after(s[i].receive.hp, d) == 0 ==> strike(s, i, d) == s.remove(i),
        hp_after(s[i].receive.hp, d) != 0 ==> {
            &&& strike(s, i, d).len() == s.len()
            &&& (forall|k: int| 0 <= k < s.len() && k != i ==> #[trigger] strike(s, i, d)[k] == s[k])
            &&& strike(s, i, d)[i].id == s[i].id
            &&& strike(s, i, d)[i].send == s[i].send
            &&& strike(s, i, d)[i].receive.hp == hp_after(s[i].receive.hp, d)
        },
{
    let nh = hp_after(s[i].receive.hp, d);
    if nh == 0 {
        assert forall|k: int| 0 <= k < s.remove(i).len() implies unit_ok(
            #[trigger] s.remove(i)[k],
        ) by {
            if k < i {
                assert(s.remove(i)[k] == s[k]);
            } else {
                assert(s.remove(i)[k] == s[k + 1]);
            }
        }
    } else {
        assert(unit_ok(s[i]));
        assert forall|k: int| 0 <= k < s.len() implies unit_ok(#[trigger] strike(s, i, d)[k]) by {
            assert(unit_ok(s[k]));
        }
    }
}

/// A sequence whose identifiers agree pointwise with a distinct one is
/// itself distinct, and holds the same identifiers.
pub proof fn lemma_ids_pointwise(a: Seq<UnitRecord>, b: Seq<UnitRecord>)
    requires
        a.len() == b.len(),
        forall|k: int| 0 <= k < a.len() ==> (#[trigger] a[k]).id == b[k].id,
    ensures
        distinct_ids(a) ==> distinct_ids(b),
        forall|id: u32| has_id(a, id) == has_id(b, id),
{
    if distinct_ids(a) {
        assert forall|i: int, j: int| 0 <= i < j < b.len() implies b[i].id != b[j].id by {
            assert(a[i].id == b[i].id);
            assert(a[j].id == b[j].id);
        }
    }
    assert forall|id: u32| has_id(a, id) == has_id(b, id) by {
        if has_id(a, id) {
            let k = choose|k: int| 0 <= k < a.len() && a[k].id == id;
            assert(b[k].id == id);
        }
        if has_id(b, id) {
            let k = choose|k: int| 0 <= k < b.len() && b[k].id == id;
            assert(a[k].id == id);
        }
    }
}

/// Removing a unit from the left half of a concatenation is removing
/// it from the concatenation.
pub proof fn lemma_remove_concat_left(a: Seq<UnitRecord>, b: Seq<UnitRecord>, i: int)
    requires
        0 <= i < a.len(),
    ensures
        a.remove(i) + b == (a + b).remove(i),
{
    let lhs = a.remove(i) + b;
    let rhs = (a + b).remove(i);
    assert(lhs.len() == rhs.len());
    assert forall|k: int| 0 <= k < lhs.len() implies lhs[k] == rhs[k] by {
        if k < i {
        } else if k < a.len() - 1 {
        } else {
        }
    }
    assert(lhs =~= rhs);
}

/// Removing a unit from the right half of a concatenation is removing
/// it from the concatenation.
pub proof fn lemma_remove_concat_right(a: Seq<UnitRecord>, b: Seq<UnitRecord>, i: int)
    requires
        0 <= i < b.len(),
    ensures
        a + b.remove(i) == (a + b).remove(a.len() + i),
{
    let lhs = a + b.remove(i);
    let rhs = (a + b).remove(a.len() + i);
    assert(lhs.len() == rhs.len());
    assert forall|k: int| 0 <= k < lhs.len() implies lhs[k] == rhs[k] by {
        if k < a.len() {
        } else if k < a.len() + i {
        } else {
        }
    }
    assert(lhs =~= rhs);
}

/// Mark the unit at `i` as having used its turn.
fn mark_sender(units: &mut Vec<UnitRecord>, i: usize)
    requires
        i < old(units)@.len(),
    ensures
        final(units)@ == mark_acted(old(units)@, i as int),
{
    units[i].send.used = true;
}

/// Deal `d` damage to the unit at `i`, removing it if its hit points
/// reach zero; returns the hit points it has left.
fn strike_unit(units: &mut Vec<UnitRecord>, i: usize, d: u64) -> (nh: u32)
    requires
        i < old(units)@.len(),
    ensures
        final(units)@ == strike(old(units)@, i as int, d as nat),
        nh == hp_after(old(units)@[i as int].receive.hp, d as nat),
{
    let hp = units[i].receive.hp;
    if d >= hp as u64 {
        units.remove(i);
        0
    } else {
        assert(d as u32 == d as nat);
        units[i].receive.hp = hp - (d as u32);
        hp - (d as u32)
    }
}

/// The Attack Resolver. A resolvable intent (sender and receiver are
/// different units and both still stand in a roster) deals the damage
/// the sender's type and the receiver's weaknesses and resistances
/// dictate, saturating at zero hit points; a receiver brought to zero
/// is removed from its roster, and the active-unit reference to it, if
/// any, is cleared; the sender is marked as having acted. Any other
/// intent is silently dropped. The phase never changes here.
pub fn resolve_attack(state: &mut CombatState, event: &CombatEvent) -> (report: Option<
    AttackReport,
>)
    requires
        old(state).wf(),
    ensures
        final(state).wf(),
        final(state).phase == old(state).phase,
        !resolvable(old(state).pl(), old(state).en(), event.send, event.receive) ==> {
            &&& final(state).pl() == old(state).pl()
            &&& final(state).en() == old(state).en()
            &&& final(state).active == old(state).active
            &&& report is None
        },
        resolvable(old(state).pl(), old(state).en(), event.send, event.receive) ==> ({
            let d = resolve_damage(old(state).pl(), old(state).en(), event.send, event.receive);
            let tgt = unit_with(old(state).pl(), old(state).en(), event.receive);
            &&& final(state).pl() == after_attack(old(state).pl(), event.send, event.receive, d)
            &&& final(state).en() == after_attack(old(state).en(), event.send, event.receive, d)
            &&& final(state).active == (if hp_after(tgt.receive.hp, d) == 0 && old(state).active
                == Some(event.receive) {
                None::<u32>
            } else {
                old(state).active
            })
            &&& report == Some(
                AttackReport {
                    send: event.send,
                    receive: event.receive,
                    damage: d as u64,
                    remaining_hp: hp_after(tgt.receive.hp, d),
                    died: hp_after(tgt.receive.hp, d) == 0,
                },
            )
        }),
{
    let ghost pl0 = state.players.units@;
    let ghost en0 = state.enemies.units@;
    let ghost act0 = state.active;
    proof {
        lemma_concat_distinct(pl0, en0);
        assert forall|id: u32| !(has_id(pl0, id) && has_id(en0, id)) by {
            if has_id(pl0, id) && has_id(en0, id) {
                let i = choose|i: int| 0 <= i < pl0.len() && pl0[i].id == id;
                let j = choose|j: int| 0 <= j < en0.len() && en0[j].id == id;
                assert(pl0[i].id != en0[j].id);
            }
        }
    }
    if event.send == event.receive {
        return None;
    }
    let send_pl = find_index(&state.players.units, event.send);
    let send_en = find_index(&state.enemies.units, event.send);
    let recv_pl = find_index(&state.players.units, event.receive);
    let recv_en = find_index(&state.enemies.units, event.receive);

    let sender_in_players: bool;
    let si: usize;
    match (send_pl, send_en) {
        (Some(i), _) => {
            sender_in_players = true;
            si = i;
        },
        (None, Some(i)) => {
            sender_in_players = false;
            si = i;
        },
        (None, None) => {
            return None;
        },
    }
    let recv_in_players: bool;
    let ri: usize;
    match (recv_pl, recv_en) {
        (Some(i), _) => {
            recv_in_players = true;
            ri = i;
        },
        (None, Some(i)) => {
            recv_in_players = false;
            ri = i;
        },
        (None, None) => {
            return None;
        },
    }
    proof {
        if sender_in_players {
            lemma_idx_of_position(pl0, si as int);
        } else {
            lemma_idx_of_position(en0, si as int);
        }
        if recv_in_players {
            lemma_idx_of_position(pl0, ri as int);
        } else {
            lemma_idx_of_position(en0, ri as int);
        }
    }

    let d: u64 = match (sender_in_players, recv_in_players) {
        (true, true) => compute_damage(
            &state.players.units[si].send,
            &state.players.units[ri].receive,
        ),
        (true, false) => compute_damage(
            &state.players.units[si].send,
            &state.enemies.units[ri].receive,
        ),
        (false, true) => compute_damage(
            &state.enemies.units[si].send,
            &state.players.units[ri].receive,
        ),
        (false, false) => compute_damage(
            &state.enemies.units[si].send,
            &state.enemies.units[ri].receive,
        ),
    };
    assert(d == resolve_damage(pl0, en0, event.send, event.receive));
    let ghost tgt = unit_with(pl0, en0, event.receive);

    if sender_in_players {
        mark_sender(&mut state.players.units, si);
    } else {
        mark_sender(&mut state.enemies.units, si);
    }
    proof {
        if sender_in_players {
            lemma_mark_acted_facts(pl0, si as int);
        } else {
            lemma_mark_acted_facts(en0, si as int);
        }
    }
    let nh: u32 = if recv_in_players {
        strike_unit(&mut state.players.units, ri, d)
    } else {
        strike_unit(&mut state.enemies.units, ri, d)
    };
    if nh == 0 {
        match state.active {
            Some(aid) => {
                if aid == event.receive {
                    state.active = None;
                }
            },
            None => {},
        }
    }
    proof {
        lemma_resolution_shape(pl0, en0, event.send, event.receive, d as nat);
        // the roster that does not hold a participant is left alone by
        // `after_attack`
        if sender_in_players {
            assert(!has_id(en0, event.send));
        } else {
            assert(!has_id(pl0, event.send));
        }
        if recv_in_players {
            assert(!has_id(en0, event.receive));
            assert(idx_of(pl0, event.receive) == ri as int);
            assert(nh == hp_after(tgt.receive.hp, d as nat));
        } else {
            assert(!has_id(pl0, event.receive));
            assert(idx_of(en0, event.receive) == ri as int);
            assert(nh == hp_after(tgt.receive.hp, d as nat));
        }
        assert(state.players.units@ == after_attack(pl0, event.send, event.receive, d as nat));
        assert(state.enemies.units@ == after_attack(en0, event.send, event.receive, d as nat));
        // the active reference, when kept, still names a player unit
        match act0 {
            Some(aid) => {
                if !(nh == 0 && aid == event.receive) {
                    assert(has_id(pl0, aid));
                    if aid != event.receive {
                        assert(has_id(state.players.units@, aid));
                    } else {
                        assert(has_id(pl0, event.receive));
                        assert(has_id(state.players.units@, aid));
                    }
                }
            },
            None => {},
        }
    }
    Some(
        AttackReport {
            send: event.send,
            receive: event.receive,
            damage: d,
            remaining_hp: nh,
            died: nh == 0,
        },
    )
}

/// Resolving an attack keeps the two rosters well formed and distinct,
/// and every identifier other than the receiver's survives in place.
pub proof fn lemma_resolution_shape(
    pl: Seq<UnitRecord>,
    en: Seq<UnitRecord>,
    send_id: u32,
    recv_id: u32,
    d: nat,
)
    requires
        units_ok(pl),
        units_ok(en),
        distinct_ids(pl + en),
        send_id != recv_id,
        has_id(pl, send_id) || has_id(en, send_id),
        has_id(pl, recv_id) || has_id(en, recv_id),
    ensures
        units_ok(after_attack(pl, send_id, recv_id, d)),
        units_ok(after_attack(en, send_id, recv_id, d)),
        distinct_ids(
            after_attack(pl, send_id, recv_id, d) + after_attack(en, send_id, recv_id, d),
        ),
        forall|id: u32|
            id != recv_id ==> #[trigger] has_id(after_attack(pl, send_id, recv_id, d), id)
                == has_id(pl, id),
        has_id(pl, recv_id) && hp_after(pl[idx_of(pl, recv_id)].receive.hp, d) != 0 ==> has_id(
            after_attack(pl, send_id, recv_id, d),
            recv_id,
        ),
{
    lemma_concat_distinct(pl, en);
    let pl1 = if has_id(pl, send_id) {
        mark_acted(pl, idx_of(pl, send_id))
    } else {
        pl
    };
    let en1 = if has_id(en, send_id) {
        mark_acted(en, idx_of(en, send_id))
    } else {
        en
    };
    if has_id(pl, send_id) {
        let i = idx_of(pl, send_id);
        assert(0 <= i < pl.len() && pl[i].id == send_id);
        lemma_mark_acted_facts(pl, i);
    }
    if has_id(en, send_id) {
        let i = idx_of(en, send_id);
        assert(0 <= i < en.len() && en[i].id == send_id);
        lemma_mark_acted_facts(en, i);
    }
    // marking changes no identifier, pointwise
    assert(pl1.len() == pl.len());
    assert(en1.len() == en.len());
    assert(forall|k: int| 0 <= k < pl.len() ==> (#[trigger] pl1[k]).id == pl[k].id);
    assert(forall|k: int| 0 <= k < en.len() ==> (#[trigger] en1[k]).id == en[k].id);
    assert(units_ok(pl1));
    assert(units_ok(en1));
    let c = pl + en;
    let c1 = pl1 + en1;
    assert(c1.len() == c.len());
    assert forall|k: int| 0 <= k < c.len() implies (#[trigger] c1[k]).id == c[k].id by {
        if k < pl.len() {
            assert(c1[k] == pl1[k]);
            assert(c[k] == pl[k]);
        } else {
            assert(c1[k] == en1[k - pl.len()]);
            assert(c[k] == en[k - pl.len()]);
        }
    }
    lemma_ids_pointwise(c, c1);
    assert(distinct_ids(c1));

    if has_id(pl, recv_id) {
        let r = idx_of(pl, recv_id);
        assert(0 <= r < pl.len() && pl[r].id == recv_id);
        assert(pl1[r].receive == pl[r].receive);
        lemma_strike_facts(pl1, r, d);
        assert(after_attack(pl, send_id, recv_id, d) == strike(pl1, r, d));
        assert(after_attack(en, send_id, recv_id, d) == en1) by {
            if has_id(en, recv_id) {
                let j = idx_of(en, recv_id);
                assert(en[j].id == recv_id);
                assert(pl[r].id != en[j].id);
                assert(false);
            }
        }
        if hp_after(pl1[r].receive.hp, d) == 0 {
            assert(strike(pl1, r, d) == pl1.remove(r));
            lemma_remove_concat_left(pl1, en1, r);
            lemma_distinct_remove(c1, r);
            assert(distinct_ids(pl1.remove(r) + en1));
            // identifiers other than the receiver's survive
            assert forall|id: u32| id != recv_id implies #[trigger] has_id(
                after_attack(pl, send_id, recv_id, d),
                id,
            ) == has_id(pl, id) by {
                lemma_ids_pointwise(pl, pl1);
                if has_id(pl, id) {
                    assert(pl1[r].id == recv_id);
                    lemma_has_id_after_remove(pl1, r, id);
                }
                crate::roster::lemma_no_id_after_remove(pl1, r, id);
            }
        } else {
            assert(strike(pl1, r, d).len() == pl1.len());
            let pl2 = strike(pl1, r, d);
            assert(forall|k: int| 0 <= k < pl1.len() ==> (#[trigger] pl2[k]).id == pl1[k].id);
            let c2 = pl2 + en1;
            assert(c2.len() == c1.len());
            assert forall|k: int| 0 <= k < c1.len() implies (#[trigger] c2[k]).id == c1[k].id by {
                if k < pl1.len() {
                    assert(c2[k] == pl2[k]);
                    assert(c1[k] == pl1[k]);
                } else {
                    assert(c2[k] == en1[k - pl1.len()]);
                    assert(c1[k] == en1[k - pl1.len()]);
                }
            }
            lemma_ids_pointwise(c1, c2);
            assert forall|id: u32| id != recv_id implies #[trigger] has_id(
                after_attack(pl, send_id, recv_id, d),
                id,
            ) == has_id(pl, id) by {
                lemma_ids_pointwise(pl, pl1);
                lemma_ids_pointwise(pl1, pl2);
            }
            assert(pl2[r].id == recv_id);
            assert(has_id(pl2, recv_id));
        }
    } else {
        assert(after_attack(pl, send_id, recv_id, d) == pl1);
        assert(has_id(en, recv_id));
        let r = idx_of(en, recv_id);
        assert(0 <= r < en.len() && en[r].id == recv_id);
        assert(en1[r].receive == en[r].receive);
        lemma_strike_facts(en1, r, d);
        assert(after_attack(en, send_id, recv_id, d) == strike(en1, r, d));
        assert forall|id: u32| id != recv_id implies #[trigger] has_id(
            after_attack(pl, send_id, recv_id, d),
            id,
        ) == has_id(pl, id) by {
            lemma_ids_pointwise(pl, pl1);
        }
        if hp_after(en1[r].receive.hp, d) == 0 {
            assert(strike(en1, r, d) == en1.remove(r));
            lemma_remove_concat_right(pl1, en1, r);
            lemma_distinct_remove(c1, pl1.len() + r);
            assert(distinct_ids(pl1 + en1.remove(r)));
        } else {
            let en2 = strike(en1, r, d);
            let c2 = pl1 + en2;
            assert(c2.len() == c1.len());
            assert forall|k: int| 0 <= k < c1.len() implies (#[trigger] c2[k]).id == c1[k].id by {
                if k < pl1.len() {
                    assert(c2[k] == pl1[k]);
                    assert(c1[k] == pl1[k]);
                } else {
                    assert(c2[k] == en2[k - pl1.len()]);
                    assert(c1[k] == en1[k - pl1.len()]);
                }
            }
            lemma_ids_pointwise(c1, c2);
        }
    }
}

/// What the Win Evaluator decides on the two rosters: an empty player
/// roster means the enemy has won; otherwise an empty enemy roster
/// means the player has won; otherwise no transition.
pub open spec fn spec_winner(pl: Seq<UnitRecord>, en: Seq<UnitRecord>) -> Option<CombatPhases> {
    if pl.len() == 0 {
        Some(CombatPhases::EnemyWins)
    } else if en.len() == 0 {
        Some(CombatPhases::PlayerWins)
    } else {
        None
    }
}

/// The Win Evaluator. Safe to run on every tick: outside a terminal
/// phase it drives the machine to `EnemyWins` when the player roster
/// is empty, else to `PlayerWins` when the enemy roster is empty; a
/// terminal phase is never left.
pub fn check_all_dead(state: &mut CombatState)
    ensures
        final(state).pl() == old(state).pl(),
        final(state).en() == old(state).en(),
        final(state).active == old(state).active,
        final(state).phase == (if old(state).phase.is_terminal() {
            old(state).phase
        } else {
            match spec_winner(old(state).pl(), old(state).en()) {
                Some(p) => p,
                None => old(state).phase,
            }
        }),
        old(state).wf() ==> final(state).wf(),
{
    match state.phase {
        CombatPhases::EnemyWins => {},
        CombatPhases::PlayerWins => {},
        _ => {
            if state.players.units.len() == 0 {
                state.phase = CombatPhases::EnemyWins;
            } else if state.enemies.units.len() == 0 {
                state.phase = CombatPhases::PlayerWins;
            }
        },
    }
}

/// Clear the reference to the active unit; the unit itself stays.
pub fn remove_active_unit(state: &mut CombatState)
    ensures
        final(state).pl() == old(state).pl(),
        final(state).en() == old(state).en(),
        final(state).phase == old(state).phase,
        final(state).active is None,
        old(state).wf() ==> final(state).wf(),
{
    state.active = None;
}

/// Relies on rand::Rng::gen_range over the range `0..n` with a
/// thread-local generator: the sample always lies below `n` (the call
/// panics only on an empty range, which the precondition rules out).
#[verifier::external_body]
fn random_below(n: usize) -> (r: usize)
    requires
        n > 0,
    ensures
        r < n,
{
    rand::Rng::gen_range(&mut rand::thread_rng(), 0..n)
}

/// Choose the next active unit: a uniformly random player unit that
/// has not yet acted this cycle. When every player unit has acted,
/// nothing changes and no active unit is set here.
pub fn set_random_active_unit(state: &mut CombatState)
    requires
        old(state).wf(),
    ensures
        final(state).wf(),
        final(state).pl() == old(state).pl(),
        final(state).en() == old(state).en(),
        final(state).phase == old(state).phase,
        all_acted(old(state).pl()) ==> final(state).active == old(state).active,
        !all_acted(old(state).pl()) ==> exists|i: int|
            0 <= i < old(state).pl().len() && !(#[trigger] old(state).pl()[i]).send.used
                && final(state).active == Some(old(state).pl()[i].id),
{
    let ghost pl0 = state.players.units@;
    let mut candidates: Vec<usize> = Vec::new();
    let mut i: usize = 0;
    while i < state.players.units.len()
        invariant
            i <= pl0.len(),
            state.players.units@ == pl0,
            forall|k: int|
                0 <= k < candidates@.len() ==> (#[trigger] candidates@[k] < pl0.len()
                    && !pl0[candidates@[k] as int].send.used),
            candidates@.len() == 0 ==> forall|j: int| 0 <= j < i ==> pl0[j].send.used,
        decreases pl0.len() - i,
    {
        if !state.players.units[i].send.used {
            candidates.push(i);
        }
        i += 1;
    }
    if candidates.len() > 0 {
        let k = random_below(candidates.len());
        let idx = candidates[k];
        let chosen = state.players.units[idx].id;
        state.active = Some(chosen);
        proof {
            assert(!pl0[idx as int].send.used);
            assert(has_id(pl0, chosen));
        }
    } else {
        assert(all_acted(pl0));
    }
}

/// Whether every unit of the sequence has used its turn.
pub fn all_have_acted(units: &Vec<UnitRecord>) -> (r: bool)
    ensures
        r == all_acted(units@),
{
    let mut i: usize = 0;
    while i < units.len()
        invariant
            i <= units@.len(),
            forall|j: int| 0 <= j < i ==> (#[trigger] units@[j]).send.used,
        decreases units@.len() - i,
    {
        if !units[i].send.used {
            assert(!all_acted(units@));
            return false;
        }
        i += 1;
    }
    true
}

/// The guard out of the player phases: while a player unit is being
/// chosen or is choosing its action, a roster with no turn left hands
/// the machine over to the enemy.
pub fn check_all_acted(state: &mut CombatState)
    ensures
        final(state).pl() == old(state).pl(),
        final(state).en() == old(state).en(),
        final(state).active == old(state).active,
        final(state).phase == (if (old(state).phase == CombatPhases::SelectActive || old(
            state,
        ).phase == CombatPhases::SelectAction) && all_acted(old(state).pl()) {
            CombatPhases::Enemy
        } else {
            old(state).phase
        }),
        old(state).wf() ==> final(state).wf(),
{
    match state.phase {
        CombatPhases::SelectActive | CombatPhases::SelectAction => {
            if all_have_acted(&state.players.units) {
                state.phase = CombatPhases::Enemy;
            }
        },
        _ => {},
    }
}

/// Reset every unit's acted flag, on both rosters, so that a fresh
/// player action cycle starts.
pub fn clear_acted(state: &mut CombatState)
    ensures
        final(state).phase == old(state).phase,
        final(state).active == old(state).active,
        final(state).pl().len() == old(state).pl().len(),
        final(state).en().len() == old(state).en().len(),
        forall|i: int|
            0 <= i < old(state).pl().len() ==> #[trigger] final(state).pl()[i] == (UnitRecord {
                send: AttackSend { used: false, ..old(state).pl()[i].send },
                ..old(state).pl()[i]
            }),
        forall|i: int|
            0 <= i < old(state).en().len() ==> #[trigger] final(state).en()[i] == (UnitRecord {
                send: AttackSend { used: false, ..old(state).en()[i].send },
                ..old(state).en()[i]
            }),
        none_acted(final(state).pl()),
        none_acted(final(state).en()),
        old(state).wf() ==> final(state).wf(),
{
    let ghost pl0 = state.players.units@;
    let ghost en0 = state.enemies.units@;
    clear_acted_flags(&mut state.players.units);
    clear_acted_flags(&mut state.enemies.units);
    proof {
        let pl1 = state.players.units@;
        let en1 = state.enemies.units@;
        if old(state).wf() {
            assert(units_ok(pl1)) by {
                assert forall|k: int| 0 <= k < pl1.len() implies unit_ok(#[trigger] pl1[k]) by {
                    assert(unit_ok(pl0[k]));
                }
            }
            assert(units_ok(en1)) by {
                assert forall|k: int| 0 <= k < en1.len() implies unit_ok(#[trigger] en1[k]) by {
                    assert(unit_ok(en0[k]));
                }
            }
            let c0 = pl0 + en0;
            let c1 = pl1 + en1;
            assert(c1.len() == c0.len());
            assert forall|k: int| 0 <= k < c0.len() implies (#[trigger] c0[k]).id == c1[k].id by {
                if k < pl0.len() {
                    assert(c0[k] == pl0[k]);
                    assert(c1[k] == pl1[k]);
                } else {
                    assert(c0[k] == en0[k - pl0.len()]);
                    assert(c1[k] == en1[k - pl0.len()]);
                }
            }
            lemma_ids_pointwise(c0, c1);
            match state.active {
                Some(aid) => {
                    lemma_ids_pointwise(pl0, pl1);
                },
                None => {},
            }
        }
    }
}

/// Hit points never leave [0, max_hp]: every unit of a well-formed
/// state, and so of the state any Attack Resolver call leaves behind,
/// is within its ceiling (and alive, being still in its roster).
pub proof fn lemma_hp_within_bounds(state: CombatState)
    requires
        state.wf(),
    ensures
        forall|i: int|
            0 <= i < state.pl().len() ==> 0 < (#[trigger] state.pl()[i]).receive.hp
                <= state.pl()[i].receive.max_hp,
        forall|i: int|
            0 <= i < state.en().len() ==> 0 < (#[trigger] state.en()[i]).receive.hp
                <= state.en()[i].receive.max_hp,
{
    assert forall|i: int| 0 <= i < state.pl().len() implies 0 < (#[trigger] state.pl()[i]).receive.hp
        <= state.pl()[i].receive.max_hp by {
        assert(unit_ok(state.pl()[i]));
    }
    assert forall|i: int| 0 <= i < state.en().len() implies 0 < (#[trigger] state.en()[i]).receive.hp
        <= state.en()[i].receive.max_hp by {
        assert(unit_ok(state.en()[i]));
    }
}

/// A receiver whose hit points reach zero leaves its roster at that
/// very resolution: afterwards neither roster holds its identifier.
pub proof fn lemma_dead_unit_gone(
    pl: Seq<UnitRecord>,
    en: Seq<UnitRecord>,
    send_id: u32,
    recv_id: u32,
    d: nat,
)
    requires
        units_ok(pl),
        units_ok(en),
        distinct_ids(pl + en),
        resolvable(pl, en, send_id, recv_id),
        hp_after(unit_with(pl, en, recv_id).receive.hp, d) == 0,
    ensures
        !has_id(after_attack(pl, send_id, recv_id, d), recv_id),
        !has_id(after_attack(en, send_id, recv_id, d), recv_id),
{
    lemma_concat_distinct(pl, en);
    let pl1 = if has_id(pl, send_id) {
        mark_acted(pl, idx_of(pl, send_id))
    } else {
        pl
    };
    let en1 = if has_id(en, send_id) {
        mark_acted(en, idx_of(en, send_id))
    } else {
        en
    };
    if has_id(pl, send_id) {
        lemma_mark_acted_facts(pl, idx_of(pl, send_id));
    }
    if has_id(en, send_id) {
        lemma_mark_acted_facts(en, idx_of(en, send_id));
    }
    lemma_ids_pointwise(pl, pl1);
    lemma_ids_pointwise(en, en1);
    if has_id(pl, recv_id) {
        let r = idx_of(pl, recv_id);
        assert(0 <= r < pl.len() && pl[r].id == recv_id);
        assert(pl1[r].receive == pl[r].receive);
        assert(after_attack(pl, send_id, recv_id, d) == pl1.remove(r));
        assert(distinct_ids(pl1)) by {
            assert(distinct_ids(pl)) by {
                lemma_concat_distinct(pl, en);
            }
        }
        crate::roster::lemma_removed_id_gone(pl1, r);
        assert(!has_id(en, recv_id)) by {
            if has_id(en, recv_id) {
                let j = choose|j: int| 0 <= j < en.len() && en[j].id == recv_id;
                assert(pl[r].id != en[j].id);
            }
        }
        assert(after_attack(en, send_id, recv_id, d) == en1);
    } else {
        assert(has_id(en, recv_id));
        let r = idx_of(en, recv_id);
        assert(0 <= r < en.len() && en[r].id == recv_id);
        assert(en1[r].receive == en[r].receive);
        assert(after_attack(en, send_id, recv_id, d) == en1.remove(r));
        assert(distinct_ids(en1)) by {
            assert(distinct_ids(en)) by {
                lemma_concat_distinct(pl, en);
            }
        }
        crate::roster::lemma_removed_id_gone(en1, r);
        assert(after_attack(pl, send_id, recv_id, d) == pl1);
    }
}

/// The damage rule at resolution level, for any resolvable intent
/// (sender and receiver distinct units, both still in a roster): the
/// resolved damage is half the sender's base damage (floored) when
/// the receiver resists its type — also when the type is among the
/// weaknesses —, double under a weakness alone, and the base damage
/// otherwise; and the receiver afterwards holds exactly
/// `hp_after(hp, d)` hit points, having been removed when they
/// reached zero.
pub proof fn lemma_resolution_damage_rule(
    pl: Seq<UnitRecord>,
    en: Seq<UnitRecord>,
    send_id: u32,
    recv_id: u32,
)
    requires
        units_ok(pl),
        units_ok(en),
        distinct_ids(pl + en),
        resolvable(pl, en, send_id, recv_id),
    ensures
        ({
            let att = unit_with(pl, en, send_id);
            let tgt = unit_with(pl, en, recv_id);
            let d = resolve_damage(pl, en, send_id, recv_id);
            &&& (tgt.receive.resistances@.contains(att.send.dmg_type) ==> d == att.send.dmg / 2)
            &&& (!tgt.receive.resistances@.contains(att.send.dmg_type)
                && tgt.receive.weaknesses@.contains(att.send.dmg_type) ==> d == 2 * att.send.dmg)
            &&& (!tgt.receive.resistances@.contains(att.send.dmg_type)
                && !tgt.receive.weaknesses@.contains(att.send.dmg_type) ==> d == att.send.dmg)
            &&& (hp_after(tgt.receive.hp, d) == 0 ==> !has_id(
                after_attack(pl, send_id, recv_id, d),
                recv_id,
            ) && !has_id(after_attack(en, send_id, recv_id, d), recv_id))
            &&& (hp_after(tgt.receive.hp, d) != 0 && has_id(pl, recv_id) ==> after_attack(
                pl,
                send_id,
                recv_id,
                d,
            )[idx_of(pl, recv_id)].receive.hp == hp_after(tgt.receive.hp, d))
            &&& (hp_after(tgt.receive.hp, d) != 0 && !has_id(pl, recv_id) ==> after_attack(
                en,
                send_id,
                recv_id,
                d,
            )[idx_of(en, recv_id)].receive.hp == hp_after(tgt.receive.hp, d))
        }),
{
    let tgt = unit_with(pl, en, recv_id);
    let d = resolve_damage(pl, en, send_id, recv_id);
    if hp_after(tgt.receive.hp, d) == 0 {
        lemma_dead_unit_gone(pl, en, send_id, recv_id, d);
    } else {
        if has_id(pl, recv_id) {
            let r = idx_of(pl, recv_id);
            assert(0 <= r < pl.len() && pl[r].id == recv_id);
            let pl1 = if has_id(pl, send_id) {
                mark_acted(pl, idx_of(pl, send_id))
            } else {
                pl
            };
            if has_id(pl, send_id) {
                lemma_mark_acted_facts(pl, idx_of(pl, send_id));
            }
            assert(pl1[r].receive == pl[r].receive);
            assert(units_ok(pl1));
            lemma_strike_facts(pl1, r, d);
            assert(after_attack(pl, send_id, recv_id, d) == strike(pl1, r, d));
        } else {
            assert(has_id(en, recv_id));
            let r = idx_of(en, recv_id);
            assert(0 <= r < en.len() && en[r].id == recv_id);
            let en1 = if has_id(en, send_id) {
                mark_acted(en, idx_of(en, send_id))
            } else {
                en
            };
            if has_id(en, send_id) {
                lemma_mark_acted_facts(en, idx_of(en, send_id));
            }
            assert(en1[r].receive == en[r].receive);
            assert(units_ok(en1));
            lemma_strike_facts(en1, r, d);
            assert(after_attack(en, send_id, recv_id, d) == strike(en1, r, d));
        }
    }
}

/// The win rule, ahead of any flow transition: an empty player roster
/// decides the encounter against the player; otherwise an empty enemy
/// roster decides it for the player; a machine already standing in a
/// terminal phase is left there (`check_all_dead` commits exactly
/// this decision).
pub proof fn lemma_win_priority(pl: Seq<UnitRecord>, en: Seq<UnitRecord>)
    ensures
        pl.len() == 0 ==> spec_winner(pl, en) == Some(CombatPhases::EnemyWins),
        pl.len() > 0 && en.len() == 0 ==> spec_winner(pl, en) == Some(CombatPhases::PlayerWins),
        pl.len() > 0 && en.len() > 0 ==> spec_winner(pl, en) is None,
{
}

/// A unit that stands in neither roster resolves no further intent,
/// as sender or as receiver: any such intent is dropped.
pub proof fn lemma_gone_unit_never_resolves(
    pl: Seq<UnitRecord>,
    en: Seq<UnitRecord>,
    gone_id: u32,
    other_id: u32,
)
    requires
        !has_id(pl, gone_id),
        !has_id(en, gone_id),
    ensures
        !resolvable(pl, en, gone_id, other_id),
        !resolvable(pl, en, other_id, gone_id),
{
}

/// The Enemy phase. Every enemy that stood in the roster when the
/// phase began resolves one attack against a uniformly random living
/// player unit, the win condition being evaluated after each single
/// attack; once the player roster is empty the machine stands in
/// `EnemyWins` and the remaining enemies skip their attacks. When the
/// encounter is still undecided after all attacks, every acted flag
/// on both rosters is cleared and the machine returns to
/// `SelectActive` for a fresh player action cycle.
pub fn do_enemy_turn(state: &mut CombatState) -> (events: Vec<AttackReport>)
    requires
        old(state).wf(),
        old(state).phase == CombatPhases::Enemy,
    ensures
        final(state).wf(),
        old(state).pl().len() == 0 ==> final(state).phase == CombatPhases::EnemyWins
            && final(state).pl() == old(state).pl() && final(state).en() == old(state).en()
            && final(state).active == old(state).active && events@.len() == 0,
        old(state).pl().len() > 0 && old(state).en().len() == 0 ==> final(state).phase
            == CombatPhases::PlayerWins && final(state).pl() == old(state).pl() && final(state).en()
            == old(state).en() && final(state).active == old(state).active && events@.len() == 0,
        final(state).phase == CombatPhases::SelectActive || final(state).phase
            == CombatPhases::EnemyWins || final(state).phase == CombatPhases::PlayerWins,
        final(state).phase == CombatPhases::EnemyWins ==> final(state).pl().len() == 0,
        final(state).phase == CombatPhases::PlayerWins ==> final(state).en().len() == 0,
        final(state).phase == CombatPhases::SelectActive ==> none_acted(final(state).pl())
            && none_acted(final(state).en()) && final(state).pl().len() > 0,
        events@.len() <= old(state).en().len(),
        final(state).phase == CombatPhases::SelectActive ==> events@.len() == old(
            state,
        ).en().len(),
        events@.len() < old(state).en().len() ==> final(state).pl().len() == 0,
        forall|k: int|
            0 <= k < events@.len() ==> has_id(old(state).en(), (#[trigger] events@[k]).send),
        forall|k1: int, k2: int|
            0 <= k1 < k2 < events@.len() ==> events@[k1].send != events@[k2].send,
        forall|k: int|
            0 <= k < events@.len() ==> has_id(old(state).pl(), (#[trigger] events@[k]).receive),
        final(state).en().len() == old(state).en().len(),
        forall|i: int|
            0 <= i < old(state).en().len() ==> (#[trigger] final(state).en()[i]).id == old(
                state,
            ).en()[i].id && final(state).en()[i].receive == old(state).en()[i].receive,
{
    let ghost pl_init = state.players.units@;
    let ghost en_init = state.enemies.units@;
    let ghost act_init = state.active;
    proof {
        lemma_concat_distinct(pl_init, en_init);
    }
    check_all_dead(state);

    // capture the attackers up front: an enemy spawned later, or one
    // somehow re-added, never attacks in this phase
    let mut sender_ids: Vec<u32> = Vec::new();
    let mut i: usize = 0;
    while i < state.enemies.units.len()
        invariant
            state.enemies.units@ == en_init,
            i <= en_init.len(),
            sender_ids@.len() == i,
            forall|k: int| 0 <= k < i ==> sender_ids@[k] == en_init[k].id,
        decreases en_init.len() - i,
    {
        sender_ids.push(state.enemies.units[i].id);
        i += 1;
    }

    let mut events: Vec<AttackReport> = Vec::new();
    let mut t: usize = 0;
    while t < sender_ids.len()
        invariant
            state.wf(),
            t <= sender_ids@.len(),
            sender_ids@.len() == en_init.len(),
            forall|k: int| 0 <= k < en_init.len() ==> sender_ids@[k] == en_init[k].id,
            distinct_ids(en_init),
            state.phase == CombatPhases::Enemy || (state.phase == CombatPhases::EnemyWins
                && state.pl().len() == 0) || (state.phase == CombatPhases::PlayerWins
                && state.en().len() == 0),
            state.phase == CombatPhases::Enemy ==> state.pl().len() > 0,
            state.en().len() == en_init.len(),
            forall|i2: int|
                0 <= i2 < en_init.len() ==> (#[trigger] state.en()[i2]).id == en_init[i2].id
                    && state.en()[i2].receive == en_init[i2].receive,
            forall|id: u32| #[trigger] has_id(state.pl(), id) ==> has_id(pl_init, id),
            events@.len() <= t,
            state.phase == CombatPhases::Enemy ==> events@.len() == t,
            forall|k: int|
                0 <= k < events@.len() ==> exists|p: int|
                    0 <= p < t && (#[trigger] events@[k]).send == en_init[p].id,
            forall|k1: int, k2: int|
                0 <= k1 < k2 < events@.len() ==> events@[k1].send != events@[k2].send,
            forall|k: int|
                0 <= k < events@.len() ==> has_id(pl_init, (#[trigger] events@[k]).receive),
            pl_init.len() == 0 ==> state.phase == CombatPhases::EnemyWins && state.pl() == pl_init
                && state.en() == en_init && state.active == act_init && events@.len() == 0,
            pl_init.len() > 0 && en_init.len() == 0 ==> state.phase == CombatPhases::PlayerWins
                && state.pl() == pl_init && state.en() == en_init && state.active == act_init
                && events@.len() == 0,
        decreases sender_ids@.len() - t,
    {
        match state.phase {
            CombatPhases::Enemy => {
                let np = state.players.units.len();
                let k = random_below(np);
                let rid = state.players.units[k].id;
                let sid = sender_ids[t];
                let ghost pl_cur = state.players.units@;
                let ghost en_cur = state.enemies.units@;
                proof {
                    assert(pl_cur[k as int].id == rid);
                    assert(has_id(pl_cur, rid));
                    assert(en_cur[t as int].id == en_init[t as int].id == sid);
                    assert(has_id(en_cur, sid));
                    lemma_concat_distinct(pl_cur, en_cur);
                    assert(sid != rid) by {
                        if sid == rid {
                            let j = choose|j: int| 0 <= j < en_cur.len() && en_cur[j].id == sid;
                            assert(pl_cur[k as int].id != en_cur[j].id);
                        }
                    }
                }
                let ev = CombatEvent { send: sid, receive: rid };
                let r = resolve_attack(state, &ev);
                proof {
                    let d = resolve_damage(pl_cur, en_cur, sid, rid);
                    lemma_resolution_shape(pl_cur, en_cur, sid, rid, d);
                    assert(!has_id(en_cur, rid)) by {
                        if has_id(en_cur, rid) {
                            let j = choose|j: int| 0 <= j < en_cur.len() && en_cur[j].id == rid;
                            assert(pl_cur[k as int].id != en_cur[j].id);
                        }
                    }
                    assert(!has_id(pl_cur, sid)) by {
                        if has_id(pl_cur, sid) {
                            let j = choose|j: int| 0 <= j < pl_cur.len() && pl_cur[j].id == sid;
                            assert(pl_cur[j].id != en_cur[t as int].id);
                        }
                    }
                    // the enemy roster is only marked: the receiver is a player
                    let si = idx_of(en_cur, sid);
                    assert(state.en() == mark_acted(en_cur, si));
                    lemma_mark_acted_facts(en_cur, si);
                    // the player roster only loses or damages units
                    assert forall|id: u32| #[trigger] has_id(state.pl(), id) implies has_id(
                        pl_init,
                        id,
                    ) by {
                        if id != rid {
                            assert(has_id(state.pl(), id) == has_id(pl_cur, id));
                        } else {
                            assert(has_id(pl_cur, rid));
                        }
                    }
                }
                match r {
                    Some(rep) => {
                        proof {
                            assert(rep.send == sid && rep.receive == rid);
                            assert forall|k2: int| 0 <= k2 < events@.len() implies events@[k2].send
                                != sid by {
                                let p = choose|p: int|
                                    0 <= p < t && events@[k2].send == en_init[p].id;
                                assert(en_init[p].id != en_init[t as int].id);
                            }
                        }
                        events.push(rep);
                    },
                    None => {},
                }
                check_all_dead(state);
            },
            _ => {},
        }
        t += 1;
    }
    match state.phase {
        CombatPhases::Enemy => {
            clear_acted(state);
            state.phase = CombatPhases::SelectActive;
        },
        _ => {},
    }
    events
}

/// One external input for one tick of the combat state machine.
pub enum CombatInput {
    /// No fresh input: the machine advances on its own where it can.
    Idle,
    /// A confirmed press of an action-menu button.
    Button(CombatButtonEvent),
    /// A click at a world position.
    Click(i32, i32),
}

/// Drive the combat state machine by one evaluation tick. Win
/// transitions take priority over flow transitions, and the two
/// winning phases are terminal: they absorb every further tick, input
/// and intent. At most one flow transition is committed per tick;
/// attack resolution runs synchronously within the tick that confirms
/// the target, and the whole Enemy phase resolves within its tick.
pub fn tick(state: &mut CombatState, input: &CombatInput) -> (events: Vec<AttackReport>)
    requires
        old(state).wf(),
    ensures
        final(state).wf(),
        old(state).phase.is_terminal() ==> final(state).phase == old(state).phase
            && final(state).pl() == old(state).pl() && final(state).en() == old(state).en()
            && final(state).active == old(state).active && events@.len() == 0,
        !old(state).phase.is_terminal() && old(state).pl().len() == 0 ==> final(state).phase
            == CombatPhases::EnemyWins && final(state).pl() == old(state).pl() && final(state).en()
            == old(state).en() && events@.len() == 0,
        !old(state).phase.is_terminal() && old(state).pl().len() > 0 && old(state).en().len() == 0
            ==> final(state).phase == CombatPhases::PlayerWins && final(state).pl() == old(
            state,
        ).pl() && final(state).en() == old(state).en() && events@.len() == 0,
        old(state).phase == CombatPhases::SelectActive && old(state).pl().len() > 0 && old(
            state,
        ).en().len() > 0 ==> final(state).pl() == old(state).pl() && final(state).en() == old(
            state,
        ).en() && events@.len() == 0 && (all_acted(old(state).pl()) ==> final(state).phase
            == CombatPhases::Enemy && final(state).active is None) && (!all_acted(old(state).pl())
            ==> final(state).phase == CombatPhases::SelectAction && (exists|i: int|
            0 <= i < old(state).pl().len() && !(#[trigger] old(state).pl()[i]).send.used
                && final(state).active == Some(old(state).pl()[i].id))),
        old(state).phase == CombatPhases::SelectAction && old(state).pl().len() > 0 && old(
            state,
        ).en().len() > 0 ==> final(state).pl() == old(state).pl() && final(state).en() == old(
            state,
        ).en() && final(state).active == old(state).active && events@.len() == 0 && final(state).phase == (if (input matches CombatInput::Button(b) && b.action == CombatActions::Attack) {
            CombatPhases::SelectTarget
        } else {
            CombatPhases::SelectAction
        }),
        old(state).phase == CombatPhases::SelectTarget && old(state).pl().len() > 0 && old(
            state,
        ).en().len() > 0 && !(input matches CombatInput::Click(x, y)) ==> final(state).pl() == old(
            state,
        ).pl() && final(state).en() == old(state).en() && final(state).active == old(state).active
            && final(state).phase == old(state).phase && events@.len() == 0,
        old(state).phase == CombatPhases::SelectTarget && old(state).pl().len() > 0 && old(
            state,
        ).en().len() > 0 ==> (input matches CombatInput::Click(x, y) ==> {
            &&& events@.len() <= 1
            &&& (old(state).active is None ==> events@.len() == 0)
            &&& (old(state).active is Some && (exists|j: int|
                0 <= j < old(state).en().len() && within_pick(
                    #[trigger] old(state).en()[j],
                    x as int,
                    y as int,
                )) ==> events@.len() == 1)
            &&& (events@.len() == 0 ==> final(state).pl() == old(state).pl() && final(state).en()
                == old(state).en() && final(state).active == old(state).active && final(state).phase == old(state).phase)
            &&& (events@.len() == 1 ==> ({
                let snd = events@[0].send;
                let rcv = events@[0].receive;
                let d = resolve_damage(old(state).pl(), old(state).en(), snd, rcv);
                &&& old(state).active == Some(snd)
                &&& (exists|i: int|
                    picked_target(old(state).en(), x as int, y as int, i) && (#[trigger] old(
                        state,
                    ).en()[i]).id == rcv)
                &&& events@[0].damage == d
                &&& final(state).pl() == after_attack(old(state).pl(), snd, rcv, d)
                &&& final(state).en() == after_attack(old(state).en(), snd, rcv, d)
                &&& final(state).phase == (if after_attack(old(state).pl(), snd, rcv, d).len()
                    == 0 {
                    CombatPhases::EnemyWins
                } else if after_attack(old(state).en(), snd, rcv, d).len() == 0 {
                    CombatPhases::PlayerWins
                } else {
                    CombatPhases::SelectActive
                })
            }))
        }),
        old(state).phase == CombatPhases::Enemy && old(state).pl().len() > 0 && old(
            state,
        ).en().len() > 0 ==> {
            &&& (final(state).phase == CombatPhases::SelectActive || final(state).phase
                == CombatPhases::EnemyWins)
            &&& (final(state).phase == CombatPhases::EnemyWins ==> final(state).pl().len() == 0)
            &&& (final(state).phase == CombatPhases::SelectActive ==> none_acted(final(state).pl())
                && none_acted(final(state).en()) && final(state).pl().len() > 0)
            &&& events@.len() <= old(state).en().len()
            &&& (final(state).phase == CombatPhases::SelectActive ==> events@.len() == old(
                state,
            ).en().len())
            &&& (events@.len() < old(state).en().len() ==> final(state).pl().len() == 0)
            &&& (forall|k: int|
                0 <= k < events@.len() ==> has_id(old(state).en(), (#[trigger] events@[k]).send))
            &&& (forall|k1: int, k2: int|
                0 <= k1 < k2 < events@.len() ==> events@[k1].send != events@[k2].send)
            &&& (forall|k: int|
                0 <= k < events@.len() ==> has_id(old(state).pl(), (#[trigger] events@[k]).receive))
            &&& final(state).en().len() == old(state).en().len()
            &&& (forall|i: int|
                0 <= i < old(state).en().len() ==> (#[trigger] final(state).en()[i]).id == old(
                    state,
                ).en()[i].id && final(state).en()[i].receive == old(state).en()[i].receive)
        },
{
    match state.phase {
        CombatPhases::EnemyWins => {
            return Vec::new();
        },
        CombatPhases::PlayerWins => {
            return Vec::new();
        },
        _ => {},
    }
    check_all_dead(state);
    match state.phase {
        CombatPhases::EnemyWins => {
            return Vec::new();
        },
        CombatPhases::PlayerWins => {
            return Vec::new();
        },
        _ => {},
    }
    match state.phase {
        CombatPhases::SelectActive => {
            check_all_acted(state);
            match state.phase {
                CombatPhases::Enemy => {
                    remove_active_unit(state);
                },
                _ => {
                    remove_active_unit(state);
                    set_random_active_unit(state);
                    state.phase = CombatPhases::SelectAction;
                },
            }
            Vec::new()
        },
        CombatPhases::SelectAction => {
            match input {
                CombatInput::Button(b) => {
                    combat_button_events(state, b);
                },
                _ => {},
            }
            Vec::new()
        },
        CombatPhases::SelectTarget => {
            match input {
                CombatInput::Click(cx, cy) => {
                    let intent = listen_for_input(state, *cx, *cy);
                    match intent {
                        Some(ev) => {
                            proof {
                                lemma_concat_distinct(state.pl(), state.en());
                                assert(has_id(state.pl(), ev.send));
                                let i = choose|i: int|
                                    picked_target(state.en(), *cx as int, *cy as int, i) && state
                                        .en()[i].id == ev.receive;
                                assert(state.en()[i].id == ev.receive);
                                assert(has_id(state.en(), ev.receive));
                                assert(ev.send != ev.receive) by {
                                    if ev.send == ev.receive {
                                        let j = choose|j: int|
                                            0 <= j < state.pl().len() && state.pl()[j].id
                                                == ev.send;
                                        assert(state.pl()[j].id != state.en()[i].id);
                                    }
                                }
                            }
                            let r = resolve_attack(state, &ev);
                            check_all_dead(state);
                            match state.phase {
                                CombatPhases::EnemyWins => {},
                                CombatPhases::PlayerWins => {},
                                _ => {
                                    state.phase = CombatPhases::SelectActive;
                                },
                            }
                            match r {
                                Some(rep) => {
                                    let mut one: Vec<AttackReport> = Vec::new();
                                    one.push(rep);
                                    one
                                },
                                None => Vec::new(),
                            }
                        },
                        None => Vec::new(),
                    }
                },
                _ => Vec::new(),
            }
        },
        CombatPhases::Enemy => do_enemy_turn(state),
        CombatPhases::EnemyWins => Vec::new(),
        CombatPhases::PlayerWins => Vec::new(),
    }
}

/// Removing a unit keeps the remaining identifiers distinct.
pub proof fn lemma_distinct_remove(s: Seq<UnitRecord>, i: int)
    requires
        distinct_ids(s),
        0 <= i < s.len(),
    ensures
        distinct_ids(s.remove(i)),
{
    let r = s.remove(i);
    assert forall|p: int, q: int| 0 <= p < q < r.len() implies r[p].id != r[q].id by {
        let sp: int = if p < i { p } else { p + 1 };
        let sq: int = if q < i { q } else { q + 1 };
        assert(r[p] == s[sp]);
        assert(r[q] == s[sq]);
    }
}

} // verus!

