//! Turn-order tracking data and the turn-change detection that the
//! token highlighting consumes.
//!
//! The surrounding transport (periodic polling, payload decoding) lives
//! outside this crate; this module holds the plain data and the one
//! decision it supports: did the active creature change?

use vstd::prelude::*;

verus! {

/// A player character's sheet-level numbers.
#[derive(PartialEq, Eq, Structural, Debug, Clone, Copy)]
pub struct Player {
    pub ac: i32,
    pub hp: i32,
    pub level: i32,
    pub modifier: i32,
}

/// A monster entry.
#[derive(Debug, Clone)]
pub struct Monster {
    pub display: Option<String>,
    pub ac: i32,
    pub hp: i32,
    pub cr: String,
    pub enabled: bool,
}

/// A named party and its member names.
#[derive(Debug, Clone)]
pub struct Party {
    pub name: String,
    pub players: Vec<String>,
}

/// Either kind of combatant.
#[derive(Debug, Clone)]
pub enum CreatureType {
    Player(Player),
    Monster(Monster),
}

/// One combatant in the turn order.
#[derive(Debug)]
pub struct Creature {
    pub id: String,
    pub name: String,
    pub initiative: i32,
    pub player: Option<bool>,
    pub active: bool,
    pub number: i32,
    pub cr: Option<String>,
    pub current_ac: i32,
}

/// Two creatures carry the same data (strings compared by content).
pub open spec fn creature_like(a: Creature, b: Creature) -> bool {
    &&& a.id@ == b.id@
    &&& a.name@ == b.name@
    &&& a.initiative == b.initiative
    &&& a.player == b.player
    &&& a.active == b.active
    &&& a.number == b.number
    &&& match (a.cr, b.cr) {
        (Some(x), Some(y)) => x@ == y@,
        (None, None) => true,
        _ => false,
    }
    &&& a.current_ac == b.current_ac
}

impl Clone for Creature {
    /// A field-by-field copy equal to the original.
    fn clone(&self) -> (res: Self)
        ensures
            res == *self,
    {
        Creature {
            id: self.id.clone(),
            name: self.name.clone(),
            initiative: self.initiative,
            player: self.player,
            active: self.active,
            number: self.number,
            cr: match &self.cr {
                Some(s) => Some(s.clone()),
                None => None,
            },
            current_ac: self.current_ac,
        }
    }
}

impl PartialEq for Creature {
    fn eq(&self, other: &Self) -> (r: bool) {
        let cr_eq = match (&self.cr, &other.cr) {
            (Some(x), Some(y)) => x.eq(y),
            (None, None) => true,
            _ => false,
        };
        let player_eq = match (self.player, other.player) {
            (Some(x), Some(y)) => x == y,
            (None, None) => true,
            _ => false,
        };
        self.id.eq(&other.id) && self.name.eq(&other.name) && self.initiative == other.initiative
            && player_eq && self.active == other.active && self.number == other.number && cr_eq
            && self.current_ac == other.current_ac
    }
}

impl vstd::std_specs::cmp::PartialEqSpecImpl for Creature {
    open spec fn obeys_eq_spec() -> bool {
        true
    }

    open spec fn eq_spec(&self, other: &Self) -> bool {
        creature_like(*self, *other)
    }
}

/// A full tracker payload.
#[derive(Debug, Clone)]
pub struct Data {
    pub players: Vec<Player>,
    pub parties: Vec<Party>,
    pub state: State,
}

/// The mutable half of a tracker payload: the ordered combatants.
#[derive(Debug, Clone)]
pub struct State {
    pub creatures: Vec<Creature>,
}

/// A notification this module raises for the token layer.
pub enum TrackerEvent {
    /// The active creature changed; the payload is the new one.
    TurnUpdate(Creature),
}

/// `i` is the index of the first active creature of `s`.
pub open spec fn is_first_active(s: Seq<Creature>, i: int) -> bool {
    &&& 0 <= i < s.len()
    &&& s[i].active
    &&& forall|k: int| 0 <= k < i ==> !(#[trigger] s[k]).active
}

/// The turn-order tracker: its last sync error and the combatants in
/// initiative order.
pub struct Tracker {
    /// The last transport or decode error, if the latest poll failed.
    pub error: Option<String>,
    /// The combatants, sorted by initiative.
    pub ordered: Vec<Creature>,
}

impl Default for Tracker {
    /// A tracker with no error and no known combatants.
    fn default() -> (t: Self)
        ensures
            t.error.is_none(),
            t.ordered@.len() == 0,
    {
        Tracker { error: None, ordered: Vec::new() }
    }
}

/// Index of the first active creature, if any.
fn find_active(list: &Vec<Creature>) -> (r: Option<usize>)
    ensures
        match r {
            Some(i) => is_first_active(list@, i as int),
            None => forall|k: int| 0 <= k < list@.len() ==> !(#[trigger] list@[k]).active,
        },
{
    let mut i: usize = 0;
    while i < list.len()
        invariant
            i <= list@.len(),
            forall|k: int| 0 <= k < i ==> !(#[trigger] list@[k]).active,
        decreases list@.len() - i,
    {
        if list[i].active {
            return Some(i);
        }
        i = i + 1;
    }
    None
}

impl Tracker {
    /// Compare the stored turn order with a fresh one: when the first
    /// active creature changed (or appeared), report it.
    pub fn get_turn_event(&self, new_state: &Vec<Creature>) -> (r: Option<TrackerEvent>)
        ensures
            match r {
                Some(e) => {
                    &&& exists|j: int|
                        #[trigger] is_first_active(new_state@, j) && e == TrackerEvent::TurnUpdate(
                            new_state@[j],
                        ) && (forall|i: int|
                            #[trigger] is_first_active(self.ordered@, i) ==> !creature_like(
                                self.ordered@[i],
                                new_state@[j],
                            ))
                },
                None => forall|j: int|
                    #[trigger] is_first_active(new_state@, j) ==> exists|i: int|
                        #[trigger] is_first_active(self.ordered@, i) && creature_like(
                            self.ordered@[i],
                            new_state@[j],
                        ),
            },
    {
        let current_turn = find_active(&self.ordered);
        let new_turn = find_active(new_state);
        match new_turn {
            Some(j) => {
                let differs = match current_turn {
                    Some(i) => !(self.ordered[i] == new_state[j]),
                    None => true,
                };
                if differs {
                    proof {
                        assert forall|i: int| #[trigger] is_first_active(self.ordered@, i)
                            implies !creature_like(self.ordered@[i], new_state@[j as int]) by {
                            let i0: int = current_turn.unwrap() as int;
                            assert(!(i < i0) && !(i0 < i));
                        }
                    }
                    Some(TrackerEvent::TurnUpdate(new_state[j].clone()))
                } else {
                    proof {
                        assert forall|j1: int| #[trigger] is_first_active(new_state@, j1)
                            implies exists|i: int|
                            #[trigger] is_first_active(self.ordered@, i) && creature_like(
                                self.ordered@[i],
                                new_state@[j1],
                            ) by {
                            assert(!(j1 < j as int) && !((j as int) < j1));
                            let i0: int = current_turn.unwrap() as int;
                            assert(is_first_active(self.ordered@, i0) && creature_like(
                                self.ordered@[i0],
                                new_state@[j1],
                            ));
                        }
                    }
                    None
                }
            },
            None => {
                proof {
                    assert forall|j: int| #[trigger] is_first_active(new_state@, j)
                        implies exists|i: int|
                        #[trigger] is_first_active(self.ordered@, i) && creature_like(
                            self.ordered@[i],
                            new_state@[j],
                        ) by {
                        assert(!new_state@[j].active);
                    }
                }
                None
            },
        }
    }
}

} // verus!
