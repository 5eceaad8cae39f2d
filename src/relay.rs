//! The rooms of the move relay: who may join, and when a room closes.

use vstd::prelude::*;

use crate::text::str_equal;

verus! {

/// One room of the relay: its name, the rule set it was opened with, and the
/// ids of the players in it.
#[derive(Debug)]
pub struct Room {
    pub name: String,
    pub rule_set: String,
    pub players: Vec<String>,
}

/// The relay's rooms and the number of connected players. A room holds at
/// most two players and disappears when its last player leaves.
#[derive(Debug)]
pub struct Rooms {
    pub rooms: Vec<Room>,
    pub clients_count: usize,
}

/// What a request to join a room comes to.
#[derive(Clone, Copy, PartialEq, Eq, Structural, Debug)]
pub enum JoinOutcome {
    /// The player was added to the room, which was opened if it did not exist.
    Joined,
    /// The room already holds two players; nothing changed.
    Full,
}

/// The most players a room holds.
pub const MAX_PLAYERS: usize = 2;

/// What the relay knows of a room: its rule set and its players, in order
/// of arrival.
pub open spec fn model(r: Room) -> (Seq<char>, Seq<Seq<char>>) {
    (r.rule_set@, r.players@.map_values(|p: String| p@))
}

/// No two rooms share a name.
pub open spec fn names_unique(rs: Seq<Room>) -> bool {
    forall|i: int, j: int|
        0 <= i < rs.len() && 0 <= j < rs.len() && i != j ==> #[trigger] rs[i].name@ != #[trigger] rs[j].name@
}

/// The room called `name`, if there is one.
pub open spec fn lookup_in(rs: Seq<Room>, name: Seq<char>) -> Option<(Seq<char>, Seq<Seq<char>>)> {
    if exists|i: int| 0 <= i < rs.len() && #[trigger] rs[i].name@ == name {
        Some(model(rs[choose|i: int| 0 <= i < rs.len() && #[trigger] rs[i].name@ == name]))
    } else {
        None
    }
}

/// `ps` without every occurrence of `x`, order kept.
pub open spec fn without(ps: Seq<Seq<char>>, x: Seq<char>) -> Seq<Seq<char>>
    decreases ps.len(),
{
    if ps.len() == 0 {
        ps
    } else if ps.last() == x {
        without(ps.drop_last(), x)
    } else {
        without(ps.drop_last(), x).push(ps.last())
    }
}

proof fn lemma_lookup_index(rs: Seq<Room>, i: int)
    requires
        names_unique(rs),
        0 <= i < rs.len(),
    ensures
        lookup_in(rs, rs[i].name@) == Some(model(rs[i])),
{
    let name = rs[i].name@;
    assert(rs[i].name@ == name);
    let j = choose|j: int| 0 <= j < rs.len() && #[trigger] rs[j].name@ == name;
    assert(i == j);
}

proof fn lemma_lookup_remove(rs: Seq<Room>, i: int)
    requires
        names_unique(rs),
        0 <= i < rs.len(),
    ensures
        names_unique(rs.remove(i)),
        lookup_in(rs.remove(i), rs[i].name@) is None,
        forall|name: Seq<char>|
            name != rs[i].name@ ==> #[trigger] lookup_in(rs.remove(i), name) == lookup_in(rs, name),
{
    let rr = rs.remove(i);
    assert forall|a: int, b: int|
        0 <= a < rr.len() && 0 <= b < rr.len() && a != b implies #[trigger] rr[a].name@ != #[trigger] rr[b].name@ by {
        let a2 = if a < i { a } else { a + 1 };
        let b2 = if b < i { b } else { b + 1 };
        assert(rr[a] == rs[a2] && rr[b] == rs[b2]);
    }
    assert forall|k: int| 0 <= k < rr.len() implies #[trigger] rr[k].name@ != rs[i].name@ by {
        let k2 = if k < i { k } else { k + 1 };
        assert(rr[k] == rs[k2]);
    }
    assert forall|name: Seq<char>| name != rs[i].name@ implies #[trigger] lookup_in(rr, name) == lookup_in(rs, name) by {
        if exists|k: int| 0 <= k < rs.len() && #[trigger] rs[k].name@ == name {
            let k = choose|k: int| 0 <= k < rs.len() && #[trigger] rs[k].name@ == name;
            lemma_lookup_index(rs, k);
            let k2 = if k < i { k } else { k - 1 };
            assert(rr[k2] == rs[k]);
            lemma_lookup_index(rr, k2);
        } else {
            if exists|k: int| 0 <= k < rr.len() && #[trigger] rr[k].name@ == name {
                let k = choose|k: int| 0 <= k < rr.len() && #[trigger] rr[k].name@ == name;
                let k2 = if k < i { k } else { k + 1 };
                assert(rr[k] == rs[k2]);
            }
        }
    }
}

proof fn lemma_lookup_push(rs: Seq<Room>, r: Room)
    requires
        names_unique(rs),
        lookup_in(rs, r.name@) is None,
    ensures
        names_unique(rs.push(r)),
        lookup_in(rs.push(r), r.name@) == Some(model(r)),
        forall|name: Seq<char>|
            name != r.name@ ==> #[trigger] lookup_in(rs.push(r), name) == lookup_in(rs, name),
{
    let rp = rs.push(r);
    assert forall|k: int| 0 <= k < rs.len() implies #[trigger] rs[k].name@ != r.name@ by {}
    assert forall|a: int, b: int|
        0 <= a < rp.len() && 0 <= b < rp.len() && a != b implies #[trigger] rp[a].name@ != #[trigger] rp[b].name@ by {
        if a < rs.len() && b < rs.len() {
            assert(rp[a] == rs[a] && rp[b] == rs[b]);
        } else if a < rs.len() {
            assert(rp[a] == rs[a]);
        } else if b < rs.len() {
            assert(rp[b] == rs[b]);
        }
    }
    lemma_lookup_index(rp, rs.len() as int);
    assert forall|name: Seq<char>| name != r.name@ implies #[trigger] lookup_in(rp, name) == lookup_in(rs, name) by {
        if exists|k: int| 0 <= k < rs.len() && #[trigger] rs[k].name@ == name {
            let k = choose|k: int| 0 <= k < rs.len() && #[trigger] rs[k].name@ == name;
            lemma_lookup_index(rs, k);
            assert(rp[k] == rs[k]);
            lemma_lookup_index(rp, k);
        } else {
            if exists|k: int| 0 <= k < rp.len() && #[trigger] rp[k].name@ == name {
                let k = choose|k: int| 0 <= k < rp.len() && #[trigger] rp[k].name@ == name;
                assert(rp[k] == rs[k]);
            }
        }
    }
}

/// A copy of `ps` without the entries equal to `id`.
fn remove_player(ps: &Vec<String>, id: &str) -> (r: Vec<String>)
    ensures
        r@.map_values(|p: String| p@) == without(ps@.map_values(|p: String| p@), id@),
{
    let ghost view = ps@.map_values(|p: String| p@);
    let mut out: Vec<String> = Vec::new();
    let mut i: usize = 0;
    while i < ps.len()
        invariant
            i <= ps.len(),
            view == ps@.map_values(|p: String| p@),
            out@.map_values(|p: String| p@) == without(view.subrange(0, i as int), id@),
        decreases ps.len() - i,
    {
        let ghost before = out@;
        assert(view.subrange(0, i + 1).drop_last() == view.subrange(0, i as int));
        assert(view.subrange(0, i + 1).last() == ps@[i as int]@);
        if !str_equal(ps[i].as_str(), id) {
            out.push(ps[i].clone());
            assert(out@.map_values(|p: String| p@) =~= before.map_values(|p: String| p@).push(
                ps@[i as int]@,
            ));
        }
        i += 1;
    }
    assert(view.subrange(0, i as int) =~= view);
    out
}

impl Rooms {
    /// Room names are unique.
    pub open spec fn wf(&self) -> bool {
        names_unique(self.rooms@)
    }

    /// The room called `name`: its rule set and players, if it exists.
    pub open spec fn lookup(&self, name: Seq<char>) -> Option<(Seq<char>, Seq<Seq<char>>)> {
        lookup_in(self.rooms@, name)
    }

    /// No rooms and no players.
    pub fn new() -> (r: Rooms)
        ensures
            r.wf(),
            r.clients_count == 0,
            forall|name: Seq<char>| #[trigger] r.lookup(name) is None,
    {
        Rooms { rooms: Vec::new(), clients_count: 0 }
    }

    /// The index of the room called `name`.
    fn position_of(&self, name: &str) -> (r: Option<usize>)
        ensures
            r matches Some(i) ==> i < self.rooms.len() && self.rooms@[i as int].name@ == name@,
            r is None ==> forall|i: int|
                0 <= i < self.rooms.len() ==> #[trigger] self.rooms@[i].name@ != name@,
    {
        let mut i: usize = 0;
        while i < self.rooms.len()
            invariant
                i <= self.rooms.len(),
                forall|j: int| 0 <= j < i ==> #[trigger] self.rooms@[j].name@ != name@,
            decreases self.rooms.len() - i,
        {
            if str_equal(self.rooms[i].name.as_str(), name) {
                return Some(i);
            }
            i += 1;
        }
        None
    }

    /// The rule set of the room called `room_id`, if it exists.
    pub fn get_room_rules(&self, room_id: &str) -> (r: Option<String>)
        requires
            self.wf(),
        ensures
            r is None <==> self.lookup(room_id@) is None,
            r matches Some(rs) ==> self.lookup(room_id@) matches Some(m) && rs@ == m.0,
    {
        match self.position_of(room_id) {
            Some(i) => {
                proof {
                    lemma_lookup_index(self.rooms@, i as int);
                }
                Some(self.rooms[i].rule_set.clone())
            },
            None => None,
        }
    }

    /// Adds player `id` to the room called `room`, opening it with rule set
    /// `rule_set` if it does not exist; `Full`, with nothing changed, when the
    /// room already holds two players. Other rooms are untouched.
    pub fn join_room(&mut self, room: &str, id: &str, rule_set: &str) -> (r: JoinOutcome)
        requires
            old(self).wf(),
        ensures
            final(self).wf(),
            old(self).lookup(room@) is None ==> {
                &&& r == JoinOutcome::Joined
                &&& final(self).lookup(room@) == Some((rule_set@, seq![id@]))
            },
            old(self).lookup(room@) matches Some(m) ==> {
                &&& m.1.len() < MAX_PLAYERS ==> r == JoinOutcome::Joined && final(self).lookup(
                    room@,
                ) == Some((m.0, m.1.push(id@)))
                &&& m.1.len() >= MAX_PLAYERS ==> r == JoinOutcome::Full && final(self).lookup(room@)
                    == Some(m)
            },
            r == JoinOutcome::Joined ==> final(self).clients_count == if old(self).clients_count
                < usize::MAX {
                old(self).clients_count + 1
            } else {
                old(self).clients_count as int
            },
            r == JoinOutcome::Full ==> final(self).clients_count == old(self).clients_count,
            forall|name: Seq<char>|
                name != room@ ==> #[trigger] final(self).lookup(name) == old(self).lookup(name),
    {
        match self.position_of(room) {
            None => {
                let mut players: Vec<String> = Vec::new();
                players.push(String::from_str(id));
                let entry = Room {
                    name: String::from_str(room),
                    rule_set: String::from_str(rule_set),
                    players,
                };
                proof {
                    assert(entry.players@.map_values(|p: String| p@) =~= seq![id@]);
                    lemma_lookup_push(self.rooms@, entry);
                }
                self.rooms.push(entry);
                self.clients_count = self.clients_count.saturating_add(1);
                JoinOutcome::Joined
            },
            Some(i) => {
                proof {
                    lemma_lookup_index(self.rooms@, i as int);
                }
                if self.rooms[i].players.len() >= MAX_PLAYERS {
                    return JoinOutcome::Full;
                }
                proof {
                    lemma_lookup_remove(self.rooms@, i as int);
                }
                let mut entry = self.rooms.remove(i);
                let ghost old_players = entry.players@.map_values(|p: String| p@);
                entry.players.push(String::from_str(id));
                proof {
                    assert(entry.players@.map_values(|p: String| p@) =~= old_players.push(id@));
                    lemma_lookup_push(self.rooms@, entry);
                }
                self.rooms.push(entry);
                self.clients_count = self.clients_count.saturating_add(1);
                JoinOutcome::Joined
            },
        }
    }

    /// Removes player `id` from the room called `room`, and the room itself
    /// once it is empty; returns whether the room was removed. Nothing
    /// changes when there is no such room. Other rooms are untouched.
    pub fn leave_room(&mut self, room: &str, id: &str) -> (r: bool)
        requires
            old(self).wf(),
        ensures
            final(self).wf(),
            old(self).lookup(room@) is None ==> !r && final(self).lookup(room@) is None
                && final(self).clients_count == old(self).clients_count,
            old(self).lookup(room@) matches Some(m) ==> {
                &&& final(self).clients_count == if old(self).clients_count > 0 {
                    old(self).clients_count - 1
                } else {
                    0
                }
                &&& without(m.1, id@).len() == 0 ==> r && final(self).lookup(room@) is None
                &&& without(m.1, id@).len() > 0 ==> !r && final(self).lookup(room@) == Some(
                    (m.0, without(m.1, id@)),
                )
            },
            forall|name: Seq<char>|
                name != room@ ==> #[trigger] final(self).lookup(name) == old(self).lookup(name),
    {
        match self.position_of(room) {
            None => false,
            Some(i) => {
                proof {
                    lemma_lookup_index(self.rooms@, i as int);
                    lemma_lookup_remove(self.rooms@, i as int);
                }
                let mut entry = self.rooms.remove(i);
                entry.players = remove_player(&entry.players, id);
                self.clients_count = self.clients_count.saturating_sub(1);
                if entry.players.len() == 0 {
                    proof {
                        assert(entry.players@.map_values(|p: String| p@).len() == 0);
                    }
                    true
                } else {
                    proof {
                        lemma_lookup_push(self.rooms@, entry);
                    }
                    self.rooms.push(entry);
                    false
                }
            },
        }
    }
}

} // verus!
