//! The relay server's in-memory tables: rooms waiting for a peer, keyed by
//! room code, and the users online, keyed by username. A table maps each
//! name to at most one value; rooms older than two minutes are dropped.
use vstd::prelude::*;
use crate::text::str_eq;
use crate::net::server::{code_char, room_code};

verus! {

/// A room whose creator waits for a peer: the creator's connection, when
/// the room was made (seconds) and how long its session may last (seconds).
#[derive(Debug, Clone, Copy, PartialEq, Eq, Structural)]
pub struct PendingRoom {
    pub creator: u64,
    pub created_at: u64,
    pub session_limit: u64,
}

/// A waiting room older than this many seconds is dropped.
pub const ROOM_MAX_AGE_SECS: u64 = 120;

/// A table from names to values.
pub struct NameTable<V> {
    entries: Vec<(String, V)>,
}

/// The map that a list of distinct-named entries stands for.
pub open spec fn entries_map<V>(s: Seq<(String, V)>) -> Map<Seq<char>, V>
    decreases s.len(),
{
    if s.len() == 0 {
        Map::empty()
    } else {
        entries_map(s.drop_last()).insert(s.last().0@, s.last().1)
    }
}

/// No two entries share a name.
pub open spec fn names_distinct<V>(s: Seq<(String, V)>) -> bool {
    forall|i: int, j: int| 0 <= i < j < s.len() ==> (#[trigger] s[i]).0@ != (#[trigger] s[j]).0@
}

proof fn lemma_entry_found<V>(s: Seq<(String, V)>, i: int)
    requires
        names_distinct(s),
        0 <= i < s.len(),
    ensures
        entries_map(s).dom().contains(s[i].0@),
        entries_map(s)[s[i].0@] == s[i].1,
    decreases s.len(),
{
    if i < s.len() - 1 {
        assert(s.drop_last()[i] == s[i]);
        lemma_entry_found(s.drop_last(), i);
        assert(s[i].0@ != s[s.len() - 1].0@);
    }
}

proof fn lemma_entry_absent<V>(s: Seq<(String, V)>, k: Seq<char>)
    requires
        forall|i: int| 0 <= i < s.len() ==> (#[trigger] s[i]).0@ != k,
    ensures
        !entries_map(s).dom().contains(k),
    decreases s.len(),
{
    if s.len() > 0 {
        assert forall|i: int| 0 <= i < s.drop_last().len() implies (#[trigger] s.drop_last()[i]).0@
            != k by {
            assert(s.drop_last()[i] == s[i]);
        }
        lemma_entry_absent(s.drop_last(), k);
        assert(s[s.len() - 1].0@ != k);
    }
}

/// Both sequences name the same map when they have the same entries by
/// name: every name of one is in the other with the same value.
proof fn lemma_same_map<V>(s: Seq<(String, V)>, m: Map<Seq<char>, V>)
    requires
        names_distinct(s),
        forall|i: int| 0 <= i < s.len() ==> #[trigger] m.dom().contains(s[i].0@) && m[s[i].0@] == s[i].1,
        forall|k: Seq<char>| #[trigger] m.dom().contains(k) ==> exists|i: int| 0 <= i < s.len() && s[i].0@ == k,
    ensures
        entries_map(s) == m,
{
    assert forall|k: Seq<char>| #[trigger] entries_map(s).dom().contains(k) <==> m.dom().contains(k) by {
        if m.dom().contains(k) {
            let i = choose|i: int| 0 <= i < s.len() && s[i].0@ == k;
            lemma_entry_found(s, i);
        } else {
            if exists|i: int| 0 <= i < s.len() && s[i].0@ == k {
                let i = choose|i: int| 0 <= i < s.len() && s[i].0@ == k;
                assert(m.dom().contains(s[i].0@));
            }
            lemma_entry_absent(s, k);
        }
    }
    assert forall|k: Seq<char>| #[trigger] entries_map(s).dom().contains(k) implies entries_map(s)[k]
        == m[k] by {
        let i = choose|i: int| 0 <= i < s.len() && s[i].0@ == k;
        lemma_entry_found(s, i);
    }
    assert(entries_map(s) =~= m);
}

impl<V: Copy> NameTable<V> {
    /// The table as a map from names to values.
    pub closed spec fn view(&self) -> Map<Seq<char>, V> {
        entries_map(self.entries@)
    }

    /// No name occurs twice.
    pub closed spec fn well_formed(&self) -> bool {
        names_distinct(self.entries@)
    }

    /// An empty table.
    pub fn new() -> (t: Self)
        ensures
            t.well_formed(),
            t.view() == Map::<Seq<char>, V>::empty(),
    {
        NameTable { entries: Vec::new() }
    }

    /// Position of the entry named `name`.
    fn position(&self, name: &str) -> (r: Option<usize>)
        requires
            self.well_formed(),
        ensures
            match r {
                Some(i) => i < self.entries@.len() && self.entries@[i as int].0@ == name@,
                None => forall|i: int|
                    0 <= i < self.entries@.len() ==> (#[trigger] self.entries@[i]).0@ != name@,
            },
    {
        let mut i: usize = 0;
        while i < self.entries.len()
            invariant
                i <= self.entries@.len(),
                forall|j: int| 0 <= j < i ==> (#[trigger] self.entries@[j]).0@ != name@,
            decreases self.entries@.len() - i,
        {
            if str_eq(self.entries[i].0.as_str(), name) {
                return Some(i);
            }
            i = i + 1;
        }
        None
    }

    /// The value named `name`, if any.
    pub fn get(&self, name: &str) -> (r: Option<V>)
        requires
            self.well_formed(),
        ensures
            r == self.view().get(name@),
    {
        match self.position(name) {
            Some(i) => {
                proof {
                    lemma_entry_found(self.entries@, i as int);
                }
                Some(self.entries[i].1)
            },
            None => {
                proof {
                    lemma_entry_absent(self.entries@, name@);
                }
                None
            },
        }
    }

    /// Whether some value is named `name`.
    pub fn contains(&self, name: &str) -> (r: bool)
        requires
            self.well_formed(),
        ensures
            r == self.view().dom().contains(name@),
    {
        self.get(name).is_some()
    }

    /// Names `value` by `name`, replacing what the name stood for before.
    pub fn insert(&mut self, name: String, value: V)
        requires
            old(self).well_formed(),
        ensures
            final(self).well_formed(),
            final(self).view() == old(self).view().insert(name@, value),
    {
        let ghost m = self.view().insert(name@, value);
        let ghost before = self.entries@;
        match self.position(name.as_str()) {
            Some(i) => {
                proof {
                    assert forall|j: int| 0 <= j < before.len() implies #[trigger] m.dom().contains(
                        before[j].0@,
                    ) by {
                        lemma_entry_found(before, j);
                    }
                }
                self.entries.remove(i);
                self.entries.insert(i, (name, value));
                proof {
                    let s = self.entries@;
                    assert(s =~= before.update(i as int, s[i as int]));
                    assert forall|a: int, b: int| 0 <= a < b < s.len() implies (#[trigger] s[a]).0@
                        != (#[trigger] s[b]).0@ by {
                        if a != i && b != i {
                            assert(before[a].0@ != before[b].0@);
                        } else if a == i {
                            assert(before[a].0@ != before[b].0@);
                        } else {
                            assert(before[a].0@ != before[b].0@);
                        }
                    }
                    assert forall|j: int| 0 <= j < s.len() implies #[trigger] m.dom().contains(
                        s[j].0@,
                    ) && m[s[j].0@] == s[j].1 by {
                        if j != i {
                            lemma_entry_found(before, j);
                            assert(before[j].0@ != before[i as int].0@);
                        }
                    }
                    assert forall|k: Seq<char>| #[trigger] m.dom().contains(k) implies exists|j: int|
                        0 <= j < s.len() && s[j].0@ == k by {
                        if k == name@ {
                            assert(s[i as int].0@ == k);
                        } else {
                            if forall|j: int| 0 <= j < before.len() ==> (#[trigger] before[j]).0@ != k {
                                lemma_entry_absent(before, k);
                            }
                            let j = choose|j: int| 0 <= j < before.len() && before[j].0@ == k;
                            assert(s[j].0@ == k);
                        }
                    }
                    lemma_same_map(s, m);
                }
            },
            None => {
                self.entries.push((name, value));
                proof {
                    let s = self.entries@;
                    assert(s.drop_last() =~= before);
                }
            },
        }
    }

    /// Removes the value named `name` and gives it back, if there was one.
    pub fn remove(&mut self, name: &str) -> (r: Option<V>)
        requires
            old(self).well_formed(),
        ensures
            final(self).well_formed(),
            r == old(self).view().get(name@),
            final(self).view() == old(self).view().remove(name@),
    {
        let ghost before = self.entries@;
        let ghost m = self.view().remove(name@);
        match self.position(name) {
            Some(i) => {
                proof {
                    lemma_entry_found(before, i as int);
                }
                let (_, value) = self.entries.remove(i);
                proof {
                    let s = self.entries@;
                    assert(s =~= before.remove(i as int));
                    assert forall|a: int, b: int| 0 <= a < b < s.len() implies (#[trigger] s[a]).0@
                        != (#[trigger] s[b]).0@ by {
                        let a0 = if a < i { a } else { a + 1 };
                        let b0 = if b < i { b } else { b + 1 };
                        assert(s[a] == before[a0] && s[b] == before[b0]);
                        assert(before[a0].0@ != before[b0].0@);
                    }
                    assert forall|j: int| 0 <= j < s.len() implies #[trigger] m.dom().contains(
                        s[j].0@,
                    ) && m[s[j].0@] == s[j].1 by {
                        let j0 = if j < i { j } else { j + 1 };
                        assert(s[j] == before[j0]);
                        lemma_entry_found(before, j0);
                        assert(before[j0].0@ != before[i as int].0@);
                    }
                    assert forall|k: Seq<char>| #[trigger] m.dom().contains(k) implies exists|j: int|
                        0 <= j < s.len() && s[j].0@ == k by {
                        if forall|j: int| 0 <= j < before.len() ==> (#[trigger] before[j]).0@ != k {
                            lemma_entry_absent(before, k);
                        }
                        let j0 = choose|j: int| 0 <= j < before.len() && before[j].0@ == k;
                        let j = if j0 < i { j0 } else { j0 - 1 };
                        assert(s[j].0@ == k);
                    }
                    lemma_same_map(s, m);
                }
                Some(value)
            },
            None => {
                proof {
                    lemma_entry_absent(before, name@);
                    assert(m =~= self.view());
                }
                None
            },
        }
    }
}

/// Whether a room made at `created_at` is still kept at time `now`: at most
/// `ROOM_MAX_AGE_SECS` old.
pub open spec fn room_fresh(room: PendingRoom, now: int) -> bool {
    now - room.created_at <= ROOM_MAX_AGE_SECS
}

/// Drops the rooms older than `ROOM_MAX_AGE_SECS` at time `now` (seconds)
/// and keeps the others.
pub fn expire_rooms(rooms: &mut NameTable<PendingRoom>, now: u64)
    requires
        old(rooms).well_formed(),
    ensures
        final(rooms).well_formed(),
        final(rooms).view() == old(rooms).view().restrict(
            old(rooms).view().dom().filter(|k: Seq<char>| room_fresh(old(rooms).view()[k], now as int)),
        ),
{
    let ghost before = rooms.entries@;
    let ghost old_map = rooms.view();
    let ghost m = old_map.restrict(
        old_map.dom().filter(|k: Seq<char>| room_fresh(old_map[k], now as int)),
    );
    let mut kept: Vec<(String, PendingRoom)> = Vec::new();
    let ghost mut idx: Seq<int> = Seq::empty();
    let mut i: usize = 0;
    while i < rooms.entries.len()
        invariant
            rooms.entries@ == before,
            names_distinct(before),
            i <= before.len(),
            kept@.len() == idx.len(),
            forall|j: int|
                0 <= j < idx.len() ==> 0 <= #[trigger] idx[j] < i && kept@[j] == before[idx[j]]
                    && room_fresh(before[idx[j]].1, now as int),
            forall|a: int, c: int| 0 <= a < c < idx.len() ==> #[trigger] idx[a] < #[trigger] idx[c],
            forall|b: int|
                0 <= b < i && room_fresh(#[trigger] before[b].1, now as int) ==> exists|j: int|
                    0 <= j < idx.len() && idx[j] == b,
        decreases before.len() - i,
    {
        let ghost old_idx = idx;
        let created_at = rooms.entries[i].1.created_at;
        if now < created_at || now - created_at <= ROOM_MAX_AGE_SECS {
            let name = rooms.entries[i].0.clone();
            kept.push((name, rooms.entries[i].1));
            proof {
                idx = idx.push(i as int);
                assert(idx[idx.len() - 1] == i);
            }
        }
        proof {
            assert forall|b: int| 0 <= b < i + 1 && room_fresh(#[trigger] before[b].1, now as int) implies exists|j: int|
                0 <= j < idx.len() && idx[j] == b by {
                if b == i {
                    assert(idx[idx.len() - 1] == b);
                } else {
                    let j = choose|j: int| 0 <= j < old_idx.len() && old_idx[j] == b;
                    assert(idx[j] == b);
                }
            }
        }
        i = i + 1;
    }
    proof {
        let s = kept@;
        assert forall|a: int, c: int| 0 <= a < c < s.len() implies (#[trigger] s[a]).0@ != (
        #[trigger] s[c]).0@ by {
            assert(idx[a] < idx[c]);
        }
        assert forall|j: int| 0 <= j < s.len() implies #[trigger] m.dom().contains(s[j].0@) && m[s[j].0@]
            == s[j].1 by {
            lemma_entry_found(before, idx[j]);
        }
        assert forall|k: Seq<char>| #[trigger] m.dom().contains(k) implies exists|j: int|
            0 <= j < s.len() && s[j].0@ == k by {
            if forall|b: int| 0 <= b < before.len() ==> (#[trigger] before[b]).0@ != k {
                lemma_entry_absent(before, k);
            }
            let b = choose|b: int| 0 <= b < before.len() && before[b].0@ == k;
            lemma_entry_found(before, b);
            assert(room_fresh(before[b].1, now as int));
            let j = choose|j: int| 0 <= j < idx.len() && idx[j] == b;
            assert(s[j].0@ == k);
        }
        lemma_same_map(s, m);
    }
    rooms.entries = kept;
}

/// Opens a room under the code that the random `bytes` draw (one code
/// character per byte). When that code is taken nothing changes and `None`
/// comes back, so the caller draws again; otherwise the room is waiting
/// under the code, which comes back.
pub fn open_room(rooms: &mut NameTable<PendingRoom>, bytes: &[u8], room: PendingRoom) -> (r: Option<
    String,
>)
    requires
        old(rooms).well_formed(),
    ensures
        final(rooms).well_formed(),
        ({
            let code = bytes@.map_values(|b: u8| code_char(b));
            if old(rooms).view().dom().contains(code) {
                r is None && final(rooms).view() == old(rooms).view()
            } else {
                r matches Some(c) && c@ == code && final(rooms).view() == old(rooms).view().insert(
                    code,
                    room,
                )
            }
        }),
{
    let code = room_code(bytes);
    if rooms.contains(code.as_str()) {
        return None;
    }
    let reply = code.clone();
    rooms.insert(code, room);
    Some(reply)
}

/// A room opened under a free code is what a join of that code takes, and
/// once taken the table is as it was before the room was opened.
pub proof fn lemma_open_then_join(rooms: Map<Seq<char>, PendingRoom>, code: Seq<char>, room: PendingRoom)
    requires
        !rooms.dom().contains(code),
    ensures
        rooms.insert(code, room).get(code) == Some(room),
        rooms.insert(code, room).remove(code) == rooms,
{
    assert(rooms.insert(code, room).remove(code) =~= rooms);
}

} // verus!
