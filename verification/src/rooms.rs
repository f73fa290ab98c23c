//! The rooms that exist, and how many people are in each.

use crate::clock::{now_secs, unix_secs};
use crate::table::{distinct, keep_if, map_of, map_of_entries, Table};
use crate::text::{
    before, before_irreflexive, before_is_byte_order, before_total, before_transitive, bytes_before,
    is_before,
};
use std::time::SystemTime;
use vstd::prelude::*;
use vstd::utf8::*;

verus! {

/// How many rooms there may be.
pub const MAX_ROOMS: usize = 200;

/// How long a room is listed after it was made, in seconds.
pub const ROOM_TTL: u64 = 12 * 3600;

/// When a room was made, and about how many people are in it.
#[derive(Clone, Copy)]
pub struct RoomInfo {
    pub created_at: u64,
    pub count: u32,
}

/// A room as it is listed.
pub struct RoomSummary {
    pub name: String,
    pub count: u32,
}

/// The rooms that were made after the time limit before `now`.
pub open spec fn live_rooms(rooms: Map<Seq<char>, RoomInfo>, now: u64) -> Map<
    Seq<char>,
    RoomInfo,
> {
    let cutoff: int = if now >= ROOM_TTL {
        now - ROOM_TTL
    } else {
        0
    };
    keep_if(rooms, |room: RoomInfo| room.created_at > cutoff)
}

/// There is no place for another room.
pub open spec fn rooms_full(rooms: Map<Seq<char>, RoomInfo>) -> bool {
    rooms.len() >= MAX_ROOMS
}

/// The rooms after `name` was added at `now`: unchanged where there is no place or the room exists.
pub open spec fn with_room(rooms: Map<Seq<char>, RoomInfo>, name: Seq<char>, now: u64) -> Map<
    Seq<char>,
    RoomInfo,
> {
    if rooms_full(rooms) || rooms.contains_key(name) {
        rooms
    } else {
        rooms.insert(name, RoomInfo { created_at: now, count: 0 })
    }
}

/// The rooms after somebody entered `name`: one more, up to the largest number.
pub open spec fn with_entry(rooms: Map<Seq<char>, RoomInfo>, name: Seq<char>) -> Map<
    Seq<char>,
    RoomInfo,
> {
    if rooms.contains_key(name) {
        let room = rooms[name];
        let count = if room.count < u32::MAX {
            (room.count + 1) as u32
        } else {
            room.count
        };
        rooms.insert(name, RoomInfo { count, ..room })
    } else {
        rooms
    }
}

/// The rooms after somebody left `name`: one less, down to zero.
pub open spec fn with_exit(rooms: Map<Seq<char>, RoomInfo>, name: Seq<char>) -> Map<
    Seq<char>,
    RoomInfo,
> {
    if rooms.contains_key(name) {
        let room = rooms[name];
        let count = if room.count > 0 {
            (room.count - 1) as u32
        } else {
            room.count
        };
        rooms.insert(name, RoomInfo { count, ..room })
    } else {
        rooms
    }
}

/// The names and counts in a list of rooms.
pub open spec fn summaries(list: Seq<RoomSummary>) -> Seq<(Seq<char>, u32)> {
    Seq::new(list.len(), |i: int| (list[i].name@, list[i].count))
}

/// `list` has every room of `rooms` with its count, ordered by name, none twice.
pub open spec fn is_listing(
    list: Seq<(Seq<char>, u32)>,
    rooms: Map<Seq<char>, RoomInfo>,
) -> bool {
    &&& forall|i: int, j: int|
        0 <= i < j < list.len() ==> before((#[trigger] list[i]).0, (#[trigger] list[j]).0)
    &&& forall|i: int|
        0 <= i < list.len() ==> rooms.contains_key((#[trigger] list[i]).0)
            && rooms[list[i].0].count == list[i].1
    &&& forall|name: Seq<char>| #[trigger]
        rooms.contains_key(name) ==> exists|i: int|
            0 <= i < list.len() && (#[trigger] list[i]).0 == name
}

/// The rooms in the order in which they are listed.
pub open spec fn listing(rooms: Map<Seq<char>, RoomInfo>) -> Seq<(Seq<char>, u32)> {
    choose|list: Seq<(Seq<char>, u32)>| is_listing(list, rooms)
}

/// Where a room that is not in the list yet has its place.
proof fn listing_insert(
    list: Seq<(Seq<char>, u32)>,
    rooms: Map<Seq<char>, RoomInfo>,
    at: int,
    name: Seq<char>,
    room: RoomInfo,
)
    requires
        is_listing(list, rooms),
        !rooms.contains_key(name),
        0 <= at <= list.len(),
        forall|i: int| 0 <= i < at ==> before((#[trigger] list[i]).0, name),
        at < list.len() ==> !before(list[at].0, name),
    ensures
        is_listing(list.insert(at, (name, room.count)), rooms.insert(name, room)),
{
    let longer = list.insert(at, (name, room.count));
    let more = rooms.insert(name, room);
    assert forall|j: int| at <= j < list.len() implies before(name, (#[trigger] list[j]).0) by {
        assert(rooms.contains_key(list[at].0));
        before_total(name, list[at].0);
        if j > at {
            before_transitive(name, list[at].0, list[j].0);
        }
    }
    assert forall|i: int, j: int| 0 <= i < j < longer.len() implies before(
        (#[trigger] longer[i]).0,
        (#[trigger] longer[j]).0,
    ) by {
        let a = if i < at { i } else { i - 1 };
        let b = if j < at { j } else { j - 1 };
        if i != at {
            assert(longer[i] == list[a]);
        }
        if j != at {
            assert(longer[j] == list[b]);
        }
    }
    assert forall|i: int| 0 <= i < longer.len() implies more.contains_key((#[trigger] longer[i]).0)
        && more[longer[i].0].count == longer[i].1 by {
        if i != at {
            let a = if i < at { i } else { i - 1 };
            assert(longer[i] == list[a]);
        }
    }
    assert forall|key: Seq<char>| #[trigger] more.contains_key(key) implies exists|i: int|
        0 <= i < longer.len() && (#[trigger] longer[i]).0 == key by {
        if key == name {
            assert(longer[at].0 == key);
        } else {
            assert(rooms.contains_key(key));
            let a = choose|a: int| 0 <= a < list.len() && (#[trigger] list[a]).0 == key;
            let i = if a < at { a } else { a + 1 };
            assert(longer[i] == list[a]);
        }
    }
}

/// The rooms determine their listing.
pub proof fn listing_unique(
    a: Seq<(Seq<char>, u32)>,
    b: Seq<(Seq<char>, u32)>,
    rooms: Map<Seq<char>, RoomInfo>,
)
    requires
        is_listing(a, rooms),
        is_listing(b, rooms),
    ensures
        a == b,
    decreases a.len(),
{
    if a.len() == 0 {
        if b.len() > 0 {
            assert(rooms.contains_key(b[0].0));
        }
        assert(a =~= b);
    } else {
        assert(rooms.contains_key(a[0].0));
        let j = choose|j: int| 0 <= j < b.len() && (#[trigger] b[j]).0 == a[0].0;
        assert(rooms.contains_key(b[0].0));
        let i = choose|i: int| 0 <= i < a.len() && (#[trigger] a[i]).0 == b[0].0;
        if j > 0 && i > 0 {
            before_transitive(a[0].0, a[i].0, b[j].0);
            before_irreflexive(a[0].0);
        }
        assert(a[0].0 == b[0].0);
        let rest = rooms.remove(a[0].0);
        listing_tail(a, rooms);
        listing_tail(b, rooms);
        listing_unique(a.drop_first(), b.drop_first(), rest);
        assert(a =~= seq![a[0]] + a.drop_first());
        assert(b =~= seq![b[0]] + b.drop_first());
    }
}

proof fn listing_tail(list: Seq<(Seq<char>, u32)>, rooms: Map<Seq<char>, RoomInfo>)
    requires
        is_listing(list, rooms),
        list.len() > 0,
    ensures
        is_listing(list.drop_first(), rooms.remove(list[0].0)),
{
    let tail = list.drop_first();
    let rest = rooms.remove(list[0].0);
    assert forall|i: int| 0 <= i < tail.len() implies rest.contains_key((#[trigger] tail[i]).0)
        && rest[tail[i].0].count == tail[i].1 by {
        assert(tail[i] == list[i + 1]);
        before_irreflexive(list[0].0);
        assert(before(list[0].0, list[i + 1].0));
    }
    assert forall|i: int, j: int| 0 <= i < j < tail.len() implies before(
        (#[trigger] tail[i]).0,
        (#[trigger] tail[j]).0,
    ) by {
        assert(tail[i] == list[i + 1] && tail[j] == list[j + 1]);
    }
    assert forall|key: Seq<char>| #[trigger] rest.contains_key(key) implies exists|i: int|
        0 <= i < tail.len() && (#[trigger] tail[i]).0 == key by {
        assert(rooms.contains_key(key));
        let a = choose|a: int| 0 <= a < list.len() && (#[trigger] list[a]).0 == key;
        assert(tail[a - 1] == list[a]);
    }
}

proof fn place_of(list: Seq<(Seq<char>, u32)>, name: Seq<char>, from: int) -> (at: int)
    requires
        0 <= from <= list.len(),
        forall|i: int| 0 <= i < from ==> before((#[trigger] list[i]).0, name),
    ensures
        from <= at <= list.len(),
        forall|i: int| 0 <= i < at ==> before((#[trigger] list[i]).0, name),
        at < list.len() ==> !before(list[at].0, name),
    decreases list.len() - from,
{
    if from < list.len() && before(list[from].0, name) {
        place_of(list, name, from + 1)
    } else {
        from
    }
}

/// Any rooms can be listed.
pub proof fn listing_exists(rooms: Map<Seq<char>, RoomInfo>)
    requires
        rooms.dom().finite(),
    ensures
        exists|list: Seq<(Seq<char>, u32)>| is_listing(list, rooms),
    decreases rooms.len(),
{
    if rooms.len() == 0 {
        assert(rooms.dom() =~= Set::empty());
        assert(is_listing(Seq::empty(), rooms));
    } else {
        let name = rooms.dom().choose();
        let rest = rooms.remove(name);
        listing_exists(rest);
        let list = choose|list: Seq<(Seq<char>, u32)>| is_listing(list, rest);
        let at = place_of(list, name, 0);
        listing_insert(list, rest, at, name, rooms[name]);
        assert(rest.insert(name, rooms[name]) =~= rooms);
        assert(is_listing(list.insert(at, (name, rooms[name].count)), rooms));
    }
}

/// The listing has every room once, ordered by name, with its count.
pub proof fn listing_is_complete(rooms: Map<Seq<char>, RoomInfo>)
    requires
        rooms.dom().finite(),
    ensures
        is_listing(listing(rooms), rooms),
{
    listing_exists(rooms);
}

/// The rooms are listed in the order of the bytes of their names.
pub proof fn listing_is_in_byte_order(
    list: Seq<(Seq<char>, u32)>,
    rooms: Map<Seq<char>, RoomInfo>,
    i: int,
    j: int,
)
    requires
        is_listing(list, rooms),
        0 <= i < j < list.len(),
    ensures
        bytes_before(encode_utf8(list[i].0), encode_utf8(list[j].0)),
{
    before_is_byte_order(list[i].0, list[j].0);
}

/// There are never more rooms than there may be: whatever happens to the rooms keeps the bound.
pub proof fn rooms_stay_bounded(rooms: Map<Seq<char>, RoomInfo>, name: Seq<char>, now: u64)
    requires
        rooms.dom().finite(),
        rooms.len() <= MAX_ROOMS,
    ensures
        with_room(rooms, name, now).dom().finite(),
        with_room(rooms, name, now).len() <= MAX_ROOMS,
        with_entry(rooms, name).dom() == rooms.dom(),
        with_exit(rooms, name).dom() == rooms.dom(),
        live_rooms(rooms, now).dom().finite(),
        live_rooms(rooms, now).len() <= MAX_ROOMS,
{
    assert(with_entry(rooms, name).dom() =~= rooms.dom());
    assert(with_exit(rooms, name).dom() =~= rooms.dom());
    let live = live_rooms(rooms, now);
    assert(live.dom().subset_of(rooms.dom()));
    vstd::set_lib::lemma_len_subset(live.dom(), rooms.dom());
}

/// Leaving a room undoes entering it, as long as the count has not reached the largest number.
pub proof fn exit_undoes_entry(rooms: Map<Seq<char>, RoomInfo>, name: Seq<char>)
    requires
        rooms.contains_key(name) ==> rooms[name].count < u32::MAX,
    ensures
        with_exit(with_entry(rooms, name), name) == rooms,
{
    assert(with_exit(with_entry(rooms, name), name) =~= rooms);
}

/// Adding a room that exists changes nothing, neither when it was made nor who is in it.
pub proof fn adding_twice_is_adding_once(
    rooms: Map<Seq<char>, RoomInfo>,
    name: Seq<char>,
    now: u64,
    later: u64,
)
    ensures
        with_room(with_room(rooms, name, now), name, later) == with_room(rooms, name, now),
{
}

/// What happens to one room leaves the others as they are.
pub proof fn rooms_are_independent(
    rooms: Map<Seq<char>, RoomInfo>,
    name: Seq<char>,
    other: Seq<char>,
    now: u64,
)
    requires
        name != other,
    ensures
        with_room(rooms, name, now).get(other) == rooms.get(other),
        with_entry(rooms, name).get(other) == rooms.get(other),
        with_exit(rooms, name).get(other) == rooms.get(other),
{
}

/// A room that is added where there is a place for it was made just then and has nobody in it; one
/// that exists stays as it is, and where there is no place nothing changes.
pub proof fn added_room_is_new(rooms: Map<Seq<char>, RoomInfo>, name: Seq<char>, now: u64)
    ensures
        ({
            let next = with_room(rooms, name, now);
            &&& rooms_full(rooms) <==> rooms.len() >= MAX_ROOMS
            &&& rooms.contains_key(name) ==> next == rooms
            &&& rooms.len() >= MAX_ROOMS ==> next == rooms
            &&& !rooms.contains_key(name) && rooms.len() < MAX_ROOMS ==> next.contains_key(name)
                && next[name].created_at == now && next[name].count == 0 && next.remove(name)
                == rooms
        }),
{
    if !rooms.contains_key(name) {
        assert(with_room(rooms, name, now).remove(name) =~= rooms.remove(name));
        assert(rooms.remove(name) =~= rooms);
    }
}

/// Who enters a room is one more there, up to the largest number, and who leaves it one less, down
/// to zero; neither makes a room nor changes when it was made.
pub proof fn people_are_counted(rooms: Map<Seq<char>, RoomInfo>, name: Seq<char>)
    ensures
        !rooms.contains_key(name) ==> with_entry(rooms, name) == rooms && with_exit(rooms, name)
            == rooms,
        rooms.contains_key(name) ==> ({
            let entered = with_entry(rooms, name);
            let left = with_exit(rooms, name);
            let count = rooms[name].count;
            &&& entered.contains_key(name) && left.contains_key(name)
            &&& entered[name].created_at == rooms[name].created_at
            &&& left[name].created_at == rooms[name].created_at
            &&& count < u32::MAX ==> entered[name].count == count + 1
            &&& count == u32::MAX ==> entered[name].count == count
            &&& count > 0 ==> left[name].count == count - 1
            &&& count == 0 ==> left[name].count == 0
        }),
{
}

/// A room is kept at `now` exactly where it was made less than the time limit before, leaving out
/// time zero, and stays as it is.
pub proof fn fresh_rooms_are_kept(rooms: Map<Seq<char>, RoomInfo>, name: Seq<char>, now: u64)
    ensures
        live_rooms(rooms, now).contains_key(name) <==> rooms.contains_key(name)
            && rooms[name].created_at > 0 && now - rooms[name].created_at < ROOM_TTL,
        live_rooms(rooms, now).contains_key(name) ==> live_rooms(rooms, now)[name] == rooms[name],
{
}

/// A list of rooms has each room once: it shows the name and the count of that room, in the order of
/// the bytes of the names.
pub proof fn list_shows_the_rooms(list: Seq<RoomSummary>, rooms: Map<Seq<char>, RoomInfo>)
    requires
        is_listing(summaries(list), rooms),
    ensures
        forall|i: int|
            0 <= i < list.len() ==> rooms.contains_key((#[trigger] list[i]).name@)
                && list[i].count == rooms[list[i].name@].count,
        forall|i: int, j: int|
            0 <= i < j < list.len() ==> bytes_before(
                encode_utf8((#[trigger] list[i]).name@),
                encode_utf8((#[trigger] list[j]).name@),
            ),
        forall|name: Seq<char>| #[trigger]
            rooms.contains_key(name) ==> exists|i: int|
                0 <= i < list.len() && (#[trigger] list[i]).name@ == name,
{
    let pairs = summaries(list);
    assert forall|i: int| 0 <= i < list.len() implies rooms.contains_key((#[trigger] list[i]).name@)
        && list[i].count == rooms[list[i].name@].count by {
        assert(pairs[i] == (list[i].name@, list[i].count));
    }
    assert forall|i: int, j: int| 0 <= i < j < list.len() implies bytes_before(
        encode_utf8((#[trigger] list[i]).name@),
        encode_utf8((#[trigger] list[j]).name@),
    ) by {
        listing_is_in_byte_order(pairs, rooms, i, j);
    }
    assert forall|name: Seq<char>| #[trigger] rooms.contains_key(name) implies exists|i: int|
        0 <= i < list.len() && (#[trigger] list[i]).name@ == name by {
        let i = choose|i: int| 0 <= i < pairs.len() && (#[trigger] pairs[i]).0 == name;
        assert(list[i].name@ == name);
    }
}

/// Exactly the rooms made less than the time limit ago are listed, leaving out time zero.
pub proof fn listed_rooms_are_fresh(
    list: Seq<(Seq<char>, u32)>,
    rooms: Map<Seq<char>, RoomInfo>,
    name: Seq<char>,
    now: u64,
)
    requires
        is_listing(list, live_rooms(rooms, now)),
    ensures
        (exists|i: int| 0 <= i < list.len() && (#[trigger] list[i]).0 == name) <==> (
        rooms.contains_key(name) && now - rooms[name].created_at < ROOM_TTL
            && rooms[name].created_at > 0),
{
    let live = live_rooms(rooms, now);
    if exists|i: int| 0 <= i < list.len() && (#[trigger] list[i]).0 == name {
        let i = choose|i: int| 0 <= i < list.len() && (#[trigger] list[i]).0 == name;
        assert(live.contains_key(list[i].0));
    }
    if rooms.contains_key(name) && now - rooms[name].created_at < ROOM_TTL
        && rooms[name].created_at > 0 {
        assert(live.contains_key(name));
    }
}

/// The rooms that exist.
pub struct Rooms {
    map: Table<RoomInfo>,
}

impl View for Rooms {
    type V = Map<Seq<char>, RoomInfo>;

    closed spec fn view(&self) -> Map<Seq<char>, RoomInfo> {
        self.map@
    }
}

impl Rooms {
    /// No rooms.
    pub fn new() -> (r: Self)
        ensures
            r@ == Map::<Seq<char>, RoomInfo>::empty(),
    {
        Rooms { map: Table::new() }
    }

    /// Forgets the rooms that are too old at `now`, and lists the others by name.
    pub fn list_at(&mut self, now: u64) -> (r: Vec<RoomSummary>)
        ensures
            final(self)@ == live_rooms(old(self)@, now),
            is_listing(summaries(r@), final(self)@),
    {
        let cutoff: u64 = now.saturating_sub(ROOM_TTL);
        let ghost live = |room: RoomInfo| room.created_at > cutoff;
        let keep = |room: &RoomInfo| -> (b: bool)
            ensures
                b == (room.created_at > cutoff),
            { room.created_at > cutoff };
        self.map.retain(keep, Ghost(live));
        assert(self@ =~= live_rooms(old(self)@, now));
        let entries = self.map.entries();
        let mut list: Vec<RoomSummary> = Vec::new();
        let mut n: usize = 0;
        assert(entries@.take(0) =~= Seq::<(String, RoomInfo)>::empty());
        while n < entries.len()
            invariant
                n <= entries@.len(),
                distinct(entries@),
                is_listing(summaries(list@), map_of(entries@.take(n as int))),
            decreases entries@.len() - n,
        {
            let name = entries[n].0.clone();
            let room = entries[n].1;
            let mut at: usize = 0;
            while at < list.len() && is_before(list[at].name.as_str(), name.as_str())
                invariant
                    at <= list@.len(),
                    forall|i: int| 0 <= i < at ==> before((#[trigger] list@[i]).name@, name@),
                decreases list@.len() - at,
            {
                at = at + 1;
            }
            let ghost seen = entries@.take(n as int);
            let ghost shorter = summaries(list@);
            list.insert(at, RoomSummary { name, count: room.count });
            proof {
                assert(distinct(seen));
                map_of_entries(seen);
                assert(!map_of(seen).contains_key(name@)) by {
                    if map_of(seen).contains_key(name@) {
                        let i = choose|i: int|
                            0 <= i < seen.len() && (#[trigger] seen[i]).0@ == name@;
                        assert(entries@[i].0@ != entries@[n as int].0@);
                    }
                }
                listing_insert(shorter, map_of(seen), at as int, name@, room);
                assert(summaries(list@) =~= shorter.insert(at as int, (name@, room.count)));
                let more = entries@.take(n + 1);
                assert(more.drop_last() =~= seen);
            }
            n = n + 1;
        }
        assert(entries@.take(n as int) =~= entries@);
        list
    }

    /// Forgets the rooms that are too old by the system clock, and lists the others by name.
    pub fn list(&mut self) -> (r: Vec<RoomSummary>)
        ensures
            exists|time: SystemTime|
                final(self)@ == live_rooms(old(self)@, #[trigger] unix_secs(time)),
            is_listing(summaries(r@), final(self)@),
    {
        let now = now_secs();
        self.list_at(now)
    }

    /// Adds a room at `now`, unless it exists; refuses where there is no place for a room.
    pub fn add_at(&mut self, name: String, now: u64) -> (r: bool)
        ensures
            r == !rooms_full(old(self)@),
            final(self)@ == with_room(old(self)@, name@, now),
    {
        if self.map.len() >= MAX_ROOMS {
            return false;
        }
        if self.map.get(name.as_str()).is_none() {
            self.map.insert(name, RoomInfo { created_at: now, count: 0 });
        }
        true
    }

    /// Adds a room, made now by the system clock, unless it exists; refuses where there is no place
    /// for a room.
    pub fn add(&mut self, name: String) -> (r: bool)
        ensures
            r == !rooms_full(old(self)@),
            exists|time: SystemTime|
                final(self)@ == with_room(old(self)@, name@, #[trigger] unix_secs(time)),
    {
        let now = now_secs();
        self.add_at(name, now)
    }

    /// Counts one more person in the room, if it exists.
    pub fn inc(&mut self, name: &str)
        ensures
            final(self)@ == with_entry(old(self)@, name@),
    {
        let found: Option<RoomInfo> = match self.map.get(name) {
            Some(room) => Some(*room),
            None => None,
        };
        if let Some(room) = found {
            let count = room.count.saturating_add(1);
            self.map.insert(name.to_owned(), RoomInfo { created_at: room.created_at, count });
        }
    }

    /// Counts one person less in the room, if it exists.
    pub fn dec(&mut self, name: &str)
        ensures
            final(self)@ == with_exit(old(self)@, name@),
    {
        let found: Option<RoomInfo> = match self.map.get(name) {
            Some(room) => Some(*room),
            None => None,
        };
        if let Some(room) = found {
            let count = room.count.saturating_sub(1);
            self.map.insert(name.to_owned(), RoomInfo { created_at: room.created_at, count });
        }
    }
}

} // verus!
