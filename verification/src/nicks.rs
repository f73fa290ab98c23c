//! Who goes by which name in which room.

use crate::clock::{now_secs, unix_secs};
use crate::table::{keep_if, Table};
use std::time::SystemTime;
use vstd::prelude::*;

verus! {

/// How long a name stays taken, in seconds.
pub const NICK_TTL: u64 = 4 * 3600;

/// When a name was taken, and with which avatar.
#[derive(Clone, Copy)]
pub struct Nick {
    pub registered_at: u64,
    pub avatar: u8,
}

/// The names taken in each room.
pub type NickMap = Map<Seq<char>, Map<Seq<char>, Nick>>;

/// The time limit of the name has passed at `now`.
pub open spec fn expired(nick: Nick, now: u64) -> bool {
    now - nick.registered_at > NICK_TTL
}

/// The names taken in `room`.
pub open spec fn people_in(nicks: NickMap, room: Seq<char>) -> Map<Seq<char>, Nick> {
    if nicks.contains_key(room) {
        nicks[room]
    } else {
        Map::empty()
    }
}

/// At `now` nobody goes by the name in the room, or their time limit has passed.
pub open spec fn nick_available(
    nicks: NickMap,
    room: Seq<char>,
    nick: Seq<char>,
    now: u64,
) -> bool {
    let people = people_in(nicks, room);
    people.contains_key(nick) ==> expired(people[nick], now)
}

/// The names after one was taken at `now`; the expired ones of that room are gone.
pub open spec fn with_nick(
    nicks: NickMap,
    room: Seq<char>,
    nick: Seq<char>,
    avatar: u8,
    now: u64,
) -> NickMap {
    let present = keep_if(people_in(nicks, room), |n: Nick| !expired(n, now));
    nicks.insert(room, present.insert(nick, Nick { registered_at: now, avatar }))
}

/// The names after one was given up: its time starts at zero.
pub open spec fn without_nick(nicks: NickMap, room: Seq<char>, nick: Seq<char>) -> NickMap {
    if people_in(nicks, room).contains_key(nick) {
        let given_up = Nick { registered_at: 0, ..nicks[room][nick] };
        nicks.insert(room, nicks[room].insert(nick, given_up))
    } else {
        nicks
    }
}

/// Whoever took a name keeps it: until the time limit passes nobody else can have it in that room,
/// and afterwards everybody can.
pub proof fn taken_until_expiry(
    nicks: NickMap,
    room: Seq<char>,
    nick: Seq<char>,
    avatar: u8,
    taken: u64,
    now: u64,
)
    ensures
        nick_available(with_nick(nicks, room, nick, avatar, taken), room, nick, now) <==> now
            - taken > NICK_TTL,
{
}

/// A name that nobody has in a room is free there, and one that somebody has is free exactly once
/// more than the time limit has passed since they took it.
pub proof fn free_names_are_these(nicks: NickMap, room: Seq<char>, nick: Seq<char>, now: u64)
    ensures
        !nicks.contains_key(room) ==> nick_available(nicks, room, nick, now),
        nicks.contains_key(room) && !nicks[room].contains_key(nick) ==> nick_available(
            nicks,
            room,
            nick,
            now,
        ),
        nicks.contains_key(room) && nicks[room].contains_key(nick) ==> (nick_available(
            nicks,
            room,
            nick,
            now,
        ) <==> now - nicks[room][nick].registered_at > NICK_TTL),
{
}

/// Whoever takes a name has it from then on, with their avatar. In that room everybody else stays as
/// they are, but for those whose time limit has passed, who are forgotten; other rooms do not change.
pub proof fn taking_a_name(
    nicks: NickMap,
    room: Seq<char>,
    nick: Seq<char>,
    avatar: u8,
    now: u64,
    other: Seq<char>,
)
    ensures
        ({
            let next = with_nick(nicks, room, nick, avatar, now);
            &&& next.remove(room) == nicks.remove(room)
            &&& next.contains_key(room) && next[room].contains_key(nick)
            &&& next[room][nick].registered_at == now && next[room][nick].avatar == avatar
            &&& other != nick ==> (next[room].contains_key(other) <==> nicks.contains_key(room)
                && nicks[room].contains_key(other) && now - nicks[room][other].registered_at
                <= NICK_TTL)
            &&& other != nick && next[room].contains_key(other) ==> next[room][other]
                == nicks[room][other]
        }),
{
    assert(with_nick(nicks, room, nick, avatar, now).remove(room) =~= nicks.remove(room));
}

/// Whoever gives up a name has it as if since time zero. Nobody else is touched, and where nobody had
/// the name nothing changes.
pub proof fn giving_up_a_name(nicks: NickMap, room: Seq<char>, nick: Seq<char>)
    ensures
        ({
            let next = without_nick(nicks, room, nick);
            let had = nicks.contains_key(room) && nicks[room].contains_key(nick);
            &&& !had ==> next == nicks
            &&& had ==> next.remove(room) == nicks.remove(room) && next.contains_key(room)
                && next[room].remove(nick) == nicks[room].remove(nick) && next[room].contains_key(
                nick,
            ) && next[room][nick].registered_at == 0
        }),
{
    let next = without_nick(nicks, room, nick);
    if nicks.contains_key(room) && nicks[room].contains_key(nick) {
        assert(next.remove(room) =~= nicks.remove(room));
        assert(next[room].remove(nick) =~= nicks[room].remove(nick));
    }
}

/// A name that was given up is free again, at any time later than the time limit after zero.
pub proof fn given_up_is_available(nicks: NickMap, room: Seq<char>, nick: Seq<char>, now: u64)
    requires
        now > NICK_TTL,
    ensures
        nick_available(without_nick(nicks, room, nick), room, nick, now),
{
}

/// Taking or giving up a name does not touch any other name: not in that room, nor in another one.
pub proof fn names_are_independent(
    nicks: NickMap,
    room: Seq<char>,
    nick: Seq<char>,
    avatar: u8,
    taken: u64,
    other_room: Seq<char>,
    other: Seq<char>,
    now: u64,
)
    requires
        other_room != room || other != nick,
        taken <= now,
    ensures
        nick_available(with_nick(nicks, room, nick, avatar, taken), other_room, other, now)
            == nick_available(nicks, other_room, other, now),
        nick_available(without_nick(nicks, room, nick), other_room, other, now) == nick_available(
            nicks,
            other_room,
            other,
            now,
        ),
{
    if other_room == room {
        let present = keep_if(people_in(nicks, room), |n: Nick| !expired(n, taken));
        assert(present.contains_key(other) ==> people_in(nicks, room).contains_key(other)
            && present[other] == people_in(nicks, room)[other]);
        assert(people_in(nicks, room).contains_key(other) && !expired(
            people_in(nicks, room)[other],
            taken,
        ) ==> present.contains_key(other));
    }
}

/// The names taken in each room.
pub struct Nicks {
    map: Table<Table<Nick>>,
}

impl View for Nicks {
    type V = NickMap;

    closed spec fn view(&self) -> NickMap {
        self.map@.map_values(|people: Table<Nick>| people@)
    }
}

impl Nicks {
    /// No names are taken.
    pub fn new() -> (r: Self)
        ensures
            r@ == NickMap::empty(),
    {
        let r = Nicks { map: Table::new() };
        assert(r@ =~= NickMap::empty());
        r
    }

    /// Whether the name may be taken in the room at `now`.
    pub fn is_available_at(&self, room: &str, nick: &str, now: u64) -> (r: bool)
        ensures
            r == nick_available(self@, room@, nick@, now),
    {
        match self.map.get(room) {
            None => true,
            Some(people) => match people.get(nick) {
                None => true,
                Some(held) => now.saturating_sub(held.registered_at) > NICK_TTL,
            },
        }
    }

    /// Whether the name may be taken in the room, by the system clock.
    pub fn is_available(&self, room: &str, nick: &str) -> (r: bool)
        ensures
            exists|time: SystemTime|
                r == nick_available(self@, room@, nick@, #[trigger] unix_secs(time)),
    {
        let now = now_secs();
        self.is_available_at(room, nick, now)
    }

    /// Takes the name in the room at `now`, and forgets the names of that room that have expired.
    pub fn register_at(&mut self, room: &str, nick: &str, avatar: u8, now: u64)
        ensures
            final(self)@ == with_nick(old(self)@, room@, nick@, avatar, now),
    {
        let mut people: Table<Nick> = match self.map.remove(room) {
            Some(people) => people,
            None => Table::new(),
        };
        assert(people@ =~= people_in(old(self)@, room@));
        let ghost present = |n: Nick| !expired(n, now);
        let keep = |n: &Nick| -> (b: bool)
            ensures
                b == !expired(*n, now),
            { now.saturating_sub(n.registered_at) <= NICK_TTL };
        people.retain(keep, Ghost(present));
        people.insert(nick.to_owned(), Nick { registered_at: now, avatar });
        self.map.insert(room.to_owned(), people);
        assert(self@ =~= with_nick(old(self)@, room@, nick@, avatar, now));
    }

    /// Takes the name in the room, now by the system clock.
    pub fn register(&mut self, room: &str, nick: &str, avatar: u8)
        ensures
            exists|time: SystemTime|
                final(self)@ == with_nick(
                    old(self)@,
                    room@,
                    nick@,
                    avatar,
                    #[trigger] unix_secs(time),
                ),
    {
        let now = now_secs();
        self.register_at(room, nick, avatar, now);
    }

    /// Gives up the name in the room, if it was taken.
    pub fn release(&mut self, room: &str, nick: &str)
        ensures
            final(self)@ == without_nick(old(self)@, room@, nick@),
    {
        let found: Option<Nick> = match self.map.get(room) {
            Some(people) => match people.get(nick) {
                Some(held) => Some(*held),
                None => None,
            },
            None => None,
        };
        if let Some(held) = found {
            if let Some(mut people) = self.map.remove(room) {
                people.insert(nick.to_owned(), Nick { registered_at: 0, avatar: held.avatar });
                self.map.insert(room.to_owned(), people);
            }
        }
        assert(self@ =~= without_nick(old(self)@, room@, nick@));
    }
}

} // verus!
