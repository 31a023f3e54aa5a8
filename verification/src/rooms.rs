//! The room registry: a dense list of two-seat game rooms, open-seat
//! assignment for incoming clients, and seat release.

use vstd::prelude::*;

use crate::board::Color;
use crate::state::{is_fresh, wf, GameState};

verus! {

/// One two-player game room: its identifier, its authoritative game
/// state, and the clients seated in it (first seat White, second seat
/// Black).
pub struct Room {
    pub room_id: usize,
    pub game_state: GameState,
    pub seats: Vec<u64>,
}

/// The registry of all rooms.  Room identifiers are indices into the
/// dense room list; rooms are never destroyed.
pub struct RoomRegistry {
    pub rooms: Vec<Room>,
}

/// The first room with an open seat, scanning from `i` in insertion
/// order.
pub open spec fn first_open_room(rooms: Seq<Room>, i: int) -> Option<int>
    decreases rooms.len() - i,
{
    if i >= rooms.len() {
        None
    } else if rooms[i].seats@.len() < 2 {
        Some(i)
    } else {
        first_open_room(rooms, i + 1)
    }
}

/// The first room with an open seat, if any.
pub open spec fn open_room(rooms: Seq<Room>) -> Option<int> {
    first_open_room(rooms, 0)
}

impl RoomRegistry {
    /// An empty registry.
    pub fn new() -> (r: Self)
        ensures
            r.rooms@.len() == 0,
    {
        RoomRegistry { rooms: Vec::new() }
    }

    /// Seats a client: the first room with an open seat receives it
    /// (White if the room was empty, Black if one seat was taken);
    /// when no room is open, a fresh room is created and the client is
    /// seated as White.  Returns the room identifier and the assigned
    /// color.
    pub fn acquire_seat(&mut self, client_id: u64) -> (r: (usize, Color))
        ensures
            match open_room(old(self).rooms@) {
                Some(i) => {
                    &&& final(self).rooms@.len() == old(self).rooms@.len()
                    &&& (forall|j: int|
                        0 <= j < old(self).rooms@.len() && j != i ==> final(self).rooms@[j] == old(
                            self,
                        ).rooms@[j])
                    &&& final(self).rooms@[i].seats@ == old(self).rooms@[i].seats@.push(client_id)
                    &&& final(self).rooms@[i].game_state == old(self).rooms@[i].game_state
                    &&& final(self).rooms@[i].room_id == old(self).rooms@[i].room_id
                    &&& r.0 == i
                    &&& r.1 == (if old(self).rooms@[i].seats@.len() == 0 {
                        Color::White
                    } else {
                        Color::Black
                    })
                },
                None => {
                    &&& final(self).rooms@.len() == old(self).rooms@.len() + 1
                    &&& (forall|j: int|
                        0 <= j < old(self).rooms@.len() ==> final(self).rooms@[j] == old(
                            self,
                        ).rooms@[j])
                    &&& final(self).rooms@.last().room_id == old(self).rooms@.len()
                    &&& final(self).rooms@.last().seats@ == seq![client_id]
                    &&& wf(final(self).rooms@.last().game_state@)
                    &&& is_fresh(final(self).rooms@.last().game_state@)
                    &&& r.0 == old(self).rooms@.len()
                    &&& r.1 == Color::White
                },
            },
    {
        let n = self.rooms.len();
        let mut i: usize = 0;
        while i < n
            invariant
                self.rooms@ == old(self).rooms@,
                n == self.rooms@.len(),
                i <= n,
                open_room(self.rooms@) == first_open_room(self.rooms@, i as int),
            decreases n - i,
        {
            if self.rooms[i].seats.len() < 2 {
                let had = self.rooms[i].seats.len();
                self.rooms[i].seats.push(client_id);
                let color = if had == 0 {
                    Color::White
                } else {
                    Color::Black
                };
                return (i, color);
            }
            i = i + 1;
        }
        let room = Room { room_id: n, game_state: GameState::new(), seats: Vec::new() };
        self.rooms.push(room);
        self.rooms[n].seats.push(client_id);
        proof {
            assert(self.rooms@.last().seats@ =~= seq![client_id]);
        }
        (n, Color::White)
    }

    /// Releases a client's seat: the client is removed from the room's
    /// seat list.  The room itself persists, even when empty.
    pub fn release_seat(&mut self, room_id: usize, client_id: u64)
        ensures
            final(self).rooms@.len() == old(self).rooms@.len(),
            (forall|j: int|
                0 <= j < old(self).rooms@.len() && j != room_id ==> final(self).rooms@[j] == old(
                    self,
                ).rooms@[j]),
            room_id < old(self).rooms@.len() ==> {
                &&& final(self).rooms@[room_id as int].room_id == old(
                    self,
                ).rooms@[room_id as int].room_id
                &&& final(self).rooms@[room_id as int].game_state == old(
                    self,
                ).rooms@[room_id as int].game_state
                &&& final(self).rooms@[room_id as int].seats@ == old(
                    self,
                ).rooms@[room_id as int].seats@.filter(|c: u64| c != client_id)
            },
    {
        if room_id >= self.rooms.len() {
            return ;
        }
        let len = self.rooms[room_id].seats.len();
        let mut kept: Vec<u64> = Vec::new();
        let mut i: usize = 0;
        while i < len
            invariant
                room_id < self.rooms@.len(),
                self.rooms@ == old(self).rooms@,
                len == self.rooms@[room_id as int].seats@.len(),
                i <= len,
                kept@ == self.rooms@[room_id as int].seats@.take(i as int).filter(
                    |c: u64| c != client_id,
                ),
            decreases len - i,
        {
            let ghost seats = self.rooms@[room_id as int].seats@;
            let c = self.rooms[room_id].seats[i];
            proof {
                reveal(Seq::filter);
                let cur = seats.take(i as int + 1);
                assert(cur.drop_last() =~= seats.take(i as int));
                assert(cur.last() == c);
                if c != client_id {
                    assert(kept@.push(c) =~= cur.filter(|x: u64| x != client_id));
                }
            }
            if c != client_id {
                kept.push(c);
            }
            i = i + 1;
        }
        proof {
            assert(self.rooms@[room_id as int].seats@.take(len as int) =~= self.rooms@[room_id
                as int].seats@);
        }
        self.rooms[room_id].seats = kept;
    }
}

} // verus!
