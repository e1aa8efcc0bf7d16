//! The registry: every user, every room and every subscriber of the
//! process, together with the card catalog.

use crate::card::{all, catalog, Card};
use crate::error::GameError;
use crate::game::TurnRes;
use crate::room::{hands, lemma_join_keeps_turn, seated, Room, RoomView};
use crate::user::{User, UserView};
use std::collections::HashMap;
use vstd::prelude::*;

verus! {

#[derive(Debug)]
pub struct Uno {
    /// The known users by identity. A user kept here holds no cards; the
    /// hands live in the rooms.
    pub users: HashMap<u32, User>,
    /// The rooms by identity.
    pub rooms: HashMap<u32, Room>,
    /// The identity given out to the last new user.
    pub user_index: u32,
    /// The identity given out to the last new room.
    pub room_index: u32,
    /// For each room the handles of its subscribers, oldest first.
    pub subscribers: HashMap<u32, Vec<u64>>,
    /// The handle given out to the last subscriber.
    pub subscriber_index: u64,
    /// The card catalog.
    pub cards: Vec<Card>,
}

/// The mathematical value of an [`Uno`].
#[verifier::ext_equal]
pub struct UnoView {
    pub users: Map<u32, UserView>,
    pub rooms: Map<u32, RoomView>,
    pub user_index: u32,
    pub room_index: u32,
    pub subscribers: Map<u32, Seq<u64>>,
    pub subscriber_index: u64,
    pub cards: Seq<Card>,
}

impl View for Uno {
    type V = UnoView;

    open spec fn view(&self) -> UnoView {
        UnoView {
            users: self.users@.map_values(|user: User| user@),
            rooms: self.rooms@.map_values(|room: Room| room@),
            user_index: self.user_index,
            room_index: self.room_index,
            subscribers: self.subscribers@.map_values(|list: Vec<u64>| list@),
            subscriber_index: self.subscriber_index,
            cards: self.cards@,
        }
    }
}

impl UnoView {
    /// The registry of a fresh process.
    pub open spec fn empty() -> UnoView {
        UnoView {
            users: Map::empty(),
            rooms: Map::empty(),
            user_index: 0,
            room_index: 0,
            subscribers: Map::empty(),
            subscriber_index: 0,
            cards: catalog(),
        }
    }

    /// The invariant of the registry: it holds the catalog, every room is
    /// well formed, and the users it keeps hold no cards.
    pub open spec fn wf(self) -> bool {
        &&& self.cards == catalog()
        &&& forall|id: u32| self.rooms.contains_key(id) ==> (#[trigger] self.rooms[id]).wf()
        &&& forall|id: u32| self.users.contains_key(id) ==> (#[trigger] self.users[id]).hand.len() == 0
    }

    /// The registry with `room` in place of the room `room_id`.
    pub open spec fn with_room(self, room_id: u32, room: RoomView) -> UnoView {
        UnoView { rooms: self.rooms.insert(room_id, room), ..self }
    }

    /// The subscribers of the room `room_id`, oldest first.
    pub open spec fn notified(self, room_id: u32) -> Seq<u64> {
        if self.subscribers.contains_key(room_id) {
            self.subscribers[room_id]
        } else {
            Seq::empty()
        }
    }

    /// The identity under which a client is known: its own, or the next
    /// fresh one if it has none.
    pub open spec fn identity(self, client_identity: u32) -> u32 {
        if client_identity == 0 {
            (self.user_index + 1) as u32
        } else {
            client_identity
        }
    }

    /// The registry after a client made contact: a client without
    /// identity takes the next fresh one, and an identity seen for the
    /// first time gets a user of the given name.
    pub open spec fn registered(self, client_identity: u32, name: Seq<char>) -> UnoView {
        let id = self.identity(client_identity);
        UnoView {
            user_index: if client_identity == 0 {
                id
            } else {
                self.user_index
            },
            users: if self.users.contains_key(id) {
                self.users
            } else {
                self.users.insert(id, UserView::fresh(name, id))
            },
            ..self
        }
    }

    /// The registry after the client opened a room: the room takes the
    /// next fresh room identity and seats the client alone.
    pub open spec fn opened(self, client_identity: u32, name: Seq<char>) -> UnoView {
        let known = self.registered(client_identity, name);
        let owner = known.users[self.identity(client_identity)];
        let room_id = (self.room_index + 1) as u32;
        UnoView {
            room_index: room_id,
            rooms: known.rooms.insert(room_id, RoomView::empty().joined(owner)),
            ..known
        }
    }

    /// The registry after the client took a seat in the room `room_id`.
    pub open spec fn entered(self, room_id: u32, client_identity: u32, name: Seq<char>) -> UnoView {
        let known = self.registered(client_identity, name);
        let user = known.users[self.identity(client_identity)];
        known.with_room(room_id, known.rooms[room_id].joined(user))
    }

    /// The registry after one more subscriber of the room `room_id` was
    /// given the next fresh handle.
    pub open spec fn subscribed(self, room_id: u32) -> UnoView {
        let handle = (self.subscriber_index + 1) as u64;
        UnoView {
            subscriber_index: handle,
            subscribers: self.subscribers.insert(room_id, self.notified(room_id).push(handle)),
            ..self
        }
    }
}

/// A change to one room leaves every other room as it was, and changes to
/// two different rooms come to the same in either order.
pub proof fn lemma_rooms_apart(
    uno: UnoView,
    first: u32,
    second: u32,
    first_room: RoomView,
    second_room: RoomView,
)
    requires
        first != second,
    ensures
        uno.with_room(first, first_room).rooms.contains_key(second) == uno.rooms.contains_key(
            second,
        ),
        uno.rooms.contains_key(second) ==> uno.with_room(first, first_room).rooms[second]
            == uno.rooms[second],
        uno.with_room(first, first_room).with_room(second, second_room) == uno.with_room(
            second,
            second_room,
        ).with_room(first, first_room),
{
    assert(uno.with_room(first, first_room).with_room(second, second_room) =~= uno.with_room(
        second,
        second_room,
    ).with_room(first, first_room));
}

/// Seating a user adds the user's hand to the cards of the room, so a
/// user who holds none leaves them as they were.
pub proof fn lemma_join_conserves(room: RoomView, user: UserView)
    ensures
        room.joined(user).cards() == room.cards().add(user.hand.to_multiset()),
        user.hand.len() == 0 ==> room.joined(user).cards() == room.cards(),
{
    broadcast use vstd::multiset::group_multiset_axioms;

    let seats = room.players.push(user);
    assert(seats.drop_last() =~= room.players);
    assert(hands(seats) == hands(room.players).add(user.hand.to_multiset()));
    assert(room.joined(user).cards() =~= room.cards().add(user.hand.to_multiset()));
    if user.hand.len() == 0 {
        user.hand.to_multiset_ensures();
        assert(room.cards().add(user.hand.to_multiset()) =~= room.cards());
    }
}

/// Copies a list of subscriber handles.
fn copy_handles(list: &Vec<u64>) -> (copy: Vec<u64>)
    ensures
        copy@ == list@,
{
    let mut copy: Vec<u64> = Vec::new();
    let mut i: usize = 0;
    while i < list.len()
        invariant
            i <= list.len(),
            copy@ == list@.take(i as int),
        decreases list.len() - i,
    {
        copy.push(list[i]);
        assert(list@.take(i + 1) =~= list@.take(i as int).push(list@[i as int]));
        i = i + 1;
    }
    assert(list@.take(list.len() as int) =~= list@);
    copy
}

impl Uno {
    pub fn new() -> (uno: Uno)
        ensures
            uno@ == UnoView::empty(),
            uno@.wf(),
    {
        let uno = Uno {
            users: HashMap::new(),
            rooms: HashMap::new(),
            user_index: 0,
            room_index: 0,
            subscribers: HashMap::new(),
            subscriber_index: 0,
            cards: all(),
        };
        assert(uno@ =~= UnoView::empty());
        uno
    }

    /// Takes the room `room_id` out of the registry.
    pub(crate) fn take_room(&mut self, room_id: u32) -> (found: Option<Room>)
        ensures
            found is Some <==> old(self)@.rooms.contains_key(room_id),
            found matches Some(room) ==> room@ == old(self)@.rooms[room_id] && final(self)@ == (
            UnoView { rooms: old(self)@.rooms.remove(room_id), ..old(self)@ }),
            found is None ==> final(self)@ == old(self)@,
    {
        broadcast use vstd::std_specs::hash::group_hash_axioms;

        let found = self.rooms.remove(&room_id);
        assert(self@.rooms =~= if found is Some {
            old(self)@.rooms.remove(room_id)
        } else {
            old(self)@.rooms
        });
        found
    }

    /// Puts `room` into the registry as the room `room_id`.
    pub(crate) fn put_room(&mut self, room_id: u32, room: Room)
        ensures
            final(self)@ == (UnoView {
                rooms: old(self)@.rooms.insert(room_id, room@),
                ..old(self)@
            }),
    {
        broadcast use vstd::std_specs::hash::group_hash_axioms;

        self.rooms.insert(room_id, room);
        assert(self@.rooms =~= old(self)@.rooms.insert(room_id, room@));
    }

    /// The handles of the subscribers of the room `room_id`, oldest
    /// first: those to be told that the room has changed.
    pub fn broadcast(&self, room_id: u32) -> (handles: Vec<u64>)
        ensures
            handles@ == self@.notified(room_id),
    {
        broadcast use vstd::std_specs::hash::group_hash_axioms;

        match self.subscribers.get(&room_id) {
            Some(list) => copy_handles(list),
            None => Vec::new(),
        }
    }

    /// Registers one more subscriber of the room `room_id` and returns its
    /// handle.
    pub fn subscribe(&mut self, room_id: u32) -> (handle: u64)
        requires
            old(self).subscriber_index < u64::MAX,
        ensures
            final(self)@ == old(self)@.subscribed(room_id),
            handle == old(self).subscriber_index + 1,
            old(self)@.wf() ==> final(self)@.wf(),
    {
        broadcast use vstd::std_specs::hash::group_hash_axioms;

        self.subscriber_index += 1;
        let handle = self.subscriber_index;
        let mut list: Vec<u64> = match self.subscribers.remove(&room_id) {
            Some(list) => list,
            None => Vec::new(),
        };
        list.push(handle);
        self.subscribers.insert(room_id, list);
        assert(self@.subscribers =~= old(self)@.subscribed(room_id).subscribers);
        handle
    }

    /// The user known under `player_id`, or a nameless user without
    /// identity if there is none.
    pub fn user(&self, player_id: u32) -> (user: User)
        ensures
            user@ == if self@.users.contains_key(player_id) {
                self@.users[player_id]
            } else {
                UserView::fresh(Seq::empty(), 0)
            },
    {
        broadcast use vstd::std_specs::hash::group_hash_axioms;

        match self.users.get(&player_id) {
            Some(user) => user.duplicate(),
            None => User::new(String::new(), 0),
        }
    }

    /// The room `room_id` as shown to the player `player_id`, who must be
    /// seated in it.
    pub fn room(&self, room_id: u32, player_id: u32) -> (r: Result<Room, GameError>)
        ensures
            match r {
                Ok(room) => {
                    &&& self@.rooms.contains_key(room_id)
                    &&& room@ == self@.rooms[room_id]
                    &&& seated(room@.players, player_id)
                },
                Err(error) => if self@.rooms.contains_key(room_id) {
                    error == GameError::PlayerNotFound && !seated(
                        self@.rooms[room_id].players,
                        player_id,
                    )
                } else {
                    error == GameError::RoomNotFound
                },
            },
    {
        broadcast use vstd::std_specs::hash::group_hash_axioms;

        match self.rooms.get(&room_id) {
            None => Err(GameError::RoomNotFound),
            Some(room) => {
                if room.seat(player_id).is_some() {
                    Ok(room.duplicate())
                } else {
                    Err(GameError::PlayerNotFound)
                }
            },
        }
    }

    /// Makes the client known: a client without identity takes the next
    /// fresh one, and an identity seen for the first time gets a user of
    /// the given name. Returns the user kept for the client.
    pub fn get_user(&mut self, client_identity: u32, name: String) -> (user: User)
        requires
            client_identity == 0 ==> old(self).user_index < u32::MAX,
        ensures
            final(self)@ == old(self)@.registered(client_identity, name@),
            user@ == final(self)@.users[old(self)@.identity(client_identity)],
            final(self)@.users.contains_key(old(self)@.identity(client_identity)),
            old(self)@.wf() ==> final(self)@.wf(),
    {
        broadcast use vstd::std_specs::hash::group_hash_axioms;

        let mut player_id = client_identity;
        if player_id == 0 {
            self.user_index += 1;
            player_id = self.user_index;
        }
        if self.users.get(&player_id).is_none() {
            self.users.insert(player_id, User::new(name, player_id));
        }
        assert(self@.users =~= old(self)@.registered(client_identity, name@).users);
        assert(self@.rooms =~= old(self)@.rooms);
        assert(self@.subscribers =~= old(self)@.subscribers);
        self.users.get(&player_id).unwrap().duplicate()
    }

    /// Opens a room for the client and seats the client in it alone.
    /// Returns the identity of the room and the user kept for the client.
    pub fn new_room(&mut self, client_identity: u32, name: String) -> (r: (TurnRes, User))
        requires
            old(self).room_index < u32::MAX,
            client_identity == 0 ==> old(self).user_index < u32::MAX,
        ensures
            final(self)@ == old(self)@.opened(client_identity, name@),
            r.0.room_id == old(self).room_index + 1,
            r.1@ == final(self)@.users[old(self)@.identity(client_identity)],
            old(self)@.wf() ==> final(self)@.wf(),
    {
        self.room_index += 1;
        let user = self.get_user(client_identity, name);
        let room_id = self.room_index;
        let mut room = Room::new();
        room.push(user.duplicate());
        self.put_room(room_id, room);
        (TurnRes { room_id }, user)
    }

    /// Seats the client behind the last seat of the room `room_id`,
    /// whether or not the game has started. Returns the user kept for the
    /// client and the subscribers to notify.
    pub fn join_room(&mut self, room_id: u32, client_identity: u32, name: String) -> (r: Result<
        (User, Vec<u64>),
        GameError,
    >)
        requires
            old(self)@.wf(),
            client_identity == 0 ==> old(self).user_index < u32::MAX,
        ensures
            match r {
                Ok((user, handles)) => {
                    &&& old(self)@.rooms.contains_key(room_id)
                    &&& final(self)@ == old(self)@.entered(room_id, client_identity, name@)
                    &&& user@ == final(self)@.users[old(self)@.identity(client_identity)]
                    &&& handles@ == old(self)@.notified(room_id)
                },
                Err(error) => {
                    &&& error == GameError::RoomNotFound
                    &&& !old(self)@.rooms.contains_key(room_id)
                    &&& final(self)@ == old(self)@
                },
            },
            final(self)@.wf(),
            old(self)@.rooms.contains_key(room_id) ==> final(self)@.rooms[room_id].cards() == old(
                self,
            )@.rooms[room_id].cards(),
    {
        let mut room = match self.take_room(room_id) {
            Some(room) => room,
            None => {
                return Err(GameError::RoomNotFound);
            },
        };
        let user = self.get_user(client_identity, name);
        proof {
            lemma_join_conserves(room@, user@);
            lemma_join_keeps_turn(room@, user@);
        }
        room.push(user.duplicate());
        self.put_room(room_id, room);
        let handles = self.broadcast(room_id);
        assert(self@ =~= old(self)@.entered(room_id, client_identity, name@));
        Ok((user, handles))
    }
}

impl Clone for Uno {
    fn clone(&self) -> (copy: Uno)
        ensures
            copy@ == self@,
    {
        let copy = Uno {
            users: self.users.clone(),
            rooms: self.rooms.clone(),
            user_index: self.user_index,
            room_index: self.room_index,
            subscribers: self.subscribers.clone(),
            subscriber_index: self.subscriber_index,
            cards: self.cards.clone(),
        };
        assert(copy.cards@ =~= self.cards@);
        assert(copy@ =~= self@);
        copy
    }
}

} // verus!
