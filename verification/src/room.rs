//! The state machine of one room: seating order, deck, board, turn pointer,
//! direction, active color and pending effect.

use crate::card::{catalog, Card, CardColor, GameState};
use crate::error::GameError;
use crate::user::{copy_cards, User, UserView};
use rand::seq::SliceRandom;
use rand::thread_rng;
use vstd::multiset::Multiset;
use vstd::prelude::*;
use vstd::seq_lib::lemma_multiset_commutative;

verus! {

/// Number of cards dealt to each seat.
pub const HAND_SIZE: usize = 7;

#[derive(Debug)]
pub struct Room {
    /// The seated players; seating order is turn order.
    pub players: Vec<User>,
    /// Whether the cards have been dealt.
    pub active: bool,
    /// The draw pile.
    pub deck: Vec<(u8, Card)>,
    /// The discard pile; its last card is the exposed top.
    pub board: Vec<(u8, Card)>,
    /// A snapshot of the player whose turn it is.
    pub current_player: User,
    /// The seat whose turn it is.
    pub turn: usize,
    /// The color chosen by whoever last played a wild card.
    pub color: CardColor,
    /// The pending effect of an unresolved chain.
    pub state: Option<GameState>,
    /// Number of cards played in the unresolved chain.
    pub chain_count: u8,
    /// Forward through the seats when set, backward otherwise.
    pub direction: bool,
}

/// The mathematical value of a [`Room`].
#[verifier::ext_equal]
pub struct RoomView {
    pub players: Seq<UserView>,
    pub active: bool,
    pub deck: Seq<(u8, Card)>,
    pub board: Seq<(u8, Card)>,
    pub current_player: UserView,
    pub turn: int,
    pub color: CardColor,
    pub state: Option<GameState>,
    pub chain_count: u8,
    pub direction: bool,
}

impl View for Room {
    type V = RoomView;

    open spec fn view(&self) -> RoomView {
        RoomView {
            players: self.players.deep_view(),
            active: self.active,
            deck: self.deck@,
            board: self.board@,
            current_player: self.current_player@,
            turn: self.turn as int,
            color: self.color,
            state: self.state,
            chain_count: self.chain_count,
            direction: self.direction,
        }
    }
}

impl DeepView for Room {
    type V = RoomView;

    open spec fn deep_view(&self) -> RoomView {
        self@
    }
}

/// One seat over from `turn` among `seats` seats: forward when `direction`
/// holds, backward otherwise, wrapping at either end.
pub open spec fn step(seats: int, turn: int, direction: bool) -> int {
    if direction {
        if turn == seats - 1 {
            0
        } else {
            turn + 1
        }
    } else {
        if turn == 0 {
            seats - 1
        } else {
            turn - 1
        }
    }
}

/// The seat on which the turn pointer comes to rest when it has reached
/// `seat`: `seat` itself if its occupant holds a card or no try is left,
/// otherwise the resting seat found from one seat further on.
pub open spec fn settle(players: Seq<UserView>, seat: int, direction: bool, tries: nat) -> int
    decreases tries,
{
    if tries == 0 || players[seat].hand.len() > 0 {
        seat
    } else {
        settle(players, step(players.len() as int, seat, direction), direction, (tries - 1) as nat)
    }
}

/// The seat whose turn comes after `turn`: the first seat in the given
/// direction whose occupant holds a card. The search gives up after one
/// full round, which leaves the pointer one seat over from `turn`.
pub open spec fn next_seat(players: Seq<UserView>, turn: int, direction: bool) -> int {
    settle(players, step(players.len() as int, turn, direction), direction, players.len())
}

/// Whether some seat's occupant holds a card.
pub open spec fn any_holder(players: Seq<UserView>) -> bool {
    exists|seat: int| 0 <= seat < players.len() && #[trigger] players[seat].hand.len() > 0
}

/// Whether `seat` is the first seat occupied by the player `id`.
pub open spec fn is_seat_of(players: Seq<UserView>, id: u32, seat: int) -> bool {
    &&& 0 <= seat < players.len()
    &&& players[seat].id == id
    &&& forall|k: int| 0 <= k < seat ==> (#[trigger] players[k]).id != id
}

/// Whether the player `id` occupies a seat.
pub open spec fn seated(players: Seq<UserView>, id: u32) -> bool {
    exists|seat: int| is_seat_of(players, id, seat)
}

/// The first seat occupied by the player `id`, if the player is seated.
pub open spec fn seat_of(players: Seq<UserView>, id: u32) -> int {
    choose|seat: int| is_seat_of(players, id, seat)
}

/// The cards `cards`, each paired with its position as identity.
pub open spec fn numbered(cards: Seq<Card>) -> Seq<(u8, Card)> {
    Seq::new(cards.len(), |i: int| (i as u8, cards[i]))
}

/// Every card of the catalog with its identity, in catalog order.
pub open spec fn full_deck() -> Seq<(u8, Card)> {
    numbered(catalog())
}

/// The cards held in all hands together.
pub open spec fn hands(players: Seq<UserView>) -> Multiset<(u8, Card)>
    decreases players.len(),
{
    if players.len() == 0 {
        Multiset::empty()
    } else {
        hands(players.drop_last()).add(players.last().hand.to_multiset())
    }
}

/// The hand dealt to `seat` from `deck`: seven cards from the front for
/// each seat in seating order.
pub open spec fn dealt_hand(deck: Seq<(u8, Card)>, seat: int) -> Seq<(u8, Card)> {
    deck.subrange(HAND_SIZE * seat, HAND_SIZE * seat + HAND_SIZE)
}

/// The players after each was dealt a hand from `deck`.
pub open spec fn dealt_players(players: Seq<UserView>, deck: Seq<(u8, Card)>) -> Seq<UserView> {
    Seq::new(players.len(), |seat: int| players[seat].with_hand(dealt_hand(deck, seat)))
}

/// Position of the last number card in `cards`, or -1 if there is none.
pub open spec fn last_number(cards: Seq<(u8, Card)>) -> int
    decreases cards.len(),
{
    if cards.len() == 0 {
        -1
    } else if cards.last().1 is Number {
        cards.len() - 1
    } else {
        last_number(cards.drop_last())
    }
}

impl RoomView {
    /// A room without players, before the deal.
    pub open spec fn empty() -> RoomView {
        RoomView {
            players: Seq::empty(),
            active: false,
            deck: Seq::empty(),
            board: Seq::empty(),
            current_player: UserView::fresh(Seq::empty(), 0),
            turn: 0,
            color: CardColor::Red,
            state: None,
            chain_count: 0,
            direction: false,
        }
    }

    /// The invariant of a room: the turn pointer indexes a seat, the
    /// snapshot shows that seat's occupant, a chain is counted only while
    /// an effect is pending, and an active room exposes a top card.
    pub open spec fn wf(self) -> bool {
        &&& 0 <= self.turn
        &&& self.players.len() == 0 ==> self.turn == 0
        &&& self.players.len() > 0 ==> self.turn < self.players.len() && self.current_player
            == self.players[self.turn]
        &&& self.state is None ==> self.chain_count == 0
        &&& self.active ==> self.board.len() > 0
    }

    /// The room with the snapshot of the current player taken anew.
    pub open spec fn refreshed(self) -> RoomView {
        RoomView { current_player: self.players[self.turn], ..self }
    }

    /// The room after `user` took the seat behind the last one.
    pub open spec fn joined(self, user: UserView) -> RoomView {
        let room = RoomView { players: self.players.push(user), ..self };
        if 0 <= room.turn < room.players.len() {
            room.refreshed()
        } else {
            room
        }
    }

    /// The room after the last card of the deck went onto the board.
    pub open spec fn centered(self) -> RoomView {
        RoomView {
            deck: self.deck.drop_last(),
            board: self.board.push(self.deck.last()),
            ..self
        }
    }

    /// The room after the turn pointer moved one seat in `direction`.
    pub open spec fn shifted(self, direction: bool) -> RoomView {
        RoomView {
            turn: step(self.players.len() as int, self.turn, direction),
            ..self
        }.refreshed()
    }

    /// The room after the turn passed to the next player.
    pub open spec fn advanced(self) -> RoomView {
        RoomView {
            turn: next_seat(self.players, self.turn, self.direction),
            ..self
        }.refreshed()
    }

    /// Every card in the room: all hands, the deck and the board.
    pub open spec fn cards(self) -> Multiset<(u8, Card)> {
        hands(self.players).add(self.deck.to_multiset()).add(self.board.to_multiset())
    }

    /// Catalog closure: once the cards are dealt, the hands, the deck and
    /// the board together hold every card of the catalog exactly once.
    pub open spec fn closed(self) -> bool {
        self.active ==> self.cards() == full_deck().to_multiset()
    }

    /// What is left of `deck` after every seat was dealt a hand.
    pub open spec fn remainder(self, deck: Seq<(u8, Card)>) -> Seq<(u8, Card)> {
        deck.skip(HAND_SIZE * self.players.len())
    }

    /// Whether `deck` suffices for a deal: a hand for every seat, and
    /// behind them a number card to open the board with.
    pub open spec fn can_deal(self, deck: Seq<(u8, Card)>) -> bool {
        &&& HAND_SIZE * self.players.len() <= deck.len()
        &&& last_number(self.remainder(deck)) >= 0
    }

    /// The room after the deal from `deck`: every seat holds its hand, and
    /// the cards behind the last number card of the remainder lie on the
    /// board in the order in which they came off the back of the deck,
    /// that number card on top.
    pub open spec fn dealt(self, deck: Seq<(u8, Card)>) -> RoomView {
        let rest = self.remainder(deck);
        let opening = last_number(rest);
        RoomView {
            players: dealt_players(self.players, deck),
            deck: rest.take(opening),
            board: rest.skip(opening).reverse(),
            active: true,
            ..self
        }.refreshed()
    }

    /// What a deal from `deck` comes to: an active room stays as it is, a
    /// room with fewer than two players or too few cards refuses, any
    /// other room is dealt.
    pub open spec fn deal_result(self, deck: Seq<(u8, Card)>) -> Result<RoomView, GameError> {
        if self.active {
            Ok(self)
        } else if self.players.len() < 2 {
            Err(GameError::NotEnoughPlayers)
        } else if !self.can_deal(deck) {
            Err(GameError::ResourceExhaustion)
        } else {
            Ok(self.dealt(deck))
        }
    }

    /// Drawing recycles the board first when taking the front card would
    /// leave fewer than two cards in the deck.
    pub open spec fn must_recycle(self) -> bool {
        self.deck.len() < 3
    }

    /// The cards of the board below the exposed top.
    pub open spec fn covered(self) -> Seq<(u8, Card)> {
        if self.board.len() > 0 {
            self.board.drop_last()
        } else {
            Seq::empty()
        }
    }

    /// The cards that a recycle gathers: the covered cards of the board,
    /// followed by the deck.
    pub open spec fn spent(self) -> Seq<(u8, Card)> {
        self.covered() + self.deck
    }

    /// The room after a recycle that put `pile` in place of the deck: the
    /// board keeps its top card only.
    pub open spec fn restocked(self, pile: Seq<(u8, Card)>) -> RoomView {
        RoomView { deck: pile, board: self.board.skip(self.covered().len() as int), ..self }
    }

    /// The room after the front card of the deck was taken.
    pub open spec fn drawn(self) -> RoomView {
        RoomView { deck: self.deck.drop_first(), ..self }
    }

    /// Whether `after` is this room once the cards `drawn` were drawn from
    /// it in that order. Only deck and board differ: the board is cut down
    /// to its top card if a recycle took place, and the drawn cards
    /// together with what can still be drawn are the cards that could be
    /// drawn before.
    pub open spec fn drew(self, after: RoomView, drawn: Seq<(u8, Card)>) -> bool {
        &&& after == (RoomView { deck: after.deck, board: after.board, ..self })
        &&& after.board.len() <= self.board.len()
        &&& after.board == self.board.skip(self.board.len() - after.board.len())
        &&& self.board.len() > 0 ==> after.board.len() > 0
        &&& (drawn + after.spent()).to_multiset() == self.spent().to_multiset()
    }
}

/// Steps needed to walk from `from` to `to` in `direction` among `seats`
/// seats.
spec fn distance(seats: int, from: int, to: int, direction: bool) -> int {
    if direction {
        if to >= from {
            to - from
        } else {
            to - from + seats
        }
    } else {
        if from >= to {
            from - to
        } else {
            from - to + seats
        }
    }
}

proof fn lemma_settle_in_range(players: Seq<UserView>, seat: int, direction: bool, tries: nat)
    requires
        0 <= seat < players.len(),
    ensures
        0 <= settle(players, seat, direction, tries) < players.len(),
    decreases tries,
{
    if tries == 0 || players[seat].hand.len() > 0 {
    } else {
        lemma_settle_in_range(
            players,
            step(players.len() as int, seat, direction),
            direction,
            (tries - 1) as nat,
        );
    }
}

proof fn lemma_settle_finds(
    players: Seq<UserView>,
    seat: int,
    direction: bool,
    tries: nat,
    holder: int,
)
    requires
        0 <= seat < players.len(),
        0 <= holder < players.len(),
        players[holder].hand.len() > 0,
        distance(players.len() as int, seat, holder, direction) <= tries,
    ensures
        players[settle(players, seat, direction, tries)].hand.len() > 0,
    decreases tries,
{
    if players[seat].hand.len() > 0 {
    } else {
        lemma_settle_finds(
            players,
            step(players.len() as int, seat, direction),
            direction,
            (tries - 1) as nat,
            holder,
        );
    }
}

/// The turn pointer stays on a seat when it advances, and as soon as any
/// player holds a card it comes to rest on a player who holds one.
pub proof fn lemma_advance_lands_on_holder(room: RoomView)
    requires
        room.wf(),
        room.players.len() > 0,
    ensures
        0 <= room.advanced().turn < room.players.len(),
        room.advanced().wf(),
        any_holder(room.players) ==> room.advanced().players[room.advanced().turn].hand.len() > 0,
{
    let seats = room.players.len() as int;
    let first = step(seats, room.turn, room.direction);
    lemma_settle_in_range(room.players, first, room.direction, room.players.len());
    if any_holder(room.players) {
        let holder = choose|seat: int|
            0 <= seat < room.players.len() && #[trigger] room.players[seat].hand.len() > 0;
        lemma_settle_finds(room.players, first, room.direction, room.players.len(), holder);
    }
}

/// Joining appends to the seating order and leaves the turn pointer, and
/// the player it points at, as they were.
pub proof fn lemma_join_keeps_turn(room: RoomView, user: UserView)
    requires
        room.wf(),
    ensures
        room.joined(user).wf(),
        room.joined(user).players == room.players.push(user),
        room.joined(user).turn == room.turn,
        room.players.len() > 0 ==> room.joined(user).players[room.turn] == room.players[room.turn]
            && room.joined(user).current_player == room.current_player,
{
}

impl Room {
    pub fn new() -> (room: Room)
        ensures
            room@ == RoomView::empty(),
            room@.wf(),
    {
        let room = Room {
            players: Vec::new(),
            active: false,
            deck: Vec::new(),
            board: Vec::new(),
            current_player: User::new(String::new(), 0),
            turn: 0,
            color: CardColor::Red,
            state: None,
            chain_count: 0,
            direction: false,
        };
        assert(room.players.deep_view() =~= Seq::<UserView>::empty());
        room
    }

    /// A copy of the room, equal to it in every field.
    pub fn duplicate(&self) -> (copy: Room)
        ensures
            copy@ == self@,
    {
        let mut players: Vec<User> = Vec::new();
        let mut i: usize = 0;
        while i < self.players.len()
            invariant
                i <= self.players.len(),
                players@.len() == i,
                forall|k: int| 0 <= k < i ==> (#[trigger] players@[k])@ == self.players@[k]@,
            decreases self.players.len() - i,
        {
            players.push(self.players[i].duplicate());
            i = i + 1;
        }
        assert(players.deep_view() =~= self.players.deep_view());
        Room {
            players,
            active: self.active,
            deck: copy_cards(&self.deck),
            board: copy_cards(&self.board),
            current_player: self.current_player.duplicate(),
            turn: self.turn,
            color: self.color,
            state: self.state,
            chain_count: self.chain_count,
            direction: self.direction,
        }
    }

    /// Seats `user` behind the last seat and returns a copy of the room.
    pub fn push(&mut self, user: User) -> (room: Room)
        ensures
            final(self)@ == old(self)@.joined(user@),
            room@ == final(self)@,
            old(self)@.wf() ==> final(self)@.wf(),
    {
        self.players.push(user);
        assert(self.players.deep_view() =~= old(self).players.deep_view().push(user@));
        if self.turn < self.players.len() {
            self.update_player();
        }
        self.duplicate()
    }

    /// The first seat occupied by the player `player_id`.
    pub fn seat(&self, player_id: u32) -> (found: Option<usize>)
        ensures
            found is Some <==> seated(self@.players, player_id),
            found matches Some(seat) ==> is_seat_of(self@.players, player_id, seat as int) && seat
                == seat_of(self@.players, player_id),
    {
        let mut i: usize = 0;
        while i < self.players.len()
            invariant
                i <= self.players.len(),
                forall|k: int| 0 <= k < i ==> (#[trigger] self@.players[k]).id != player_id,
            decreases self.players.len() - i,
        {
            if self.players[i].id == player_id {
                assert(is_seat_of(self@.players, player_id, i as int));
                return Some(i);
            }
            i = i + 1;
        }
        None
    }

    /// The occupant of the first seat held by the player `player_id`.
    pub fn player(&mut self, player_id: u32) -> (user: &mut User)
        requires
            seated(old(self)@.players, player_id),
        ensures
            user@ == old(self)@.players[seat_of(old(self)@.players, player_id)],
            final(self)@ =~= (RoomView {
                players: old(self)@.players.update(
                    seat_of(old(self)@.players, player_id),
                    final(user)@,
                ),
                ..old(self)@
            }),
    {
        let found = self.seat(player_id);
        let seat = found.unwrap();
        &mut self.players[seat]
    }

    /// Takes the snapshot of the current player anew.
    pub fn update_player(&mut self)
        requires
            old(self).turn < old(self).players.len(),
        ensures
            final(self)@ == old(self)@.refreshed(),
    {
        self.current_player = self.players[self.turn].duplicate();
    }

    /// Moves the last card of the deck onto the board.
    pub fn to_center(&mut self)
        requires
            old(self).deck.len() > 0,
        ensures
            final(self)@ == old(self)@.centered(),
    {
        let card = self.deck.pop().unwrap();
        self.board.push(card);
    }

    /// The exposed card: the last one of the board.
    pub fn top(&self) -> (card: (u8, Card))
        requires
            self.board.len() > 0,
        ensures
            card == self@.board.last(),
    {
        self.board[self.board.len() - 1]
    }

    /// Moves the turn pointer one seat backward, wrapping at the first
    /// seat.
    pub fn left(&mut self)
        requires
            old(self)@.wf(),
            old(self).players.len() > 0,
        ensures
            final(self)@ == old(self)@.shifted(false),
            final(self)@.wf(),
    {
        if self.turn == 0 {
            self.turn = self.players.len() - 1;
        } else {
            self.turn -= 1;
        }
        self.update_player();
    }

    /// Moves the turn pointer one seat forward, wrapping at the last seat.
    pub fn right(&mut self)
        requires
            old(self)@.wf(),
            old(self).players.len() > 0,
        ensures
            final(self)@ == old(self)@.shifted(true),
            final(self)@.wf(),
    {
        if self.turn == self.players.len() - 1 {
            self.turn = 0;
        } else {
            self.turn += 1;
        }
        self.update_player();
    }

    /// Passes the turn to the next player: one seat over in the current
    /// direction, and on past every seat whose occupant holds no card.
    pub fn next(&mut self)
        requires
            old(self)@.wf(),
            old(self).players.len() > 0,
        ensures
            final(self)@ == old(self)@.advanced(),
            final(self)@.wf(),
            any_holder(old(self)@.players) ==> final(self)@.current_player.hand.len() > 0,
    {
        let ghost before = self@;
        let seats: usize = self.players.len();
        self.shift();
        let mut tries: usize = seats;
        while tries > 0 && self.players[self.turn].hand.len() == 0
            invariant
                seats == self.players.len(),
                self.turn < seats,
                self@ == (RoomView { turn: self.turn as int, ..before }),
                settle(before.players, self.turn as int, before.direction, tries as nat)
                    == next_seat(before.players, before.turn, before.direction),
            decreases tries,
        {
            self.shift();
            tries -= 1;
        }
        self.update_player();
        proof {
            lemma_advance_lands_on_holder(before);
        }
    }

    /// Moves the turn pointer one seat in the current direction, leaving
    /// the snapshot as it is.
    fn shift(&mut self)
        requires
            old(self).turn < old(self).players.len(),
        ensures
            final(self)@ == (RoomView {
                turn: step(
                    old(self)@.players.len() as int,
                    old(self)@.turn,
                    old(self)@.direction,
                ),
                ..old(self)@
            }),
            final(self).turn < final(self).players.len(),
            final(self).players == old(self).players,
    {
        if self.direction {
            if self.turn == self.players.len() - 1 {
                self.turn = 0;
            } else {
                self.turn += 1;
            }
        } else {
            if self.turn == 0 {
                self.turn = self.players.len() - 1;
            } else {
                self.turn -= 1;
            }
        }
    }
}

/// Shuffles `cards` in place by `rand::seq::SliceRandom::shuffle`, driven
/// by the generator that `rand::thread_rng` hands out. The shuffle only
/// swaps elements of the slice, so afterwards the list holds the cards it
/// held before, each as often as before. Nothing is said of their order.
#[verifier::external_body]
fn shuffle(cards: &mut Vec<(u8, Card)>)
    ensures
        final(cards)@.to_multiset() == old(cards)@.to_multiset(),
{
    cards.shuffle(&mut thread_rng());
}

/// Pairs every card of `cards` with its position as identity.
pub fn fresh_deck(cards: &Vec<Card>) -> (deck: Vec<(u8, Card)>)
    requires
        cards.len() <= u8::MAX + 1,
    ensures
        deck@ == numbered(cards@),
{
    let mut deck: Vec<(u8, Card)> = Vec::new();
    let mut i: usize = 0;
    while i < cards.len()
        invariant
            i <= cards.len() <= u8::MAX + 1,
            deck@.len() == i,
            forall|k: int| 0 <= k < i ==> deck@[k] == (k as u8, cards@[k]),
        decreases cards.len() - i,
    {
        deck.push((i as u8, cards[i]));
        i = i + 1;
    }
    assert(deck@ =~= numbered(cards@));
    deck
}

/// A deck made of `cards`, shuffled.
pub fn shuffled_deck(cards: &Vec<Card>) -> (deck: Vec<(u8, Card)>)
    requires
        cards.len() <= u8::MAX + 1,
    ensures
        deck@.to_multiset() == numbered(cards@).to_multiset(),
{
    let mut deck = fresh_deck(cards);
    shuffle(&mut deck);
    deck
}

/// Copies the cards of `cards` from position `from` up to `to`.
fn copy_range(cards: &Vec<(u8, Card)>, from: usize, to: usize) -> (copy: Vec<(u8, Card)>)
    requires
        from <= to <= cards.len(),
    ensures
        copy@ == cards@.subrange(from as int, to as int),
{
    let mut copy: Vec<(u8, Card)> = Vec::new();
    let mut i: usize = from;
    while i < to
        invariant
            from <= i <= to <= cards.len(),
            copy@ == cards@.subrange(from as int, i as int),
        decreases to - i,
    {
        copy.push(cards[i]);
        assert(cards@.subrange(from as int, i + 1) =~= cards@.subrange(from as int, i as int).push(
            cards@[i as int],
        ));
        i = i + 1;
    }
    copy
}

/// Copies the cards of `cards` from position `from` up to `to`, last card
/// first.
fn copy_reversed(cards: &Vec<(u8, Card)>, from: usize, to: usize) -> (copy: Vec<(u8, Card)>)
    requires
        from <= to <= cards.len(),
    ensures
        copy@ == cards@.subrange(from as int, to as int).reverse(),
{
    let mut copy: Vec<(u8, Card)> = Vec::new();
    let mut i: usize = to;
    while i > from
        invariant
            from <= i <= to <= cards.len(),
            copy@ == cards@.subrange(i as int, to as int).reverse(),
        decreases i,
    {
        i = i - 1;
        copy.push(cards[i]);
        assert(cards@.subrange(i as int, to as int).reverse() =~= cards@.subrange(
            i + 1,
            to as int,
        ).reverse().push(cards@[i as int]));
    }
    copy
}

/// Position in `deck` of the last number card at or behind position
/// `first`, if there is one.
fn last_number_from(deck: &Vec<(u8, Card)>, first: usize) -> (found: Option<usize>)
    requires
        first <= deck.len(),
    ensures
        match found {
            Some(position) => first <= position < deck.len() && last_number(
                deck@.skip(first as int),
            ) == position - first,
            None => last_number(deck@.skip(first as int)) == -1,
        },
{
    let ghost rest = deck@.skip(first as int);
    let mut end: usize = deck.len();
    assert(rest.take(end - first) =~= rest);
    while end > first && !deck[end - 1].1.is_normal()
        invariant
            first <= end <= deck.len(),
            rest == deck@.skip(first as int),
            last_number(rest) == last_number(rest.take(end - first)),
        decreases end,
    {
        assert(rest.take(end - first).drop_last() =~= rest.take(end - 1 - first));
        end = end - 1;
    }
    if end == first {
        None
    } else {
        assert(rest.take(end - first).last() == deck@[end - 1]);
        Some(end - 1)
    }
}

/// Appends the cards of `more` to `cards`.
pub(crate) fn append_cards(cards: &mut Vec<(u8, Card)>, more: &Vec<(u8, Card)>)
    ensures
        final(cards)@ == old(cards)@ + more@,
{
    let mut i: usize = 0;
    while i < more.len()
        invariant
            i <= more.len(),
            cards@ == old(cards)@ + more@.take(i as int),
        decreases more.len() - i,
    {
        cards.push(more[i]);
        assert(more@.take(i + 1) =~= more@.take(i as int).push(more@[i as int]));
        assert(cards@ =~= old(cards)@ + more@.take(i + 1));
        i = i + 1;
    }
    assert(more@.take(more.len() as int) =~= more@);
}

proof fn lemma_last_number(cards: Seq<(u8, Card)>)
    ensures
        -1 <= last_number(cards) < cards.len(),
        last_number(cards) >= 0 ==> cards[last_number(cards)].1 is Number,
    decreases cards.len(),
{
    if cards.len() > 0 && !(cards.last().1 is Number) {
        lemma_last_number(cards.drop_last());
    }
}

proof fn lemma_dealt_hands(players: Seq<UserView>, deck: Seq<(u8, Card)>)
    requires
        HAND_SIZE * players.len() <= deck.len(),
    ensures
        hands(dealt_players(players, deck)) == deck.take(HAND_SIZE * players.len()).to_multiset(),
    decreases players.len(),
{
    let dealt = dealt_players(players, deck);
    if players.len() == 0 {
        assert(deck.take(0) =~= Seq::<(u8, Card)>::empty());
        assert(hands(dealt) =~= deck.take(0).to_multiset()) by {
            broadcast use vstd::seq_lib::group_to_multiset_ensures;
            broadcast use vstd::multiset::group_multiset_axioms;

            assert(deck.take(0).to_multiset().len() == 0);
        }
    } else {
        let fewer = players.drop_last();
        lemma_dealt_hands(fewer, deck);
        assert(dealt.drop_last() =~= dealt_players(fewer, deck));
        let front = deck.take(HAND_SIZE * fewer.len());
        let hand = dealt_hand(deck, fewer.len() as int);
        assert(dealt.last().hand == hand);
        assert(deck.take(HAND_SIZE * players.len()) =~= front + hand);
        lemma_multiset_commutative(front, hand);
    }
}

/// A deal shares out the deck: afterwards the hands, the deck and the
/// board together hold exactly the cards that were dealt from.
pub proof fn lemma_deal_conserves(room: RoomView, deck: Seq<(u8, Card)>)
    requires
        room.can_deal(deck),
    ensures
        room.dealt(deck).cards() == deck.to_multiset(),
{
    let rest = room.remainder(deck);
    let opening = last_number(rest);
    lemma_last_number(rest);
    let front = deck.take(HAND_SIZE * room.players.len());
    let low = rest.take(opening);
    let high = rest.skip(opening);
    let after = room.dealt(deck);
    assert(hands(after.players) == front.to_multiset()) by {
        lemma_dealt_hands(room.players, deck);
    }
    assert(low.to_multiset().add(high.reverse().to_multiset()) == rest.to_multiset()) by {
        assert(rest =~= low + high);
        lemma_multiset_commutative(low, high);
        high.lemma_reverse_to_multiset();
    }
    assert(front.to_multiset().add(rest.to_multiset()) == deck.to_multiset()) by {
        assert(deck =~= front + rest);
        lemma_multiset_commutative(front, rest);
    }
    assert(after.deck == low);
    assert(after.board == high.reverse());
    lemma_add_associative(front.to_multiset(), low.to_multiset(), high.reverse().to_multiset());
}

proof fn lemma_add_associative(
    a: Multiset<(u8, Card)>,
    b: Multiset<(u8, Card)>,
    c: Multiset<(u8, Card)>,
)
    ensures
        a.add(b).add(c) == a.add(b.add(c)),
{
    broadcast use vstd::multiset::group_multiset_axioms;

    assert(a.add(b).add(c) =~= a.add(b.add(c)));
}

/// Taking the front card of the deck removes that card from the room and
/// no other.
pub proof fn lemma_draw_conserves(room: RoomView)
    requires
        room.deck.len() > 0,
    ensures
        room.drawn().cards().insert(room.deck[0]) == room.cards(),
{
    let first = seq![room.deck[0]];
    assert(room.deck =~= first + room.deck.drop_first());
    lemma_multiset_commutative(first, room.deck.drop_first());
    assert(first.to_multiset() =~= Multiset::<(u8, Card)>::empty().insert(room.deck[0])) by {
        broadcast use vstd::seq_lib::group_to_multiset_ensures;

        assert(first =~= Seq::<(u8, Card)>::empty().push(room.deck[0]));
    }
    assert(room.drawn().cards().insert(room.deck[0]) =~= room.cards());
}

/// A recycle moves cards from the board to the deck and neither adds nor
/// loses one.
pub proof fn lemma_restock_conserves(room: RoomView, pile: Seq<(u8, Card)>)
    requires
        pile.to_multiset() == room.spent().to_multiset(),
    ensures
        room.restocked(pile).cards() == room.cards(),
{
    let covered = room.covered();
    let top = room.board.skip(covered.len() as int);
    assert(room.board =~= covered + top);
    lemma_multiset_commutative(covered, top);
    lemma_multiset_commutative(covered, room.deck);
    assert(room.restocked(pile).cards() =~= room.cards());
}

/// Changing one seat's occupant changes the cards in all hands by the
/// difference of the two hands.
pub proof fn lemma_hands_update(players: Seq<UserView>, seat: int, user: UserView)
    requires
        0 <= seat < players.len(),
    ensures
        hands(players.update(seat, user)).add(players[seat].hand.to_multiset()) == hands(
            players,
        ).add(user.hand.to_multiset()),
    decreases players.len(),
{
    broadcast use vstd::multiset::group_multiset_axioms;

    let changed = players.update(seat, user);
    let fewer = players.drop_last();
    assert(hands(players) == hands(fewer).add(players.last().hand.to_multiset()));
    assert(hands(changed) == hands(changed.drop_last()).add(changed.last().hand.to_multiset()));
    if seat == players.len() - 1 {
        assert(changed.drop_last() =~= fewer);
        assert(changed.last() == user);
    } else {
        lemma_hands_update(fewer, seat, user);
        assert(changed.drop_last() =~= fewer.update(seat, user));
        assert(changed.last() == players.last());
        assert(fewer[seat] == players[seat]);
    }
    let gone = players[seat].hand.to_multiset();
    let come = user.hand.to_multiset();
    assert forall|card: (u8, Card)|
        hands(changed).add(gone).count(card) == hands(players).add(come).count(card) by {
        if seat < players.len() - 1 {
            assert(hands(fewer.update(seat, user)).add(gone).count(card) == hands(fewer).add(
                come,
            ).count(card));
        }
    }
    assert(hands(changed).add(gone) =~= hands(players).add(come));
}

/// A room is reached from itself by drawing nothing.
pub proof fn lemma_drew_nothing(room: RoomView)
    ensures
        room.drew(room, Seq::empty()),
{
    assert(room.board =~= room.board.skip(0));
    assert(Seq::<(u8, Card)>::empty() + room.spent() =~= room.spent());
}

/// Drawing one more card extends the list of drawn cards.
pub proof fn lemma_drew_more(
    first: RoomView,
    second: RoomView,
    third: RoomView,
    drawn: Seq<(u8, Card)>,
    card: (u8, Card),
)
    requires
        first.drew(second, drawn),
        second.drew(third, seq![card]),
    ensures
        first.drew(third, drawn.push(card)),
{
    broadcast use vstd::multiset::group_multiset_axioms;

    assert(third.board =~= first.board.skip(first.board.len() - third.board.len()));
    let one = seq![card];
    lemma_multiset_commutative(drawn, second.spent());
    lemma_multiset_commutative(one, third.spent());
    lemma_multiset_commutative(drawn, one + third.spent());
    assert(drawn.push(card) + third.spent() =~= drawn + (one + third.spent()));
    assert((drawn.push(card) + third.spent()).to_multiset() =~= first.spent().to_multiset());
}

/// Drawing takes the drawn cards out of the room and no others.
pub proof fn lemma_drew_conserves(room: RoomView, after: RoomView, drawn: Seq<(u8, Card)>)
    requires
        room.drew(after, drawn),
    ensures
        after.cards().add(drawn.to_multiset()) == room.cards(),
        drawn.len() + after.spent().len() == room.spent().len(),
{
    broadcast use vstd::multiset::group_multiset_axioms;

    let top = room.board.skip(room.covered().len() as int);
    assert(room.board =~= room.covered() + top);
    assert(after.board =~= after.covered() + top);
    let drawn_cards = drawn.to_multiset();
    let held = hands(room.players);
    assert(hands(after.players) == held);
    assert(room.board.to_multiset() == room.covered().to_multiset().add(top.to_multiset())) by {
        lemma_multiset_commutative(room.covered(), top);
    }
    assert(after.board.to_multiset() == after.covered().to_multiset().add(top.to_multiset()))
        by {
        lemma_multiset_commutative(after.covered(), top);
    }
    assert(room.spent().to_multiset() == room.covered().to_multiset().add(
        room.deck.to_multiset(),
    )) by {
        lemma_multiset_commutative(room.covered(), room.deck);
    }
    assert(after.spent().to_multiset() == after.covered().to_multiset().add(
        after.deck.to_multiset(),
    )) by {
        lemma_multiset_commutative(after.covered(), after.deck);
    }
    assert(room.spent().to_multiset() == drawn_cards.add(after.spent().to_multiset())) by {
        lemma_multiset_commutative(drawn, after.spent());
    }
    assert forall|card: (u8, Card)|
        after.cards().add(drawn_cards).count(card) == room.cards().count(card) by {
        assert(room.spent().to_multiset().count(card) == drawn_cards.add(
            after.spent().to_multiset(),
        ).count(card));
    }
    assert(after.cards().add(drawn_cards) =~= room.cards());
    (drawn + after.spent()).to_multiset_ensures();
    room.spent().to_multiset_ensures();
}

impl Room {
    /// Deals from `deck`, which is taken as it comes: seven cards from the
    /// front to each seat in seating order, whereupon cards move from the
    /// back of the deck onto the board until a number card is exposed.
    /// An active room is left as it is.
    pub fn deal(&mut self, deck: Vec<(u8, Card)>) -> (r: Result<(), GameError>)
        requires
            old(self)@.wf(),
        ensures
            match old(self)@.deal_result(deck@) {
                Ok(room) => r is Ok && final(self)@ == room,
                Err(error) => r == Err::<(), GameError>(error) && final(self)@ == old(self)@,
            },
            final(self)@.wf(),
            !old(self)@.active && r is Ok ==> final(self)@.cards() == deck@.to_multiset(),
    {
        let ghost before = self@;
        if self.active {
            return Ok(());
        }
        let seats: usize = self.players.len();
        if seats < 2 {
            return Err(GameError::NotEnoughPlayers);
        }
        if seats > deck.len() / HAND_SIZE {
            return Err(GameError::ResourceExhaustion);
        }
        let first: usize = HAND_SIZE * seats;
        let opening = match last_number_from(&deck, first) {
            Some(opening) => opening,
            None => {
                return Err(GameError::ResourceExhaustion);
            },
        };
        self.deal_hands(&deck);
        self.deck = copy_range(&deck, first, opening);
        self.board = copy_reversed(&deck, opening, deck.len());
        self.active = true;
        self.update_player();
        proof {
            let rest = before.remainder(deck@);
            assert(self@.deck =~= rest.take(opening - first));
            assert(deck@.subrange(opening as int, deck.len() as int) =~= rest.skip(
                opening - first,
            ));
            assert(self@ =~= before.dealt(deck@));
            lemma_deal_conserves(before, deck@);
        }
        Ok(())
    }

    /// Gives every seat its hand from `deck`.
    fn deal_hands(&mut self, deck: &Vec<(u8, Card)>)
        requires
            HAND_SIZE * old(self).players.len() <= deck.len(),
        ensures
            final(self)@ == (RoomView {
                players: dealt_players(old(self)@.players, deck@),
                ..old(self)@
            }),
            final(self).players.len() == old(self).players.len(),
            final(self).turn == old(self).turn,
    {
        let ghost before = self@;
        let seats: usize = self.players.len();
        let mut seat: usize = 0;
        while seat < seats
            invariant
                seat <= seats,
                seats == self.players.len(),
                seats == before.players.len(),
                HAND_SIZE * seats <= deck.len(),
                self.turn == old(self).turn,
                self@ == (RoomView { players: self@.players, ..before }),
                forall|k: int|
                    0 <= k < seat ==> #[trigger] self@.players[k] == before.players[k].with_hand(
                        dealt_hand(deck@, k),
                    ),
                forall|k: int| seat <= k < seats ==> #[trigger] self@.players[k] == before.players[k],
            decreases seats - seat,
        {
            let hand = copy_range(deck, HAND_SIZE * seat, HAND_SIZE * seat + HAND_SIZE);
            let ghost seen = self@.players;
            self.players[seat].hand = hand;
            proof {
                assert forall|k: int| 0 <= k < seats implies #[trigger] self@.players[k] == (if k
                    == seat {
                    seen[k].with_hand(dealt_hand(deck@, k))
                } else {
                    seen[k]
                }) by {
                    assert(self@.players[k] == self.players@[k]@);
                }
            }
            seat = seat + 1;
        }
        assert(self@.players =~= dealt_players(before.players, deck@));
    }

    /// Starts the game if it has not started: shuffles a deck made of
    /// `cards` and deals from it.
    pub fn start(&mut self, cards: &Vec<Card>) -> (r: Result<(), GameError>)
        requires
            old(self)@.wf(),
            cards.len() <= u8::MAX + 1,
        ensures
            exists|deck: Seq<(u8, Card)>|
                {
                    &&& #[trigger] deck.to_multiset() == numbered(cards@).to_multiset()
                    &&& match old(self)@.deal_result(deck) {
                        Ok(room) => r is Ok && final(self)@ == room,
                        Err(error) => r == Err::<(), GameError>(error) && final(self)@ == old(
                            self,
                        )@,
                    }
                },
            final(self)@.wf(),
            !old(self)@.active && r is Ok ==> final(self)@.cards() == numbered(
                cards@,
            ).to_multiset(),
    {
        if self.active {
            assert(numbered(cards@).to_multiset() == numbered(cards@).to_multiset());
            return Ok(());
        }
        let deck = shuffled_deck(cards);
        self.deal(deck)
    }

    /// Puts `pile` in place of the deck and clears the board but for its
    /// top card.
    pub fn restock(&mut self, pile: Vec<(u8, Card)>)
        ensures
            final(self)@ == old(self)@.restocked(pile@),
            old(self)@.wf() ==> final(self)@.wf(),
    {
        let mut board: Vec<(u8, Card)> = Vec::new();
        if self.board.len() > 0 {
            board.push(self.top());
        }
        assert(board@ =~= self@.board.skip(self@.covered().len() as int));
        self.board = board;
        self.deck = pile;
    }

    /// The cards that a recycle gathers: the board below its top card,
    /// followed by the deck.
    pub fn spent_cards(&self) -> (pile: Vec<(u8, Card)>)
        ensures
            pile@ == self@.spent(),
    {
        let mut pile: Vec<(u8, Card)> = if self.board.len() > 0 {
            copy_range(&self.board, 0, self.board.len() - 1)
        } else {
            Vec::new()
        };
        assert(pile@ =~= self@.covered());
        append_cards(&mut pile, &self.deck);
        pile
    }

    /// Number of cards that can still be drawn: the deck and the board
    /// below its top card.
    pub fn stock(&self) -> (count: usize)
        ensures
            count == self@.spent().len(),
    {
        let pile = self.spent_cards();
        pile.len()
    }

    /// Recycles with `pile` as the reshuffled deck and takes its front
    /// card. With an empty pile there is nothing to take.
    pub fn draw_restocked(&mut self, pile: Vec<(u8, Card)>) -> (card: Option<(u8, Card)>)
        ensures
            pile@.len() == 0 ==> card is None && final(self)@ == old(self)@.restocked(pile@),
            pile@.len() > 0 ==> card == Some(pile@[0]) && final(self)@ == old(self)@.restocked(
                pile@,
            ).drawn(),
            old(self)@.wf() ==> final(self)@.wf(),
    {
        self.restock(pile);
        if self.deck.len() == 0 {
            None
        } else {
            Some(self.take_front())
        }
    }

    /// Draws the front card of the deck. When that would leave fewer than
    /// two cards in the deck, the board below its top card and the deck are
    /// first shuffled together into a new deck. `None` means that no card
    /// is left to draw, and the room is unchanged.
    pub fn draw(&mut self) -> (card: Option<(u8, Card)>)
        ensures
            card is None <==> old(self)@.spent().len() == 0,
            card is None ==> final(self)@ == old(self)@,
            card matches Some(drawn) ==> if old(self)@.must_recycle() {
                exists|pile: Seq<(u8, Card)>|
                    {
                        &&& #[trigger] pile.to_multiset() == old(self)@.spent().to_multiset()
                        &&& pile.len() == old(self)@.spent().len()
                        &&& drawn == pile[0]
                        &&& final(self)@ == old(self)@.restocked(pile).drawn()
                    }
            } else {
                drawn == old(self)@.deck[0] && final(self)@ == old(self)@.drawn()
            },
            card matches Some(drawn) ==> final(self)@.cards().insert(drawn) == old(self)@.cards(),
            card matches Some(drawn) ==> old(self)@.drew(final(self)@, seq![drawn]),
            old(self)@.wf() ==> final(self)@.wf(),
    {
        if self.deck.len() < 3 {
            let mut pile = self.spent_cards();
            if pile.len() == 0 {
                return None;
            }
            let ghost gathered = pile@;
            shuffle(&mut pile);
            proof {
                gathered.to_multiset_ensures();
                pile@.to_multiset_ensures();
                lemma_restock_conserves(self@, pile@);
                lemma_draw_conserves(self@.restocked(pile@));
                let after = self@.restocked(pile@).drawn();
                assert(after.spent() =~= pile@.drop_first());
                assert(seq![pile@[0]] + after.spent() =~= pile@);
            }
            self.draw_restocked(pile)
        } else {
            proof {
                lemma_draw_conserves(self@);
                let after = self@.drawn();
                let one = seq![self@.deck[0]];
                assert(self@.board =~= self@.board.skip(0));
                assert(self@.deck =~= one + self@.deck.drop_first());
                lemma_multiset_commutative(one, after.spent());
                lemma_multiset_commutative(self@.covered(), after.deck);
                lemma_multiset_commutative(self@.covered(), self@.deck);
                lemma_multiset_commutative(one, after.deck);
                assert((one + after.spent()).to_multiset() =~= self@.spent().to_multiset()) by {
                    broadcast use vstd::multiset::group_multiset_axioms;

                }
            }
            Some(self.take_front())
        }
    }

    /// Takes the front card of the deck.
    fn take_front(&mut self) -> (card: (u8, Card))
        requires
            old(self).deck.len() > 0,
        ensures
            card == old(self)@.deck[0],
            final(self)@ == old(self)@.drawn(),
    {
        let card = self.deck.remove(0);
        assert(self.deck@ =~= old(self).deck@.drop_first());
        card
    }
}

impl Clone for Room {
    fn clone(&self) -> (copy: Room)
        ensures
            copy@ == self@,
    {
        self.duplicate()
    }
}

} // verus!
