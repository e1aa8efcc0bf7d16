//! The player-facing actions: playing a card, drawing, passing and
//! accepting a penalty, first on one room and, at the end of the file, as
//! requests to the registry that name a room.

use crate::card::{catalog_card, Card, CardColor, GameState, CATALOG_SIZE};
use crate::error::GameError;
use crate::room::{
    append_cards, full_deck, hands, lemma_drew_conserves, lemma_drew_more, lemma_drew_nothing,
    lemma_hands_update, next_seat, seat_of, seated, shuffled_deck, Room, RoomView,
};
use crate::uno::{Uno, UnoView};
use crate::user::User;
use vstd::prelude::*;

verus! {

/// A request to play a card.
#[derive(Clone, Copy, Debug)]
pub struct TurnReq {
    /// Identity of the card to play.
    pub card_id: u8,
    /// The color chosen for a wild card.
    pub color: Option<CardColor>,
}

/// The answer to a request that names a room.
#[derive(Clone, Copy, Debug)]
pub struct TurnRes {
    pub room_id: u32,
}

/// What a player is shown of a game: the room and the player's own seat.
#[derive(Debug)]
pub struct Game {
    pub room: Room,
    pub player: User,
}

/// The test that keeps every card of a hand but the one with identity
/// `id`.
pub open spec fn keeps(id: u8) -> spec_fn((u8, Card)) -> bool {
    |held: (u8, Card)| held.0 != id
}

impl RoomView {
    /// The room after the effects of a played `card` were applied. A wild
    /// card sets the active color to `color`; a card that can chain leaves
    /// its pending effect and lengthens the chain, any other card clears
    /// both; a reverse flips the direction.
    pub open spec fn affected(self, card: Card, color: Option<CardColor>) -> RoomView {
        RoomView {
            color: if card.color() is None {
                color->0
            } else {
                self.color
            },
            state: card.pending(),
            chain_count: if card.chainable() {
                (self.chain_count + 1) as u8
            } else {
                0
            },
            direction: if card is Reverse {
                !self.direction
            } else {
                self.direction
            },
            ..self
        }
    }

    /// The room after the player `player_id` laid `card` on the board: the
    /// card leaves the player's hand, the drawn flag is cleared and the
    /// turn passes on.
    pub open spec fn played(self, player_id: u32, card: (u8, Card)) -> RoomView {
        let seat = seat_of(self.players, player_id);
        let player = self.players[seat];
        RoomView {
            players: self.players.update(
                seat,
                player.with_hand(player.hand.filter(keeps(card.0))).with_drawed(false),
            ),
            board: self.board.push(card),
            ..self
        }.advanced()
    }

    /// The room after the player `player_id` took the `drawn` cards as a
    /// penalty: they join the player's hand, the chain is cleared and the
    /// turn passes on.
    pub open spec fn penalized(self, player_id: u32, drawn: Seq<(u8, Card)>) -> RoomView {
        let seat = seat_of(self.players, player_id);
        let player = self.players[seat];
        RoomView {
            players: self.players.update(seat, player.with_hand(player.hand + drawn)),
            state: None,
            chain_count: 0,
            ..self
        }.advanced()
    }

    /// The room after the player `player_id` took `card` into the hand and
    /// was marked as having drawn.
    pub open spec fn took(self, player_id: u32, card: (u8, Card)) -> RoomView {
        let seat = seat_of(self.players, player_id);
        let player = self.players[seat];
        RoomView {
            players: self.players.update(
                seat,
                player.with_hand(player.hand.push(card)).with_drawed(true),
            ),
            ..self
        }.refreshed()
    }

    /// The room after the player `player_id` passed: the drawn flag is
    /// cleared and the turn passes on.
    pub open spec fn passed(self, player_id: u32) -> RoomView {
        let seat = seat_of(self.players, player_id);
        RoomView {
            players: self.players.update(seat, self.players[seat].with_drawed(false)),
            ..self
        }.advanced()
    }

    /// What playing the card named in `form` comes to for the player
    /// `player_id`, with `catalog` telling which card an identity names.
    /// The move is refused unless it is the player's turn, the cards are
    /// dealt, the card exists, it may follow the exposed card, and a wild
    /// card comes with a color.
    pub open spec fn play_result(self, catalog: Seq<Card>, player_id: u32, form: TurnReq) -> Result<
        RoomView,
        GameError,
    > {
        if self.current_player.id != player_id {
            Err(GameError::NotYourTurn)
        } else if !seated(self.players, player_id) {
            Err(GameError::PlayerNotFound)
        } else if !self.active {
            Err(GameError::NotActive)
        } else if form.card_id >= catalog.len() {
            Err(GameError::UnknownCard)
        } else {
            let card = catalog[form.card_id as int];
            match self.board.last().1.verdict(self.state, self.color, card) {
                Some(reason) => Err(GameError::Rule(reason)),
                None => if card.color() is None && form.color is None {
                    Err(GameError::MissingColor)
                } else {
                    Ok(self.affected(card, form.color).played(player_id, (form.card_id, card)))
                },
            }
        }
    }

    /// Why the player `player_id` may not draw a card, if so.
    pub open spec fn draw_refusal(self, player_id: u32) -> Option<GameError> {
        if self.current_player.id != player_id {
            Some(GameError::NotYourTurn)
        } else if !seated(self.players, player_id) {
            Some(GameError::PlayerNotFound)
        } else if self.spent().len() == 0 {
            Some(GameError::ResourceExhaustion)
        } else {
            None
        }
    }

    /// What passing comes to for the player `player_id`: it is refused
    /// unless it is the player's turn and the player has drawn.
    pub open spec fn pass_result(self, player_id: u32) -> Result<RoomView, GameError> {
        if self.current_player.id != player_id {
            Err(GameError::NotYourTurn)
        } else if !seated(self.players, player_id) {
            Err(GameError::PlayerNotFound)
        } else if !self.players[seat_of(self.players, player_id)].drawed {
            Err(GameError::MustDraw)
        } else {
            Ok(self.passed(player_id))
        }
    }

    /// Number of cards that the pending penalty costs: two for each card
    /// of a draw-two chain, four for each card of a draw-four chain, none
    /// for a stop.
    pub open spec fn penalty_size(self) -> int {
        match self.state {
            Some(GameState::Plus2) => 2 * self.chain_count,
            Some(GameState::Plus4) => 4 * self.chain_count,
            _ => 0,
        }
    }

    /// Why the player `player_id` may not accept the pending penalty, if
    /// so.
    pub open spec fn penalty_refusal(self, player_id: u32) -> Option<GameError> {
        if self.state is None {
            Some(GameError::NoPenalty)
        } else if !seated(self.players, player_id) {
            Some(GameError::PlayerNotFound)
        } else if self.penalty_size() > self.spent().len() {
            Some(GameError::ResourceExhaustion)
        } else {
            None
        }
    }
}

/// The cards of `hand` without the card of identity `id`.
fn without(hand: &Vec<(u8, Card)>, id: u8) -> (rest: Vec<(u8, Card)>)
    ensures
        rest@ == hand@.filter(keeps(id)),
{
    let mut rest: Vec<(u8, Card)> = Vec::new();
    let mut i: usize = 0;
    assert(hand@.take(0).filter(keeps(id)) =~= Seq::<(u8, Card)>::empty()) by {
        reveal(Seq::filter);
    }
    while i < hand.len()
        invariant
            i <= hand.len(),
            rest@ == hand@.take(i as int).filter(keeps(id)),
        decreases hand.len() - i,
    {
        proof {
            assert(hand@.take(i + 1) =~= hand@.take(i as int).push(hand@[i as int]));
            hand@.take(i as int).lemma_filter_push(hand@[i as int], keeps(id));
        }
        if hand[i].0 != id {
            rest.push(hand[i]);
        }
        i = i + 1;
    }
    assert(hand@.take(hand.len() as int) =~= hand@);
    rest
}

/// Applies the effects of the played card `card_tuple` to `room`; the
/// request holds the color chosen for a wild card.
pub fn effects(room: &mut Room, card_tuple: (u8, Card), form: TurnReq)
    requires
        card_tuple.1.color() is None ==> form.color is Some,
        card_tuple.1.chainable() ==> old(room).chain_count < u8::MAX,
    ensures
        final(room)@ == old(room)@.affected(card_tuple.1, form.color),
{
    if card_tuple.1.is_color_card() {
        room.color = form.color.unwrap();
    }
    if card_tuple.1.can_chain() {
        room.state = card_tuple.1.to_game_state();
        room.chain_count += 1;
    } else {
        room.state = None;
        room.chain_count = 0;
    }
    if card_tuple.1.is_reverse() {
        room.direction = !room.direction;
    }
}

/// Lays `card_tuple` on the board for the player `player_id`: the card
/// leaves the hand of the player's seat, the drawn flag is cleared and the
/// turn passes on.
pub fn do_turn(room: &mut Room, player_id: u32, card_tuple: (u8, Card))
    requires
        old(room)@.wf(),
        seated(old(room)@.players, player_id),
    ensures
        final(room)@ == old(room)@.played(player_id, card_tuple),
        final(room)@.wf(),
{
    let seat = room.seat(player_id).unwrap();
    let ghost before = room@;
    let rest = without(&room.players[seat].hand, card_tuple.0);
    room.players[seat].hand = rest;
    room.players[seat].drawed = false;
    room.board.push(card_tuple);
    assert(room@ =~= (RoomView {
        players: before.players.update(
            seat as int,
            before.players[seat as int].with_hand(
                before.players[seat as int].hand.filter(keeps(card_tuple.0)),
            ).with_drawed(false),
        ),
        board: before.board.push(card_tuple),
        ..before
    }));
    room.update_player();
    room.next();
}

/// Draws `amount` cards into the hand of the player `player_id`, clears
/// the chain and passes the turn on.
pub fn do_penalty(room: &mut Room, player_id: u32, amount: usize)
    requires
        old(room)@.wf(),
        seated(old(room)@.players, player_id),
        amount <= old(room)@.spent().len(),
    ensures
        exists|after: RoomView, drawn: Seq<(u8, Card)>|
            {
                &&& #[trigger] old(room)@.drew(after, drawn)
                &&& drawn.len() == amount
                &&& final(room)@ == after.penalized(player_id, drawn)
            },
        amount == 0 ==> final(room)@ == old(room)@.penalized(player_id, Seq::empty()),
        final(room)@.wf(),
        final(room)@.cards() == old(room)@.cards(),
{
    let ghost before = room@;
    let mut cards: Vec<(u8, Card)> = Vec::new();
    let mut i: usize = 0;
    proof {
        lemma_drew_nothing(before);
    }
    while i < amount
        invariant
            i <= amount <= before.spent().len(),
            cards@.len() == i,
            room@.wf(),
            before.drew(room@, cards@),
            amount == 0 ==> room@ == before,
        decreases amount - i,
    {
        let ghost earlier = room@;
        proof {
            lemma_drew_conserves(before, earlier, cards@);
        }
        let card = room.draw();
        if let Some(drawn) = card {
            proof {
                lemma_drew_more(before, earlier, room@, cards@, drawn);
            }
            cards.push(drawn);
        }
        i = i + 1;
    }
    let ghost after = room@;
    let seat = room.seat(player_id).unwrap();
    append_cards(&mut room.players[seat].hand, &cards);
    room.state = None;
    room.chain_count = 0;
    assert(room@ =~= (RoomView {
        players: after.players.update(
            seat as int,
            after.players[seat as int].with_hand(after.players[seat as int].hand + cards@),
        ),
        state: None,
        chain_count: 0,
        ..after
    }));
    room.update_player();
    room.next();
    proof {
        lemma_drew_conserves(before, after, cards@);
        lemma_penalty_conserves(after, player_id, cards@);
        if amount == 0 {
            assert(cards@ =~= Seq::<(u8, Card)>::empty());
        }
    }
}

/// An entry of the full deck is the only one with its identity and occurs
/// there once.
pub proof fn lemma_full_deck_entry(card: (u8, Card))
    requires
        full_deck().to_multiset().count(card) > 0,
    ensures
        card.0 < full_deck().len(),
        card == full_deck()[card.0 as int],
        full_deck().to_multiset().count(card) == 1,
{
    let deck = full_deck();
    deck.to_multiset_ensures();
    assert(deck.contains(card));
    let position = choose|i: int| 0 <= i < deck.len() && deck[i] == card;
    assert(deck[position] == card);
    assert(deck.no_duplicates()) by {
        assert forall|i: int, j: int| 0 <= i < deck.len() && 0 <= j < deck.len() && i != j implies deck[i]
            != deck[j] by {
            assert(deck[i].0 == i);
            assert(deck[j].0 == j);
        }
    }
    deck.lemma_multiset_has_no_duplicates();
}

proof fn lemma_filter_keeps_all(hand: Seq<(u8, Card)>, id: u8)
    requires
        forall|k: int| 0 <= k < hand.len() ==> (#[trigger] hand[k]).0 != id,
    ensures
        hand.filter(keeps(id)) == hand,
    decreases hand.len(),
{
    reveal(Seq::filter);
    if hand.len() > 0 {
        lemma_filter_keeps_all(hand.drop_last(), id);
        assert(hand.drop_last().push(hand.last()) =~= hand);
    }
}

proof fn lemma_filter_takes_one(hand: Seq<(u8, Card)>, card: (u8, Card))
    requires
        hand.to_multiset().count(card) == 1,
        forall|k: int| 0 <= k < hand.len() && (#[trigger] hand[k]).0 == card.0 ==> hand[k] == card,
    ensures
        hand.filter(keeps(card.0)).to_multiset().insert(card) == hand.to_multiset(),
    decreases hand.len(),
{
    broadcast use vstd::multiset::group_multiset_axioms;

    hand.to_multiset_ensures();
    let rest = hand.drop_last();
    let last = hand.last();
    assert(rest.push(last) =~= hand);
    rest.to_multiset_ensures();
    rest.lemma_filter_push(last, keeps(card.0));
    let kept = rest.filter(keeps(card.0));
    kept.to_multiset_ensures();
    assert(hand.to_multiset() == rest.to_multiset().insert(last));
    if last.0 == card.0 {
        assert(hand[hand.len() - 1] == card);
        assert(rest.to_multiset().count(card) == 0);
        assert forall|k: int| 0 <= k < rest.len() implies (#[trigger] rest[k]).0 != card.0 by {
            if rest[k].0 == card.0 {
                assert(hand[k] == card);
                assert(rest.contains(card));
            }
        }
        lemma_filter_keeps_all(rest, card.0);
    } else {
        assert(rest.to_multiset().count(card) == 1);
        assert forall|k: int| 0 <= k < rest.len() && (#[trigger] rest[k]).0 == card.0 implies rest[k]
            == card by {
            assert(hand[k] == rest[k]);
        }
        lemma_filter_takes_one(rest, card);
        assert(kept.push(last).to_multiset().insert(card) =~= hand.to_multiset());
    }
}

/// Playing a card that the player holds moves it from the hand to the
/// board: where the room held every card of the full deck once, it still
/// does.
pub proof fn lemma_play_conserves(room: RoomView, player_id: u32, card: (u8, Card))
    requires
        seated(room.players, player_id),
        room.cards() == full_deck().to_multiset(),
        room.players[seat_of(room.players, player_id)].hand.contains(card),
    ensures
        room.played(player_id, card).cards() == room.cards(),
{
    broadcast use vstd::multiset::group_multiset_axioms;

    let seat = seat_of(room.players, player_id);
    let player = room.players[seat];
    let hand = player.hand;
    let kept = hand.filter(keeps(card.0));
    let left = player.with_hand(kept).with_drawed(false);
    hand.to_multiset_ensures();
    lemma_hands_update(room.players, seat, player.with_hand(Seq::empty()));
    assert(Seq::<(u8, Card)>::empty().to_multiset().len() == 0) by {
        Seq::<(u8, Card)>::empty().to_multiset_ensures();
    }
    assert forall|held: (u8, Card)| hand.to_multiset().count(held) <= room.cards().count(held) by {
        assert(hands(room.players.update(seat, player.with_hand(Seq::empty()))).add(
            hand.to_multiset(),
        ).count(held) == hands(room.players).add(
            Seq::<(u8, Card)>::empty().to_multiset(),
        ).count(held));
    }
    assert forall|k: int| 0 <= k < hand.len() && (#[trigger] hand[k]).0 == card.0 implies hand[k]
        == card by {
        assert(hand.contains(hand[k]));
        assert(hand.to_multiset().count(hand[k]) > 0);
        lemma_full_deck_entry(hand[k]);
        assert(hand.to_multiset().count(card) > 0);
        lemma_full_deck_entry(card);
    }
    assert(hand.to_multiset().count(card) == 1) by {
        lemma_full_deck_entry(card);
    }
    lemma_filter_takes_one(hand, card);
    lemma_hands_update(room.players, seat, left);
    room.board.to_multiset_ensures();
    let after = room.played(player_id, card);
    assert forall|other: (u8, Card)| after.cards().count(other) == room.cards().count(other) by {
        assert(hands(after.players).add(hand.to_multiset()).count(other) == hands(
            room.players,
        ).add(kept.to_multiset()).count(other));
        assert(kept.to_multiset().insert(card).count(other) == hand.to_multiset().count(other));
    }
    assert(after.cards() =~= room.cards());
}

/// The effects of a card move no card.
pub proof fn lemma_effects_conserve(room: RoomView, card: Card, color: Option<CardColor>)
    ensures
        room.affected(card, color).cards() == room.cards(),
        room.affected(card, color).players == room.players,
{
}

/// Under catalog closure a dealt room holds as many cards as the catalog
/// has, each identity of the catalog once with the card it names, and no
/// other card.
pub proof fn lemma_closure_counts(room: RoomView, id: int)
    requires
        room.active,
        room.closed(),
        0 <= id < CATALOG_SIZE,
    ensures
        room.cards().len() == CATALOG_SIZE,
        room.cards().count((id as u8, catalog_card(id))) == 1,
        forall|card: (u8, Card)|
            room.cards().count(card) > 0 ==> card.0 < CATALOG_SIZE && card.1 == catalog_card(
                card.0 as int,
            ),
{
    let deck = full_deck();
    deck.to_multiset_ensures();
    let entry = (id as u8, catalog_card(id));
    assert(deck[id] == entry);
    assert(deck.contains(entry));
    lemma_full_deck_entry(entry);
    assert forall|card: (u8, Card)| room.cards().count(card) > 0 implies card.0 < CATALOG_SIZE
        && card.1 == catalog_card(card.0 as int) by {
        lemma_full_deck_entry(card);
    }
}

/// A reverse flips the direction once, the turn that follows its play is
/// taken in the new direction, and so is the next one.
pub proof fn lemma_reverse_turns_around(
    room: RoomView,
    player_id: u32,
    card: (u8, Card),
    color: Option<CardColor>,
)
    requires
        card.1 is Reverse,
    ensures
        room.affected(card.1, color).direction == !room.direction,
        ({
            let after = room.affected(card.1, color).played(player_id, card);
            &&& after.direction == !room.direction
            &&& after.turn == next_seat(after.players, room.turn, !room.direction)
            &&& after.advanced().turn == next_seat(after.players, after.turn, !room.direction)
        }),
{
}

/// A penalty restores to the room the cards that were drawn for it.
pub proof fn lemma_penalty_conserves(room: RoomView, player_id: u32, drawn: Seq<(u8, Card)>)
    requires
        seated(room.players, player_id),
    ensures
        room.penalized(player_id, drawn).cards() == room.cards().add(drawn.to_multiset()),
{
    broadcast use vstd::multiset::group_multiset_axioms;

    let seat = seat_of(room.players, player_id);
    let player = room.players[seat];
    let grown = player.with_hand(player.hand + drawn);
    lemma_hands_update(room.players, seat, grown);
    vstd::seq_lib::lemma_multiset_commutative(player.hand, drawn);
    let after = room.penalized(player_id, drawn);
    assert forall|card: (u8, Card)|
        after.cards().count(card) == room.cards().add(drawn.to_multiset()).count(card) by {
        assert(hands(after.players).add(player.hand.to_multiset()).count(card) == hands(
            room.players,
        ).add(grown.hand.to_multiset()).count(card));
    }
    assert(after.cards() =~= room.cards().add(drawn.to_multiset()));
}

/// A card taken into a hand is back in the room.
pub proof fn lemma_take_conserves(room: RoomView, player_id: u32, card: (u8, Card))
    requires
        seated(room.players, player_id),
    ensures
        room.took(player_id, card).cards() == room.cards().insert(card),
{
    broadcast use vstd::multiset::group_multiset_axioms;

    let seat = seat_of(room.players, player_id);
    let player = room.players[seat];
    let grown = player.with_hand(player.hand.push(card)).with_drawed(true);
    lemma_hands_update(room.players, seat, grown);
    player.hand.to_multiset_ensures();
    let after = room.took(player_id, card);
    assert forall|other: (u8, Card)|
        after.cards().count(other) == room.cards().insert(card).count(other) by {
        assert(hands(after.players).add(player.hand.to_multiset()).count(other) == hands(
            room.players,
        ).add(grown.hand.to_multiset()).count(other));
    }
    assert(after.cards() =~= room.cards().insert(card));
}

/// Passing moves no card.
pub proof fn lemma_pass_conserves(room: RoomView, player_id: u32)
    requires
        seated(room.players, player_id),
    ensures
        room.passed(player_id).cards() == room.cards(),
{
    broadcast use vstd::multiset::group_multiset_axioms;

    let seat = seat_of(room.players, player_id);
    let player = room.players[seat];
    lemma_hands_update(room.players, seat, player.with_drawed(false));
    let after = room.passed(player_id);
    assert forall|card: (u8, Card)| after.cards().count(card) == room.cards().count(card) by {
        assert(hands(after.players).add(player.hand.to_multiset()).count(card) == hands(
            room.players,
        ).add(player.hand.to_multiset()).count(card));
    }
    assert(after.cards() =~= room.cards());
}

impl Room {
    /// Plays the card named in `form` for the player `player_id`. `cards`
    /// tells which card an identity names.
    pub fn play_card(&mut self, cards: &Vec<Card>, player_id: u32, form: TurnReq) -> (r: Result<
        (),
        GameError,
    >)
        requires
            old(self)@.wf(),
            old(self).chain_count < u8::MAX,
        ensures
            match old(self)@.play_result(cards@, player_id, form) {
                Ok(room) => r is Ok && final(self)@ == room,
                Err(error) => r == Err::<(), GameError>(error) && final(self)@ == old(self)@,
            },
            final(self)@.wf(),
            r is Ok && old(self)@.cards() == full_deck().to_multiset() && old(self)@.players[seat_of(
                old(self)@.players,
                player_id,
            )].hand.contains((form.card_id, cards@[form.card_id as int])) ==> final(self)@.cards()
                == old(self)@.cards(),
    {
        if self.current_player.id != player_id {
            return Err(GameError::NotYourTurn);
        }
        if self.seat(player_id).is_none() {
            return Err(GameError::PlayerNotFound);
        }
        if !self.active {
            return Err(GameError::NotActive);
        }
        if form.card_id as usize >= cards.len() {
            return Err(GameError::UnknownCard);
        }
        let card = cards[form.card_id as usize];
        let top = self.top();
        match top.1.legal(self.state, self.color, card) {
            Err(reason) => Err(GameError::Rule(reason)),
            Ok(_) => {
                if card.is_color_card() && form.color.is_none() {
                    return Err(GameError::MissingColor);
                }
                proof {
                    let affected = self@.affected(card, form.color);
                    lemma_effects_conserve(self@, card, form.color);
                    if self@.cards() == full_deck().to_multiset() && self@.players[seat_of(
                        self@.players,
                        player_id,
                    )].hand.contains((form.card_id, card)) {
                        lemma_play_conserves(affected, player_id, (form.card_id, card));
                    }
                }
                effects(self, (form.card_id, card), form);
                do_turn(self, player_id, (form.card_id, card));
                Ok(())
            },
        }
    }

    /// Draws a card into the hand of the player `player_id` and marks the
    /// player as having drawn. The turn stays where it is.
    pub fn take_card(&mut self, player_id: u32) -> (r: Result<(u8, Card), GameError>)
        requires
            old(self)@.wf(),
        ensures
            match old(self)@.draw_refusal(player_id) {
                Some(error) => r == Err::<(u8, Card), GameError>(error) && final(self)@ == old(
                    self,
                )@,
                None => r matches Ok(card) && exists|after: RoomView|
                    {
                        &&& #[trigger] old(self)@.drew(after, seq![card])
                        &&& final(self)@ == after.took(player_id, card)
                    },
            },
            r matches Ok(card) ==> (!old(self)@.must_recycle() ==> card == old(self)@.deck[0]
                && final(self)@ == old(self)@.drawn().took(player_id, card)),
            final(self)@.wf(),
            final(self)@.cards() == old(self)@.cards(),
    {
        if self.current_player.id != player_id {
            return Err(GameError::NotYourTurn);
        }
        let seat = match self.seat(player_id) {
            Some(seat) => seat,
            None => {
                return Err(GameError::PlayerNotFound);
            },
        };
        let ghost before = self@;
        match self.draw() {
            None => Err(GameError::ResourceExhaustion),
            Some(card) => {
                let ghost after = self@;
                self.players[seat].hand.push(card);
                self.players[seat].drawed = true;
                assert(self@ =~= (RoomView {
                    players: after.players.update(
                        seat as int,
                        after.players[seat as int].with_hand(
                            after.players[seat as int].hand.push(card),
                        ).with_drawed(true),
                    ),
                    ..after
                }));
                self.update_player();
                proof {
                    lemma_take_conserves(after, player_id, card);
                }
                Ok(card)
            },
        }
    }

    /// Ends the turn of the player `player_id`, who must have drawn.
    pub fn pass_turn(&mut self, player_id: u32) -> (r: Result<(), GameError>)
        requires
            old(self)@.wf(),
        ensures
            match old(self)@.pass_result(player_id) {
                Ok(room) => r is Ok && final(self)@ == room,
                Err(error) => r == Err::<(), GameError>(error) && final(self)@ == old(self)@,
            },
            final(self)@.wf(),
            final(self)@.cards() == old(self)@.cards(),
    {
        if self.current_player.id != player_id {
            return Err(GameError::NotYourTurn);
        }
        let seat = match self.seat(player_id) {
            Some(seat) => seat,
            None => {
                return Err(GameError::PlayerNotFound);
            },
        };
        if !self.players[seat].drawed {
            return Err(GameError::MustDraw);
        }
        let ghost before = self@;
        self.players[seat].drawed = false;
        assert(self@ =~= (RoomView {
            players: before.players.update(
                seat as int,
                before.players[seat as int].with_drawed(false),
            ),
            ..before
        }));
        self.update_player();
        self.next();
        proof {
            lemma_pass_conserves(before, player_id);
        }
        Ok(())
    }

    /// Resolves the pending effect at the cost of the player `player_id`:
    /// the player draws the penalty, the chain is cleared and the turn
    /// passes on.
    pub fn accept_penalty(&mut self, player_id: u32) -> (r: Result<(), GameError>)
        requires
            old(self)@.wf(),
        ensures
            match old(self)@.penalty_refusal(player_id) {
                Some(error) => r == Err::<(), GameError>(error) && final(self)@ == old(self)@,
                None => r is Ok && exists|after: RoomView, drawn: Seq<(u8, Card)>|
                    {
                        &&& #[trigger] old(self)@.drew(after, drawn)
                        &&& drawn.len() == old(self)@.penalty_size()
                        &&& final(self)@ == after.penalized(player_id, drawn)
                    },
            },
            r is Ok && old(self)@.penalty_size() == 0 ==> final(self)@ == old(self)@.penalized(
                player_id,
                Seq::empty(),
            ),
            final(self)@.wf(),
            final(self)@.cards() == old(self)@.cards(),
    {
        let amount: usize = match self.state {
            None => {
                return Err(GameError::NoPenalty);
            },
            Some(GameState::Stop) => 0,
            Some(GameState::Plus2) => 2 * (self.chain_count as usize),
            Some(GameState::Plus4) => 4 * (self.chain_count as usize),
        };
        if self.seat(player_id).is_none() {
            return Err(GameError::PlayerNotFound);
        }
        if amount > self.stock() {
            return Err(GameError::ResourceExhaustion);
        }
        do_penalty(self, player_id, amount);
        Ok(())
    }
}

impl UnoView {
    /// Why the room `room_id` is not shown to the player `player_id`, if
    /// so.
    pub open spec fn show_refusal(self, room_id: u32, player_id: u32) -> Option<GameError> {
        if !self.rooms.contains_key(room_id) {
            Some(GameError::RoomNotFound)
        } else if self.rooms[room_id].players.len() < 2 {
            Some(GameError::NotEnoughPlayers)
        } else if !seated(self.rooms[room_id].players, player_id) {
            Some(GameError::PlayerNotFound)
        } else {
            None
        }
    }

    /// What showing the room `room_id` to the player `player_id` comes to
    /// when a deal, if it is due, is made from `deck`.
    pub open spec fn show_result(self, room_id: u32, player_id: u32, deck: Seq<(u8, Card)>) -> Result<
        RoomView,
        GameError,
    > {
        match self.show_refusal(room_id, player_id) {
            Some(error) => Err(error),
            None => self.rooms[room_id].deal_result(deck),
        }
    }

    /// Whether the registry `after` and the reply `reply` are what a
    /// request to change the room `room_id` leaves behind, given what the
    /// change comes to for the room: on success the room is replaced and
    /// the reply names the room's subscribers, on failure nothing changes
    /// and the reply is the error.
    pub open spec fn settled(
        self,
        room_id: u32,
        outcome: Result<RoomView, GameError>,
        after: UnoView,
        reply: Result<Seq<u64>, GameError>,
    ) -> bool {
        match outcome {
            Ok(room) => after == self.with_room(room_id, room) && reply == Ok::<
                Seq<u64>,
                GameError,
            >(self.notified(room_id)),
            Err(error) => after == self && reply == Err::<Seq<u64>, GameError>(error),
        }
    }

    /// Whether `after` is the registry once the player `player_id` drew
    /// `card` in the room `room_id`.
    pub open spec fn drawn_in(
        self,
        room_id: u32,
        player_id: u32,
        card: (u8, Card),
        after: UnoView,
    ) -> bool {
        exists|room: RoomView|
            {
                &&& #[trigger] self.rooms[room_id].drew(room, seq![card])
                &&& after == self.with_room(room_id, room.took(player_id, card))
            }
    }

    /// Whether `after` is the registry once the player `player_id` took
    /// the pending penalty of the room `room_id`.
    pub open spec fn paid_in(self, room_id: u32, player_id: u32, after: UnoView) -> bool {
        exists|room: RoomView, drawn: Seq<(u8, Card)>|
            {
                &&& #[trigger] self.rooms[room_id].drew(room, drawn)
                &&& drawn.len() == self.rooms[room_id].penalty_size()
                &&& after == self.with_room(room_id, room.penalized(player_id, drawn))
            }
    }

    /// Catalog closure of the room `room_id`, if there is such a room.
    pub open spec fn closed_at(self, room_id: u32) -> bool {
        self.rooms.contains_key(room_id) ==> self.rooms[room_id].closed()
    }
}

/// The reply to a request, with the list of subscribers as a sequence.
pub open spec fn reply_of(r: Result<Vec<u64>, GameError>) -> Result<Seq<u64>, GameError> {
    match r {
        Ok(handles) => Ok(handles@),
        Err(error) => Err(error),
    }
}

/// Shows the room `room_id` to the player `player_id`, dealing first from
/// `deck` if the cards have not been dealt.
pub fn play_with(context: &mut Uno, room_id: u32, player_id: u32, deck: Vec<(u8, Card)>) -> (r:
    Result<Game, GameError>)
    requires
        old(context)@.wf(),
    ensures
        match old(context)@.show_result(room_id, player_id, deck@) {
            Ok(room) => {
                &&& r matches Ok(game)
                &&& game.room@ == room
                &&& game.player@ == room.players[seat_of(room.players, player_id)]
                &&& final(context)@ == old(context)@.with_room(room_id, room)
            },
            Err(error) => r matches Err(refusal) && refusal == error && final(context)@ == old(
                context,
            )@,
        },
        final(context)@.wf(),
        r is Ok && old(context)@.closed_at(room_id) && deck@.to_multiset()
            == full_deck().to_multiset() ==> final(context)@.closed_at(room_id),
{
    let mut room = match context.take_room(room_id) {
        Some(room) => room,
        None => {
            return Err(GameError::RoomNotFound);
        },
    };
    let ghost before = room@;
    assert(old(context)@.rooms.remove(room_id).insert(room_id, before) =~= old(context)@.rooms);
    if room.players.len() < 2 {
        context.put_room(room_id, room);
        return Err(GameError::NotEnoughPlayers);
    }
    if room.seat(player_id).is_none() {
        context.put_room(room_id, room);
        return Err(GameError::PlayerNotFound);
    }
    match room.deal(deck) {
        Err(error) => {
            context.put_room(room_id, room);
            Err(error)
        },
        Ok(_) => {
            let found = room.seat(player_id);
            proof {
                if !before.active {
                    let seat = seat_of(before.players, player_id);
                    assert(crate::room::is_seat_of(room@.players, player_id, seat));
                }
            }
            let seat = found.unwrap();
            let game = Game { room: room.duplicate(), player: room.players[seat].duplicate() };
            context.put_room(room_id, room);
            assert(final(context)@.rooms =~= old(context)@.rooms.insert(room_id, game.room@));
            Ok(game)
        },
    }
}

/// Shows the room `room_id` to the player `player_id`. The first request
/// for a room with two or more players deals the cards from a shuffled
/// deck.
pub fn play(context: &mut Uno, room_id: u32, player_id: u32) -> (r: Result<Game, GameError>)
    requires
        old(context)@.wf(),
    ensures
        exists|deck: Seq<(u8, Card)>|
            {
                &&& #[trigger] deck.to_multiset() == full_deck().to_multiset()
                &&& match old(context)@.show_result(room_id, player_id, deck) {
                    Ok(room) => {
                        &&& r matches Ok(game)
                        &&& game.room@ == room
                        &&& game.player@ == room.players[seat_of(room.players, player_id)]
                        &&& final(context)@ == old(context)@.with_room(room_id, room)
                    },
                    Err(error) => r matches Err(refusal) && refusal == error && final(context)@
                        == old(context)@,
                }
            },
        final(context)@.wf(),
        r is Ok && old(context)@.closed_at(room_id) ==> final(context)@.closed_at(room_id),
{
    let deck = shuffled_deck(&context.cards);
    play_with(context, room_id, player_id, deck)
}

/// Plays the card named in `form` for the player `player_id` in the room
/// `room_id`. On success the reply lists the subscribers to notify.
pub fn turn(context: &mut Uno, room_id: u32, player_id: u32, form: TurnReq) -> (r: Result<
    Vec<u64>,
    GameError,
>)
    requires
        old(context)@.wf(),
        old(context)@.rooms.contains_key(room_id) ==> old(context)@.rooms[room_id].chain_count
            < u8::MAX,
    ensures
        old(context)@.settled(
            room_id,
            if old(context)@.rooms.contains_key(room_id) {
                old(context)@.rooms[room_id].play_result(old(context)@.cards, player_id, form)
            } else {
                Err(GameError::RoomNotFound)
            },
            final(context)@,
            reply_of(r),
        ),
        final(context)@.wf(),
        r is Ok && old(context)@.closed_at(room_id) && old(context)@.rooms[room_id].players[seat_of(
            old(context)@.rooms[room_id].players,
            player_id,
        )].hand.contains((form.card_id, old(context)@.cards[form.card_id as int]))
            ==> final(context)@.closed_at(room_id),
{
    let mut room = match context.take_room(room_id) {
        Some(room) => room,
        None => {
            return Err(GameError::RoomNotFound);
        },
    };
    assert(old(context)@.rooms.remove(room_id).insert(room_id, room@) =~= old(context)@.rooms);
    let outcome = room.play_card(&context.cards, player_id, form);
    let ghost changed = room@;
    context.put_room(room_id, room);
    assert(context@.rooms =~= old(context)@.rooms.insert(room_id, changed));
    match outcome {
        Ok(_) => Ok(context.broadcast(room_id)),
        Err(error) => Err(error),
    }
}

/// Draws a card for the player `player_id` in the room `room_id`. On
/// success the reply holds the card and lists the subscribers to notify.
pub fn draw(context: &mut Uno, room_id: u32, player_id: u32) -> (r: Result<
    ((u8, Card), Vec<u64>),
    GameError,
>)
    requires
        old(context)@.wf(),
    ensures
        r is Ok <==> old(context)@.rooms.contains_key(room_id) && old(
            context,
        )@.rooms[room_id].draw_refusal(player_id) is None,
        r matches Ok(reply) ==> reply.1@ == old(context)@.notified(room_id),
        r matches Ok(reply) ==> old(context)@.drawn_in(
            room_id,
            player_id,
            reply.0,
            final(context)@,
        ),
        r matches Err(error) ==> final(context)@ == old(context)@,
        r matches Err(error) ==> error == if old(context)@.rooms.contains_key(room_id) {
            old(context)@.rooms[room_id].draw_refusal(player_id)->0
        } else {
            GameError::RoomNotFound
        },
        final(context)@.wf(),
        old(context)@.closed_at(room_id) ==> final(context)@.closed_at(room_id),
{
    let mut room = match context.take_room(room_id) {
        Some(room) => room,
        None => {
            return Err(GameError::RoomNotFound);
        },
    };
    assert(old(context)@.rooms.remove(room_id).insert(room_id, room@) =~= old(context)@.rooms);
    let ghost before = room@;
    let outcome = room.take_card(player_id);
    let ghost changed = room@;
    context.put_room(room_id, room);
    assert(context@.rooms =~= old(context)@.rooms.insert(room_id, changed));
    match outcome {
        Ok(card) => {
            proof {
                let after = choose|after: RoomView|
                    #[trigger] before.drew(after, seq![card]) && changed == after.took(
                        player_id,
                        card,
                    );
                assert(before == old(context)@.rooms[room_id]);
                assert(old(context)@.rooms[room_id].drew(after, seq![card]));
                assert(context@ =~= old(context)@.with_room(
                    room_id,
                    after.took(player_id, card),
                ));
            }
            let handles = context.broadcast(room_id);
            assert(old(context)@.drawn_in(room_id, player_id, card, context@));
            Ok((card, handles))
        },
        Err(error) => Err(error),
    }
}

/// Resolves the pending effect of the room `room_id` at the cost of the
/// player `player_id`. On success the reply lists the subscribers to
/// notify.
pub fn penalty(context: &mut Uno, room_id: u32, player_id: u32) -> (r: Result<Vec<u64>, GameError>)
    requires
        old(context)@.wf(),
    ensures
        r is Ok <==> old(context)@.rooms.contains_key(room_id) && old(
            context,
        )@.rooms[room_id].penalty_refusal(player_id) is None,
        r matches Ok(handles) ==> handles@ == old(context)@.notified(room_id),
        r is Ok ==> old(context)@.paid_in(room_id, player_id, final(context)@),
        r is Ok && old(context)@.rooms[room_id].penalty_size() == 0 ==> final(context)@ == old(
            context,
        )@.with_room(room_id, old(context)@.rooms[room_id].penalized(player_id, Seq::empty())),
        r matches Err(error) ==> final(context)@ == old(context)@,
        r matches Err(error) ==> error == if old(context)@.rooms.contains_key(room_id) {
            old(context)@.rooms[room_id].penalty_refusal(player_id)->0
        } else {
            GameError::RoomNotFound
        },
        final(context)@.wf(),
        old(context)@.closed_at(room_id) ==> final(context)@.closed_at(room_id),
{
    let mut room = match context.take_room(room_id) {
        Some(room) => room,
        None => {
            return Err(GameError::RoomNotFound);
        },
    };
    assert(old(context)@.rooms.remove(room_id).insert(room_id, room@) =~= old(context)@.rooms);
    let ghost before = room@;
    let outcome = room.accept_penalty(player_id);
    let ghost changed = room@;
    context.put_room(room_id, room);
    assert(context@.rooms =~= old(context)@.rooms.insert(room_id, changed));
    match outcome {
        Ok(_) => {
            proof {
                let (after, drawn) = choose|after: RoomView, drawn: Seq<(u8, Card)>|
                    #[trigger] before.drew(after, drawn) && drawn.len() == before.penalty_size()
                        && changed == after.penalized(player_id, drawn);
                assert(context@ =~= old(context)@.with_room(
                    room_id,
                    after.penalized(player_id, drawn),
                ));
            }
            Ok(context.broadcast(room_id))
        },
        Err(error) => Err(error),
    }
}

/// Ends the turn of the player `player_id` in the room `room_id`. On
/// success the reply lists the subscribers to notify.
pub fn pass(context: &mut Uno, room_id: u32, player_id: u32) -> (r: Result<Vec<u64>, GameError>)
    requires
        old(context)@.wf(),
    ensures
        old(context)@.settled(
            room_id,
            if old(context)@.rooms.contains_key(room_id) {
                old(context)@.rooms[room_id].pass_result(player_id)
            } else {
                Err(GameError::RoomNotFound)
            },
            final(context)@,
            reply_of(r),
        ),
        final(context)@.wf(),
        old(context)@.closed_at(room_id) ==> final(context)@.closed_at(room_id),
{
    let mut room = match context.take_room(room_id) {
        Some(room) => room,
        None => {
            return Err(GameError::RoomNotFound);
        },
    };
    assert(old(context)@.rooms.remove(room_id).insert(room_id, room@) =~= old(context)@.rooms);
    let outcome = room.pass_turn(player_id);
    let ghost changed = room@;
    context.put_room(room_id, room);
    assert(context@.rooms =~= old(context)@.rooms.insert(room_id, changed));
    match outcome {
        Ok(_) => Ok(context.broadcast(room_id)),
        Err(error) => Err(error),
    }
}

} // verus!
