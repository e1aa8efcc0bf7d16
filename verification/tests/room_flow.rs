use uno::card::{all, Card, CardColor};
use uno::error::GameError;
use uno::room::{fresh_deck, shuffled_deck, Room, HAND_SIZE};
use uno::user::{copy_cards, User};

fn seated_room(ids: &[u32]) -> Room {
    let mut room = Room::new();
    for id in ids {
        room.push(User::new(format!("player {}", id), *id));
    }
    room
}

fn ordered_deck() -> Vec<(u8, Card)> {
    fresh_deck(&all())
}

fn ids_of(cards: &[(u8, Card)]) -> Vec<u8> {
    cards.iter().map(|card| card.0).collect()
}

fn sorted_ids_of_room(room: &Room) -> Vec<u8> {
    let mut ids: Vec<u8> = Vec::new();
    for player in room.players.iter() {
        ids.extend(ids_of(&player.hand));
    }
    ids.extend(ids_of(&room.deck));
    ids.extend(ids_of(&room.board));
    ids.sort();
    ids
}

fn every_identity() -> Vec<u8> {
    (0..58u8).collect()
}

fn number(rank: u8) -> Card {
    Card::Number(rank, CardColor::Red)
}

#[test]
fn new_room_is_empty_and_inactive() {
    let room = Room::new();
    assert!(room.players.is_empty());
    assert!(!room.active);
    assert!(room.deck.is_empty());
    assert!(room.board.is_empty());
    assert_eq!(room.current_player.id, 0);
    assert_eq!(room.current_player.name, "");
    assert_eq!(room.turn, 0);
    assert_eq!(room.color, CardColor::Red);
    assert_eq!(room.state, None);
    assert_eq!(room.chain_count, 0);
    assert!(!room.direction);
}

#[test]
fn new_user_holds_nothing() {
    let user = User::new("ann".to_string(), 7);
    assert_eq!(user.name, "ann");
    assert_eq!(user.id, 7);
    assert!(user.hand.is_empty());
    assert!(!user.drawed);
    let copy = user.clone();
    assert_eq!(copy.name, "ann");
    assert_eq!(copy.id, 7);
    assert_eq!(copy_cards(&vec![(3, number(3)), (1, number(1))]), vec![(3, number(3)), (1, number(1))]);
}

#[test]
fn push_appends_and_returns_a_copy() {
    let mut room = Room::new();
    let copy = room.push(User::new("ann".to_string(), 1));
    assert_eq!(copy.players.len(), 1);
    assert_eq!(room.players.len(), 1);
    assert_eq!(room.current_player.id, 1);
    let copy = room.push(User::new("bob".to_string(), 2));
    assert_eq!(copy.players.len(), 2);
    assert_eq!(copy.players[1].id, 2);
    assert_eq!(room.players[0].id, 1);
    assert_eq!(room.players[1].id, 2);
    assert_eq!(room.turn, 0);
    assert_eq!(room.current_player.id, 1);
}

#[test]
fn joining_mid_game_keeps_the_turn_pointer() {
    let mut room = seated_room(&[1, 2, 3]);
    assert_eq!(room.deal(ordered_deck()), Ok(()));
    room.right();
    room.right();
    assert_eq!(room.turn, 2);
    room.push(User::new("late".to_string(), 9));
    assert_eq!(room.turn, 2);
    assert_eq!(room.current_player.id, 3);
    assert_eq!(room.players.len(), 4);
    assert_eq!(room.players[3].id, 9);
    assert!(room.players[3].hand.is_empty());
    assert_eq!(ids_of(&room.players[2].hand), vec![14, 15, 16, 17, 18, 19, 20]);
}

#[test]
fn seat_finds_the_first_seat_of_a_player() {
    let room = seated_room(&[4, 5, 4]);
    assert_eq!(room.seat(4), Some(0));
    assert_eq!(room.seat(5), Some(1));
    assert_eq!(room.seat(6), None);
}

#[test]
fn player_hands_out_the_seat_for_changes() {
    let mut room = seated_room(&[4, 5]);
    room.player(5).drawed = true;
    room.player(5).hand.push((3, number(3)));
    assert!(room.players[1].drawed);
    assert_eq!(room.players[1].hand, vec![(3, number(3))]);
    assert!(!room.players[0].drawed);
}

#[test]
fn left_and_right_wrap_around() {
    let mut room = seated_room(&[1, 2, 3]);
    room.left();
    assert_eq!(room.turn, 2);
    assert_eq!(room.current_player.id, 3);
    room.left();
    assert_eq!(room.turn, 1);
    room.right();
    room.right();
    assert_eq!(room.turn, 0);
    assert_eq!(room.current_player.id, 1);
    room.right();
    assert_eq!(room.turn, 1);
    assert_eq!(room.current_player.id, 2);
}

#[test]
fn next_skips_players_without_cards() {
    let mut room = seated_room(&[1, 2, 3, 4]);
    room.players[0].hand.push((0, number(0)));
    room.players[3].hand.push((1, number(1)));
    room.update_player();
    room.direction = true;
    room.next();
    assert_eq!(room.turn, 3);
    assert_eq!(room.current_player.id, 4);
    room.next();
    assert_eq!(room.turn, 0);
    room.direction = false;
    room.next();
    assert_eq!(room.turn, 3);
    room.players[1].hand.push((2, number(2)));
    room.next();
    assert_eq!(room.turn, 1);
    assert_eq!(room.current_player.hand, vec![(2, number(2))]);
}

#[test]
fn next_comes_back_to_the_only_player_with_cards() {
    let mut room = seated_room(&[1, 2, 3]);
    room.players[1].hand.push((0, number(0)));
    room.right();
    assert_eq!(room.turn, 1);
    room.next();
    assert_eq!(room.turn, 1);
    room.direction = true;
    room.next();
    assert_eq!(room.turn, 1);
}

#[test]
fn next_moves_one_seat_when_nobody_holds_cards() {
    let mut room = seated_room(&[1, 2, 3]);
    room.next();
    assert_eq!(room.turn, 2);
    room.next();
    assert_eq!(room.turn, 1);
    room.direction = true;
    room.next();
    assert_eq!(room.turn, 2);
    room.next();
    assert_eq!(room.turn, 0);
}

#[test]
fn to_center_moves_the_back_of_the_deck_onto_the_board() {
    let mut room = seated_room(&[1, 2]);
    room.deck = vec![(1, number(1)), (2, number(2)), (3, number(3))];
    room.to_center();
    assert_eq!(room.top(), (3, number(3)));
    room.to_center();
    assert_eq!(room.top(), (2, number(2)));
    assert_eq!(room.deck, vec![(1, number(1))]);
    assert_eq!(room.board, vec![(3, number(3)), (2, number(2))]);
}

#[test]
fn fresh_deck_numbers_the_catalog() {
    let deck = ordered_deck();
    let cards = all();
    assert_eq!(deck.len(), 58);
    for (i, entry) in deck.iter().enumerate() {
        assert_eq!(entry.0 as usize, i);
        assert_eq!(entry.1, cards[i]);
    }
    assert_eq!(HAND_SIZE, 7);
}

#[test]
fn shuffled_deck_is_the_catalog_in_another_order() {
    let deck = shuffled_deck(&all());
    assert_ne!(deck, ordered_deck());
    let mut sorted = deck.clone();
    sorted.sort_by_key(|card| card.0);
    assert_eq!(sorted, ordered_deck());
}

#[test]
fn deal_gives_seven_cards_each_and_opens_with_a_number() {
    let mut room = seated_room(&[1, 2]);
    assert_eq!(room.deal(ordered_deck()), Ok(()));
    assert!(room.active);
    assert_eq!(ids_of(&room.players[0].hand), vec![0, 1, 2, 3, 4, 5, 6]);
    assert_eq!(ids_of(&room.players[1].hand), vec![7, 8, 9, 10, 11, 12, 13]);
    assert_eq!(ids_of(&room.deck), (14..39).collect::<Vec<u8>>());
    assert_eq!(ids_of(&room.board), (39..58).rev().collect::<Vec<u8>>());
    assert_eq!(room.top(), (39, Card::Number(9, CardColor::Yellow)));
    assert_eq!(room.turn, 0);
    assert_eq!(room.current_player.id, 1);
    assert_eq!(ids_of(&room.current_player.hand), vec![0, 1, 2, 3, 4, 5, 6]);
    assert_eq!(room.state, None);
    assert_eq!(room.chain_count, 0);
    assert_eq!(sorted_ids_of_room(&room), every_identity());
}

#[test]
fn deal_stops_at_the_first_number_from_the_back() {
    let mut deck = ordered_deck();
    deck.swap(20, 57);
    let mut room = seated_room(&[1, 2]);
    assert_eq!(room.deal(deck), Ok(()));
    assert_eq!(room.board, vec![(20, Card::Number(5, CardColor::Red))]);
    assert_eq!(room.deck.len(), 43);
    assert_eq!(room.deck[6], (57, Card::Plus4));
    assert_eq!(sorted_ids_of_room(&room), every_identity());
}

#[test]
fn deal_needs_two_players() {
    let mut room = seated_room(&[1]);
    assert_eq!(room.deal(ordered_deck()), Err(GameError::NotEnoughPlayers));
    assert!(!room.active);
    assert!(room.players[0].hand.is_empty());
    assert!(room.deck.is_empty());
    let mut empty = Room::new();
    assert_eq!(empty.deal(ordered_deck()), Err(GameError::NotEnoughPlayers));
}

#[test]
fn deal_fails_when_the_deck_is_too_small() {
    let mut room = seated_room(&[1, 2, 3, 4, 5, 6, 7, 8, 9]);
    assert_eq!(room.deal(ordered_deck()), Err(GameError::ResourceExhaustion));
    assert!(!room.active);
    assert!(room.players.iter().all(|player| player.hand.is_empty()));
    assert!(room.board.is_empty());
}

#[test]
fn deal_fails_without_a_number_card_to_open_with() {
    let mut room = seated_room(&[1, 2, 3, 4, 5, 6]);
    assert_eq!(room.deal(ordered_deck()), Err(GameError::ResourceExhaustion));
    assert!(!room.active);
    assert!(room.deck.is_empty());
    let mut five = seated_room(&[1, 2, 3, 4, 5]);
    assert_eq!(five.deal(ordered_deck()), Ok(()));
    assert_eq!(five.top(), (39, Card::Number(9, CardColor::Yellow)));
    assert_eq!(ids_of(&five.deck), vec![35, 36, 37, 38]);
}

#[test]
fn deal_leaves_an_active_room_alone() {
    let mut room = seated_room(&[1, 2]);
    assert_eq!(room.deal(ordered_deck()), Ok(()));
    let mut other = ordered_deck();
    other.reverse();
    assert_eq!(room.deal(other), Ok(()));
    assert_eq!(ids_of(&room.players[0].hand), vec![0, 1, 2, 3, 4, 5, 6]);
    assert_eq!(room.top(), (39, Card::Number(9, CardColor::Yellow)));
}

#[test]
fn start_deals_every_card_exactly_once() {
    let cards = all();
    let mut started = 0;
    for _ in 0..20 {
        let mut room = seated_room(&[1, 2, 3]);
        match room.start(&cards) {
            Ok(()) => {
                started += 1;
                assert!(room.active);
                for player in room.players.iter() {
                    assert_eq!(player.hand.len(), 7);
                }
                assert!(room.top().1.is_normal());
                assert!(room.board[..room.board.len() - 1].iter().all(|card| !card.1.is_normal()));
                assert_eq!(sorted_ids_of_room(&room), every_identity());
                for card in room.deck.iter() {
                    assert_eq!(card.1, cards[card.0 as usize]);
                }
            }
            Err(error) => panic!("a room of three cannot fail to start: {:?}", error),
        }
    }
    assert_eq!(started, 20);
    let mut lonely = seated_room(&[1]);
    assert_eq!(lonely.start(&cards), Err(GameError::NotEnoughPlayers));
}

#[test]
fn draw_takes_the_front_card_while_the_deck_is_long() {
    let mut room = seated_room(&[1, 2]);
    room.deck = vec![(1, number(1)), (2, number(2)), (3, number(3))];
    room.board = vec![(8, number(8)), (9, number(9))];
    assert_eq!(room.draw(), Some((1, number(1))));
    assert_eq!(room.deck, vec![(2, number(2)), (3, number(3))]);
    assert_eq!(room.board, vec![(8, number(8)), (9, number(9))]);
}

#[test]
fn draw_recycles_the_board_when_the_deck_holds_one_card() {
    let mut room = seated_room(&[1, 2]);
    room.deck = vec![(1, number(1))];
    room.board = vec![(5, number(5)), (6, number(6)), (7, number(7)), (9, number(9))];
    let card = room.draw().expect("cards are left to draw");
    assert_eq!(room.board, vec![(9, number(9))]);
    assert_eq!(room.deck.len(), 3);
    let mut ids = ids_of(&room.deck);
    ids.push(card.0);
    ids.sort();
    assert_eq!(ids, vec![1, 5, 6, 7]);
    assert_eq!(card.1, number(card.0));
}

#[test]
fn draw_recycles_when_it_would_leave_one_card() {
    let mut room = seated_room(&[1, 2]);
    room.deck = vec![(1, number(1)), (2, number(2))];
    room.board = vec![(5, number(5)), (9, number(9))];
    let card = room.draw().expect("cards are left to draw");
    assert_eq!(room.board, vec![(9, number(9))]);
    let mut ids = ids_of(&room.deck);
    ids.push(card.0);
    ids.sort();
    assert_eq!(ids, vec![1, 2, 5]);
}

#[test]
fn draw_keeps_returning_cards_until_none_is_left() {
    let mut room = seated_room(&[1, 2]);
    room.deck = vec![(1, number(1))];
    room.board = vec![(5, number(5)), (6, number(6)), (9, number(9))];
    let mut drawn: Vec<u8> = Vec::new();
    for _ in 0..3 {
        drawn.push(room.draw().expect("cards are left to draw").0);
    }
    drawn.sort();
    assert_eq!(drawn, vec![1, 5, 6]);
    assert_eq!(room.stock(), 0);
    assert_eq!(room.draw(), None);
    assert_eq!(room.board, vec![(9, number(9))]);
    assert!(room.deck.is_empty());
    let mut bare = Room::new();
    assert_eq!(bare.draw(), None);
}

#[test]
fn draw_restocked_takes_the_front_of_the_given_pile() {
    let mut room = seated_room(&[1, 2]);
    room.deck = vec![(1, number(1))];
    room.board = vec![(5, number(5)), (9, number(9))];
    assert_eq!(room.spent_cards(), vec![(5, number(5)), (1, number(1))]);
    assert_eq!(room.stock(), 2);
    let card = room.draw_restocked(vec![(1, number(1)), (5, number(5))]);
    assert_eq!(card, Some((1, number(1))));
    assert_eq!(room.deck, vec![(5, number(5))]);
    assert_eq!(room.board, vec![(9, number(9))]);
    assert_eq!(room.draw_restocked(Vec::new()), None);
    assert!(room.deck.is_empty());
    assert_eq!(room.board, vec![(9, number(9))]);
}

#[test]
fn restock_keeps_only_the_top_of_the_board() {
    let mut room = seated_room(&[1, 2]);
    room.board = vec![(5, number(5)), (6, number(6)), (9, number(9))];
    room.restock(vec![(6, number(6)), (5, number(5))]);
    assert_eq!(room.board, vec![(9, number(9))]);
    assert_eq!(room.deck, vec![(6, number(6)), (5, number(5))]);
    let mut bare = Room::new();
    bare.restock(vec![(1, number(1))]);
    assert!(bare.board.is_empty());
    assert_eq!(bare.deck, vec![(1, number(1))]);
}

#[test]
fn clone_copies_every_field() {
    let mut room = seated_room(&[1, 2]);
    assert_eq!(room.deal(ordered_deck()), Ok(()));
    room.direction = true;
    room.color = CardColor::Blue;
    let copy = room.clone();
    assert_eq!(copy.players.len(), 2);
    assert_eq!(copy.players[1].hand, room.players[1].hand);
    assert_eq!(copy.players[1].name, "player 2");
    assert_eq!(copy.deck, room.deck);
    assert_eq!(copy.board, room.board);
    assert_eq!(copy.turn, room.turn);
    assert_eq!(copy.current_player.id, room.current_player.id);
    assert_eq!(copy.color, CardColor::Blue);
    assert!(copy.direction);
    assert!(copy.active);
}
