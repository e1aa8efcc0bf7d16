use uno::card::{all, Card, CardColor, GameState, Reason};

const COLORS: [CardColor; 4] =
    [CardColor::Red, CardColor::Green, CardColor::Blue, CardColor::Yellow];

#[test]
fn number_on_number_matches_by_rank() {
    let top = Card::Number(5, CardColor::Red);
    let candidate = Card::Number(5, CardColor::Blue);
    assert_eq!(top.legal(None, CardColor::Red, candidate), Ok(()));
    assert_eq!(top.legal(None, CardColor::Yellow, candidate), Ok(()));
    assert_eq!(top.matches(None, CardColor::Red, candidate), None);
    assert_eq!(top.free_match(CardColor::Red, candidate), None);
}

#[test]
fn number_on_number_without_rank_or_color_is_rejected() {
    let top = Card::Number(5, CardColor::Red);
    let candidate = Card::Number(2, CardColor::Blue);
    assert_eq!(top.legal(None, CardColor::Red, candidate), Err(Reason::InvalidMove));
    assert_eq!(
        top.matches(None, CardColor::Red, candidate),
        Some("Invalid Move".to_string())
    );
    assert_eq!(top.free_match(CardColor::Green, candidate), Some("Invalid Move".to_string()));
}

#[test]
fn number_on_number_matches_by_color() {
    let top = Card::Number(5, CardColor::Red);
    assert_eq!(top.legal(None, CardColor::Blue, Card::Number(2, CardColor::Red)), Ok(()));
}

#[test]
fn plus2_chains_on_pending_plus2_whatever_the_color() {
    let top = Card::Plus2(CardColor::Red);
    let candidate = Card::Plus2(CardColor::Blue);
    assert_eq!(top.legal(Some(GameState::Plus2), CardColor::Red, candidate), Ok(()));
    assert_eq!(top.matches(Some(GameState::Plus2), CardColor::Green, candidate), None);
}

#[test]
fn matching_color_does_not_break_a_pending_chain() {
    let top = Card::Plus2(CardColor::Red);
    let candidate = Card::Number(5, CardColor::Red);
    assert_eq!(
        top.legal(Some(GameState::Plus2), CardColor::Red, candidate),
        Err(Reason::MustChain)
    );
    assert_eq!(
        top.matches(Some(GameState::Plus2), CardColor::Red, candidate),
        Some("You can only chain or pass".to_string())
    );
    assert_eq!(top.legal(None, CardColor::Red, candidate), Ok(()));
}

#[test]
fn each_pending_effect_is_chained_by_its_own_kind_only() {
    let top = Card::Number(1, CardColor::Green);
    let stop = Card::Stop(CardColor::Blue);
    let plus2 = Card::Plus2(CardColor::Blue);
    let cases = [
        (GameState::Stop, stop, Ok(())),
        (GameState::Stop, plus2, Err(Reason::MustChain)),
        (GameState::Stop, Card::Plus4, Err(Reason::MustChain)),
        (GameState::Plus2, plus2, Ok(())),
        (GameState::Plus2, stop, Err(Reason::MustChain)),
        (GameState::Plus2, Card::Plus4, Err(Reason::MustChain)),
        (GameState::Plus4, Card::Plus4, Ok(())),
        (GameState::Plus4, plus2, Err(Reason::MustChain)),
        (GameState::Plus4, Card::ChangeColor, Err(Reason::MustChain)),
    ];
    for (state, candidate, expected) in cases {
        assert_eq!(top.legal(Some(state), CardColor::Red, candidate), expected);
    }
}

#[test]
fn action_card_is_followed_by_its_kind_or_its_color() {
    let top = Card::Stop(CardColor::Green);
    assert_eq!(top.legal(None, CardColor::Red, Card::Stop(CardColor::Blue)), Ok(()));
    assert_eq!(top.legal(None, CardColor::Red, Card::Number(3, CardColor::Green)), Ok(()));
    assert_eq!(top.legal(None, CardColor::Red, Card::Reverse(CardColor::Green)), Ok(()));
    assert_eq!(
        top.legal(None, CardColor::Red, Card::Reverse(CardColor::Blue)),
        Err(Reason::WrongColor)
    );
    assert_eq!(
        top.free_match(CardColor::Red, Card::Number(3, CardColor::Red)),
        Some("Wrong color".to_string())
    );
    let reverse = Card::Reverse(CardColor::Yellow);
    assert_eq!(reverse.legal(None, CardColor::Red, Card::Reverse(CardColor::Red)), Ok(()));
    assert_eq!(
        reverse.legal(None, CardColor::Red, Card::Stop(CardColor::Red)),
        Err(Reason::WrongColor)
    );
    let plus2 = Card::Plus2(CardColor::Blue);
    assert_eq!(plus2.legal(None, CardColor::Red, Card::Plus2(CardColor::Red)), Ok(()));
    assert_eq!(
        plus2.legal(None, CardColor::Red, Card::Number(0, CardColor::Red)),
        Err(Reason::WrongColor)
    );
}

#[test]
fn number_card_rejects_an_action_card_of_another_color() {
    let top = Card::Number(7, CardColor::Yellow);
    assert_eq!(
        top.legal(None, CardColor::Red, Card::Plus2(CardColor::Red)),
        Err(Reason::WrongColor)
    );
    assert_eq!(top.legal(None, CardColor::Red, Card::Plus2(CardColor::Yellow)), Ok(()));
}

#[test]
fn wild_top_asks_for_the_chosen_color() {
    for top in [Card::ChangeColor, Card::Plus4] {
        assert_eq!(top.legal(None, CardColor::Blue, Card::Number(4, CardColor::Blue)), Ok(()));
        assert_eq!(
            top.legal(None, CardColor::Blue, Card::Number(4, CardColor::Red)),
            Err(Reason::ChosenColor(CardColor::Blue))
        );
        assert_eq!(
            top.matches(None, CardColor::Green, Card::Stop(CardColor::Red)),
            Some("Choosen color is green".to_string())
        );
    }
}

#[test]
fn wild_candidate_follows_any_top_while_nothing_is_pending() {
    let tops = [
        Card::Number(3, CardColor::Red),
        Card::Stop(CardColor::Green),
        Card::Reverse(CardColor::Blue),
        Card::Plus2(CardColor::Yellow),
        Card::ChangeColor,
        Card::Plus4,
    ];
    for top in tops {
        for color in COLORS {
            assert_eq!(top.legal(None, color, Card::ChangeColor), Ok(()));
            assert_eq!(top.legal(None, color, Card::Plus4), Ok(()));
        }
    }
}

#[test]
fn reasons_have_their_texts() {
    assert_eq!(Reason::WrongColor.message(), "Wrong color");
    assert_eq!(Reason::InvalidMove.message(), "Invalid Move");
    assert_eq!(Reason::MustChain.message(), "You can only chain or pass");
    assert_eq!(Reason::ChosenColor(CardColor::Red).message(), "Choosen color is red");
    assert_eq!(Reason::ChosenColor(CardColor::Yellow).message(), "Choosen color is yellow");
}

#[test]
fn colors_have_their_names() {
    assert_eq!(CardColor::Red.to_string(), "red");
    assert_eq!(CardColor::Green.to_string(), "green");
    assert_eq!(CardColor::Blue.to_string(), "blue");
    assert_eq!(CardColor::Yellow.to_string(), "yellow");
    assert_eq!(CardColor::Blue.as_str(), "blue");
    assert_eq!(CardColor::from_index(0), CardColor::Red);
    assert_eq!(CardColor::from_index(3), CardColor::Yellow);
}

#[test]
fn predicates_tell_the_kinds_apart() {
    let number = Card::Number(9, CardColor::Red);
    let stop = Card::Stop(CardColor::Red);
    let reverse = Card::Reverse(CardColor::Red);
    let plus2 = Card::Plus2(CardColor::Red);
    let kinds = [number, stop, reverse, plus2, Card::ChangeColor, Card::Plus4];
    let expected = [
        // normal, stop, reverse, plus2, wild, chain
        (true, false, false, false, false, false),
        (false, true, false, false, false, true),
        (false, false, true, false, false, false),
        (false, false, false, true, false, true),
        (false, false, false, false, true, false),
        (false, false, false, false, true, true),
    ];
    for (card, row) in kinds.iter().zip(expected) {
        assert_eq!(card.is_normal(), row.0);
        assert_eq!(card.is_stop(), row.1);
        assert_eq!(card.is_reverse(), row.2);
        assert_eq!(card.is_plus_2(), row.3);
        assert_eq!(card.is_color_card(), row.4);
        assert_eq!(card.can_chain(), row.5);
    }
}

#[test]
fn pending_effect_of_each_kind() {
    assert_eq!(Card::Stop(CardColor::Blue).to_game_state(), Some(GameState::Stop));
    assert_eq!(Card::Plus2(CardColor::Blue).to_game_state(), Some(GameState::Plus2));
    assert_eq!(Card::Plus4.to_game_state(), Some(GameState::Plus4));
    assert_eq!(Card::ChangeColor.to_game_state(), None);
    assert_eq!(Card::Reverse(CardColor::Blue).to_game_state(), None);
    assert_eq!(Card::Number(1, CardColor::Blue).to_game_state(), None);
}

#[test]
fn colors_of_cards() {
    assert_eq!(Card::Number(1, CardColor::Green).get_color(), Some(CardColor::Green));
    assert_eq!(Card::Stop(CardColor::Red).get_color(), Some(CardColor::Red));
    assert_eq!(Card::Reverse(CardColor::Blue).get_color(), Some(CardColor::Blue));
    assert_eq!(Card::Plus2(CardColor::Yellow).get_color(), Some(CardColor::Yellow));
    assert_eq!(Card::ChangeColor.get_color(), None);
    assert_eq!(Card::Plus4.get_color(), None);
    assert!(Card::Stop(CardColor::Red).matches_color(CardColor::Red));
    assert!(!Card::Stop(CardColor::Red).matches_color(CardColor::Blue));
    assert!(Card::Plus4.matches_color(CardColor::Blue));
    assert!(Card::ChangeColor.matches_color(CardColor::Red));
}

#[test]
fn catalog_lists_every_card_in_order() {
    let cards = all();
    assert_eq!(cards.len(), 58);
    for (i, color) in COLORS.iter().enumerate() {
        assert_eq!(cards[i], Card::Number(0, *color));
        assert_eq!(cards[40 + i], Card::Stop(*color));
        assert_eq!(cards[44 + i], Card::Reverse(*color));
        assert_eq!(cards[48 + i], Card::Plus2(*color));
    }
    for rank in 1..=9u8 {
        for (i, color) in COLORS.iter().enumerate() {
            assert_eq!(cards[4 + 4 * (rank as usize - 1) + i], Card::Number(rank, *color));
        }
    }
    assert_eq!(cards[4], Card::Number(1, CardColor::Red));
    assert_eq!(cards[39], Card::Number(9, CardColor::Yellow));
    for i in 52..55 {
        assert_eq!(cards[i], Card::ChangeColor);
    }
    for i in 55..58 {
        assert_eq!(cards[i], Card::Plus4);
    }
}

#[test]
fn catalog_counts_per_kind() {
    let cards = all();
    assert_eq!(cards.iter().filter(|c| c.is_normal()).count(), 40);
    assert_eq!(cards.iter().filter(|c| c.is_stop()).count(), 4);
    assert_eq!(cards.iter().filter(|c| c.is_reverse()).count(), 4);
    assert_eq!(cards.iter().filter(|c| c.is_plus_2()).count(), 4);
    assert_eq!(cards.iter().filter(|c| **c == Card::ChangeColor).count(), 3);
    assert_eq!(cards.iter().filter(|c| **c == Card::Plus4).count(), 3);
    assert_eq!(all(), cards);
}
