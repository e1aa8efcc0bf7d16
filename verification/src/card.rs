//! The card catalog and the rules that decide whether one card may follow
//! another.

use vstd::prelude::*;

verus! {

/// The four colors a card can carry.
#[derive(PartialEq, Eq, Clone, Copy, Debug, Structural)]
pub enum CardColor {
    Red,
    Green,
    Blue,
    Yellow,
}

/// A card. Only the first four variants carry a color; the two wild
/// variants are colorless.
#[derive(PartialEq, Eq, Clone, Copy, Debug, Structural)]
pub enum Card {
    Number(u8, CardColor),
    Stop(CardColor),
    Reverse(CardColor),
    Plus2(CardColor),
    ChangeColor,
    Plus4,
}

/// The pending effect of an unresolved chain.
#[derive(PartialEq, Eq, Clone, Copy, Debug, Structural)]
pub enum GameState {
    Stop,
    Plus2,
    Plus4,
}

/// Why a move was rejected.
#[derive(PartialEq, Eq, Clone, Copy, Debug, Structural)]
pub enum Reason {
    /// The card's color differs from the color of the top card.
    WrongColor,
    /// A number card that shares neither rank nor color with the number
    /// card on top.
    InvalidMove,
    /// The top card is wild and the card does not carry the color that was
    /// chosen for it; the variant holds that color.
    ChosenColor(CardColor),
    /// A chain is pending and the card does not continue it.
    MustChain,
}

/// Number of cards in the catalog.
pub const CATALOG_SIZE: usize = 58;

impl CardColor {
    /// The lower-case name of the color.
    pub open spec fn name(self) -> Seq<char> {
        match self {
            CardColor::Red => "red"@,
            CardColor::Green => "green"@,
            CardColor::Blue => "blue"@,
            CardColor::Yellow => "yellow"@,
        }
    }

    /// The color at position `i` of the order red, green, blue, yellow.
    pub open spec fn at(i: int) -> CardColor {
        if i == 0 {
            CardColor::Red
        } else if i == 1 {
            CardColor::Green
        } else if i == 2 {
            CardColor::Blue
        } else {
            CardColor::Yellow
        }
    }

    pub fn as_str(&self) -> (s: &'static str)
        ensures
            s@ == self.name(),
    {
        match self {
            CardColor::Red => "red",
            CardColor::Green => "green",
            CardColor::Blue => "blue",
            CardColor::Yellow => "yellow",
        }
    }

    pub fn to_string(&self) -> (s: String)
        ensures
            s@ == self.name(),
    {
        String::from_str(self.as_str())
    }

    /// The color at position `i` of the order red, green, blue, yellow.
    pub fn from_index(i: usize) -> (c: CardColor)
        ensures
            c == CardColor::at(i as int),
    {
        if i == 0 {
            CardColor::Red
        } else if i == 1 {
            CardColor::Green
        } else if i == 2 {
            CardColor::Blue
        } else {
            CardColor::Yellow
        }
    }
}

impl Reason {
    /// The text shown to the player for this rejection.
    pub open spec fn text(self) -> Seq<char> {
        match self {
            Reason::WrongColor => "Wrong color"@,
            Reason::InvalidMove => "Invalid Move"@,
            Reason::ChosenColor(color) => "Choosen color is "@ + color.name(),
            Reason::MustChain => "You can only chain or pass"@,
        }
    }

    pub fn message(&self) -> (s: String)
        ensures
            s@ == self.text(),
    {
        match self {
            Reason::WrongColor => String::from_str("Wrong color"),
            Reason::InvalidMove => String::from_str("Invalid Move"),
            Reason::ChosenColor(color) => String::from_str("Choosen color is ").concat(
                color.as_str(),
            ),
            Reason::MustChain => String::from_str("You can only chain or pass"),
        }
    }
}

impl Card {
    /// The color of the card; a wild card has none.
    pub open spec fn color(self) -> Option<CardColor> {
        match self {
            Card::Number(_, color) => Some(color),
            Card::Stop(color) => Some(color),
            Card::Reverse(color) => Some(color),
            Card::Plus2(color) => Some(color),
            Card::ChangeColor => None,
            Card::Plus4 => None,
        }
    }

    /// A card fits a color when it carries that color or none at all.
    pub open spec fn fits(self, color: CardColor) -> bool {
        self.color() matches Some(own) ==> own == color
    }

    /// Plus4, Plus2 and Stop start or continue a chain.
    pub open spec fn chainable(self) -> bool {
        self is Plus4 || self is Plus2 || self is Stop
    }

    /// The pending effect that playing the card leaves behind.
    pub open spec fn pending(self) -> Option<GameState> {
        match self {
            Card::Stop(_) => Some(GameState::Stop),
            Card::Plus2(_) => Some(GameState::Plus2),
            Card::Plus4 => Some(GameState::Plus4),
            _ => None,
        }
    }

    /// Whether `other` continues a chain of the pending effect `state`.
    pub open spec fn chains(state: GameState, other: Card) -> bool {
        match state {
            GameState::Stop => other is Stop,
            GameState::Plus2 => other is Plus2,
            GameState::Plus4 => other is Plus4,
        }
    }

    /// Whether `other` may follow `self` while no chain is pending.
    /// `chosen` is the color in force when `self` is wild.
    pub open spec fn follows(self, chosen: CardColor, other: Card) -> bool {
        match self {
            Card::Number(rank, color) => match other {
                Card::Number(rank2, color2) => rank == rank2 || color == color2,
                _ => other.fits(color),
            },
            Card::Stop(color) => other is Stop || other.fits(color),
            Card::Reverse(color) => other is Reverse || other.fits(color),
            Card::Plus2(color) => other is Plus2 || other.fits(color),
            Card::ChangeColor => other.fits(chosen),
            Card::Plus4 => other.fits(chosen),
        }
    }

    /// The reason given when `other` may not follow `self` while no chain
    /// is pending.
    pub open spec fn free_reason(self, chosen: CardColor, other: Card) -> Reason {
        match self {
            Card::Number(_, _) => if other is Number {
                Reason::InvalidMove
            } else {
                Reason::WrongColor
            },
            Card::ChangeColor => Reason::ChosenColor(chosen),
            Card::Plus4 => Reason::ChosenColor(chosen),
            _ => Reason::WrongColor,
        }
    }

    /// The verdict on `other` played onto `self` while no chain is
    /// pending: `None` when the move is legal.
    pub open spec fn free_verdict(self, chosen: CardColor, other: Card) -> Option<Reason> {
        if self.follows(chosen, other) {
            None
        } else {
            Some(self.free_reason(chosen, other))
        }
    }

    /// The verdict on `other` played onto `self`: `None` when the move is
    /// legal. A pending chain overrides the free rule.
    pub open spec fn verdict(
        self,
        state: Option<GameState>,
        chosen: CardColor,
        other: Card,
    ) -> Option<Reason> {
        match state {
            Some(pending) => if Card::chains(pending, other) {
                None
            } else {
                Some(Reason::MustChain)
            },
            None => self.free_verdict(chosen, other),
        }
    }

    pub fn is_stop(&self) -> (r: bool)
        ensures
            r == (*self is Stop),
    {
        match self {
            Card::Stop(_) => true,
            _ => false,
        }
    }

    pub fn is_reverse(&self) -> (r: bool)
        ensures
            r == (*self is Reverse),
    {
        match self {
            Card::Reverse(_) => true,
            _ => false,
        }
    }

    pub fn is_plus_2(&self) -> (r: bool)
        ensures
            r == (*self is Plus2),
    {
        match self {
            Card::Plus2(_) => true,
            _ => false,
        }
    }

    pub fn is_normal(&self) -> (r: bool)
        ensures
            r == (*self is Number),
    {
        match self {
            Card::Number(_, _) => true,
            _ => false,
        }
    }

    /// Whether the card is wild: its color is chosen by whoever plays it.
    pub fn is_color_card(&self) -> (r: bool)
        ensures
            r == (*self is Plus4 || *self is ChangeColor),
            r == (self.color() is None),
    {
        match self {
            Card::Plus4 => true,
            Card::ChangeColor => true,
            _ => false,
        }
    }

    pub fn can_chain(&self) -> (r: bool)
        ensures
            r == self.chainable(),
            r == (self.pending() is Some),
    {
        match self {
            Card::Plus4 => true,
            Card::Plus2(_) => true,
            Card::Stop(_) => true,
            _ => false,
        }
    }

    pub fn to_game_state(&self) -> (r: Option<GameState>)
        ensures
            r == self.pending(),
    {
        match self {
            Card::Stop(_) => Some(GameState::Stop),
            Card::Plus2(_) => Some(GameState::Plus2),
            Card::Plus4 => Some(GameState::Plus4),
            _ => None,
        }
    }

    pub fn get_color(self) -> (r: Option<CardColor>)
        ensures
            r == self.color(),
    {
        match self {
            Card::Number(_, color) => Some(color),
            Card::Stop(color) => Some(color),
            Card::Reverse(color) => Some(color),
            Card::Plus2(color) => Some(color),
            _ => None,
        }
    }

    pub fn matches_color(self, color: CardColor) -> (r: bool)
        ensures
            r == self.fits(color),
    {
        match self.get_color() {
            Some(own) => own == color,
            None => true,
        }
    }

    /// Decides whether `candidate` may be played onto `self`, the exposed
    /// top card, given the pending effect and the active wild color.
    pub fn legal(
        self,
        pending: Option<GameState>,
        active_color: CardColor,
        candidate: Card,
    ) -> (r: Result<(), Reason>)
        ensures
            r is Ok <==> self.verdict(pending, active_color, candidate) is None,
            r matches Err(reason) ==> self.verdict(pending, active_color, candidate) == Some(
                reason,
            ),
    {
        match pending {
            Some(GameState::Stop) => Card::check(candidate.is_stop(), Reason::MustChain),
            Some(GameState::Plus2) => Card::check(candidate.is_plus_2(), Reason::MustChain),
            Some(GameState::Plus4) => Card::check(candidate == Card::Plus4, Reason::MustChain),
            None => self.free_legal(active_color, candidate),
        }
    }

    /// Decides whether `candidate` may be played onto `self` while no
    /// chain is pending.
    pub fn free_legal(self, active_color: CardColor, candidate: Card) -> (r: Result<(), Reason>)
        ensures
            r is Ok <==> self.follows(active_color, candidate),
            r matches Err(reason) ==> reason == self.free_reason(active_color, candidate),
            r is Ok <==> self.free_verdict(active_color, candidate) is None,
            r matches Err(reason) ==> self.free_verdict(active_color, candidate) == Some(reason),
    {
        match self {
            Card::Number(rank, color) => match candidate {
                Card::Number(rank2, color2) => Card::check(
                    rank == rank2 || color == color2,
                    Reason::InvalidMove,
                ),
                _ => Card::check(candidate.matches_color(color), Reason::WrongColor),
            },
            Card::Stop(color) => Card::check(
                candidate.is_stop() || candidate.matches_color(color),
                Reason::WrongColor,
            ),
            Card::Reverse(color) => Card::check(
                candidate.is_reverse() || candidate.matches_color(color),
                Reason::WrongColor,
            ),
            Card::Plus2(color) => Card::check(
                candidate.is_plus_2() || candidate.matches_color(color),
                Reason::WrongColor,
            ),
            Card::ChangeColor => Card::check(
                candidate.matches_color(active_color),
                Reason::ChosenColor(active_color),
            ),
            Card::Plus4 => Card::check(
                candidate.matches_color(active_color),
                Reason::ChosenColor(active_color),
            ),
        }
    }

    fn check(condition: bool, reason: Reason) -> (r: Result<(), Reason>)
        ensures
            r == if condition {
                Ok::<(), Reason>(())
            } else {
                Err::<(), Reason>(reason)
            },
    {
        if condition {
            Ok(())
        } else {
            Err(reason)
        }
    }

    /// The verdict on `other` played onto `self`, with the rejection as
    /// text: `None` when the move is legal.
    pub fn matches(
        self,
        game_state: Option<GameState>,
        choosen_color: CardColor,
        other: Card,
    ) -> (r: Option<String>)
        ensures
            r is None <==> self.verdict(game_state, choosen_color, other) is None,
            r matches Some(text) ==> self.verdict(game_state, choosen_color, other) matches Some(
                reason,
            ) && text@ == reason.text(),
    {
        make_error(self.legal(game_state, choosen_color, other))
    }

    /// The verdict on `other` played onto `self` while no chain is
    /// pending, with the rejection as text: `None` when the move is legal.
    pub fn free_match(self, choosen_color: CardColor, other: Card) -> (r: Option<String>)
        ensures
            r is None <==> self.free_verdict(choosen_color, other) is None,
            r matches Some(text) ==> self.free_verdict(choosen_color, other) matches Some(reason)
                && text@ == reason.text(),
    {
        make_error(self.free_legal(choosen_color, other))
    }
}

fn make_error(outcome: Result<(), Reason>) -> (r: Option<String>)
    ensures
        r is None <==> outcome is Ok,
        r matches Some(text) ==> outcome matches Err(reason) && text@ == reason.text(),
{
    match outcome {
        Ok(_) => None,
        Err(reason) => Some(reason.message()),
    }
}

/// The card with identity `i`: four zeros, the ranks one to nine in four
/// colors each, four stops, four reverses, four draw-twos, three color
/// changes and three draw-fours.
pub open spec fn catalog_card(i: int) -> Card {
    if i < 4 {
        Card::Number(0, CardColor::at(i))
    } else if i < 40 {
        Card::Number((1 + (i - 4) / 4) as u8, CardColor::at((i - 4) % 4))
    } else if i < 44 {
        Card::Stop(CardColor::at(i - 40))
    } else if i < 48 {
        Card::Reverse(CardColor::at(i - 44))
    } else if i < 52 {
        Card::Plus2(CardColor::at(i - 48))
    } else if i < 55 {
        Card::ChangeColor
    } else {
        Card::Plus4
    }
}

/// Every card of the game, indexed by identity.
pub open spec fn catalog() -> Seq<Card> {
    Seq::new(CATALOG_SIZE as nat, |i: int| catalog_card(i))
}

/// Builds the catalog.
pub fn all() -> (cards: Vec<Card>)
    ensures
        cards@ == catalog(),
{
    let mut cards: Vec<Card> = Vec::new();
    let mut i: usize = 0;
    while i < CATALOG_SIZE
        invariant
            i <= CATALOG_SIZE,
            cards@.len() == i,
            forall|k: int| 0 <= k < i ==> cards@[k] == catalog_card(k),
        decreases CATALOG_SIZE - i,
    {
        let card = if i < 4 {
            Card::Number(0, CardColor::from_index(i))
        } else if i < 40 {
            Card::Number((1 + (i - 4) / 4) as u8, CardColor::from_index((i - 4) % 4))
        } else if i < 44 {
            Card::Stop(CardColor::from_index(i - 40))
        } else if i < 48 {
            Card::Reverse(CardColor::from_index(i - 44))
        } else if i < 52 {
            Card::Plus2(CardColor::from_index(i - 48))
        } else if i < 55 {
            Card::ChangeColor
        } else {
            Card::Plus4
        };
        cards.push(card);
        i = i + 1;
    }
    assert(cards@ =~= catalog());
    cards
}

} // verus!
