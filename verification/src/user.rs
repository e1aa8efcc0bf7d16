//! A player: the registry's record of a client and, once seated, the
//! occupant of a seat with a hand of cards.

use crate::card::Card;
use vstd::prelude::*;

verus! {

#[derive(Debug)]
pub struct User {
    pub name: String,
    /// Numeric identity; 0 means unassigned.
    pub id: u32,
    /// The cards held, each with its identity.
    pub hand: Vec<(u8, Card)>,
    /// Whether the player has drawn a card this turn.
    pub drawed: bool,
}

/// The mathematical value of a [`User`].
#[verifier::ext_equal]
pub struct UserView {
    pub name: Seq<char>,
    pub id: u32,
    pub hand: Seq<(u8, Card)>,
    pub drawed: bool,
}

impl View for User {
    type V = UserView;

    open spec fn view(&self) -> UserView {
        UserView { name: self.name@, id: self.id, hand: self.hand@, drawed: self.drawed }
    }
}

impl DeepView for User {
    type V = UserView;

    open spec fn deep_view(&self) -> UserView {
        self@
    }
}

impl UserView {
    /// A user who holds no card and has not drawn.
    pub open spec fn fresh(name: Seq<char>, id: u32) -> UserView {
        UserView { name, id, hand: Seq::empty(), drawed: false }
    }

    /// The same user holding `hand`.
    pub open spec fn with_hand(self, hand: Seq<(u8, Card)>) -> UserView {
        UserView { hand, ..self }
    }

    /// The same user with the drawn flag set to `drawed`.
    pub open spec fn with_drawed(self, drawed: bool) -> UserView {
        UserView { drawed, ..self }
    }
}

/// Copies a list of cards.
pub fn copy_cards(cards: &Vec<(u8, Card)>) -> (copy: Vec<(u8, Card)>)
    ensures
        copy@ == cards@,
{
    let mut copy: Vec<(u8, Card)> = Vec::new();
    let mut i: usize = 0;
    while i < cards.len()
        invariant
            i <= cards.len(),
            copy@ == cards@.take(i as int),
        decreases cards.len() - i,
    {
        copy.push(cards[i]);
        proof {
            assert(cards@.take(i + 1) =~= cards@.take(i as int).push(cards@[i as int]));
        }
        i = i + 1;
    }
    assert(cards@.take(cards.len() as int) =~= cards@);
    copy
}

impl User {
    pub fn new(name: String, id: u32) -> (user: User)
        ensures
            user@ == UserView::fresh(name@, id),
    {
        User { name, id, hand: Vec::new(), drawed: false }
    }

    /// A copy of the user with the same name, identity, hand and flag.
    pub fn duplicate(&self) -> (copy: User)
        ensures
            copy@ == self@,
    {
        User {
            name: self.name.clone(),
            id: self.id,
            hand: copy_cards(&self.hand),
            drawed: self.drawed,
        }
    }
}

impl Clone for User {
    fn clone(&self) -> (copy: User)
        ensures
            copy@ == self@,
    {
        self.duplicate()
    }
}

} // verus!
