//! One hand of Texas Hold'em: the deck, the players' hole cards and the board.
use vstd::prelude::*;
use crate::board::Board;
use crate::card::Card;
use crate::deck::below_top;
use crate::deck::full_deck;
use crate::deck::Deck;
use crate::street::Street;

verus! {

/// What a game holds, as plain values.
pub struct GameView {
    /// The deck from the bottom to the top.
    pub deck: Seq<Card>,
    /// The number of players.
    pub num_players: nat,
    /// The hole cards of each player; empty before they are dealt.
    pub hole_cards: Seq<Seq<Card>>,
    /// The cards on the board.
    pub board: Seq<Card>,
    /// The stage of the board.
    pub street: Street,
}

impl GameView {
    /// Whether hole cards can be dealt: none were dealt yet and the deck holds two cards for
    /// each player.
    pub open spec fn can_deal_hole_cards(self) -> bool {
        self.hole_cards.len() == 0 && self.deck.len() >= 2 * self.num_players
    }

    /// The game once hole cards are dealt: one card to each player in turn from the top of
    /// the deck, then a second card to each.
    pub open spec fn with_hole_cards(self) -> GameView {
        GameView {
            deck: below_top(self.deck, 2 * (self.num_players as int)),
            hole_cards: Seq::new(
                self.num_players,
                |i: int|
                    seq![
                        self.deck[self.deck.len() - 1 - i],
                        self.deck[self.deck.len() - 1 - self.num_players - i],
                    ],
            ),
            ..self
        }
    }

    /// Whether the flop can be dealt: the board is empty of cards and the deck holds four.
    pub open spec fn can_deal_flop(self) -> bool {
        self.street == Street::Preflop && self.deck.len() >= 4
    }

    /// The game once the flop is dealt: one card burnt, the next three on the board.
    pub open spec fn with_flop(self) -> GameView {
        GameView {
            deck: below_top(self.deck, 4),
            board: self.board.push(self.deck[self.deck.len() - 2]).push(
                self.deck[self.deck.len() - 3],
            ).push(self.deck[self.deck.len() - 4]),
            street: Street::Flop,
            ..self
        }
    }

    /// Whether the next single board card can be dealt at the given stage.
    pub open spec fn can_deal_one(self, at: Street) -> bool {
        self.street == at && self.deck.len() >= 2
    }

    /// The game once one card is burnt and the next is put on the board.
    pub open spec fn with_one(self, next: Street) -> GameView {
        GameView {
            deck: below_top(self.deck, 2),
            board: self.board.push(self.deck[self.deck.len() - 2]),
            street: next,
            ..self
        }
    }

    /// The game after an attempt to deal everything up to the river: each step is made as
    /// long as the steps before it could be made.
    pub open spec fn dealt_to_river(self) -> (GameView, bool) {
        if !self.can_deal_hole_cards() {
            (self, false)
        } else {
            let g1 = self.with_hole_cards();
            if !g1.can_deal_flop() {
                (g1, false)
            } else {
                let g2 = g1.with_flop();
                if !g2.can_deal_one(Street::Flop) {
                    (g2, false)
                } else {
                    let g3 = g2.with_one(Street::Turn);
                    if !g3.can_deal_one(Street::Turn) {
                        (g3, false)
                    } else {
                        (g3.with_one(Street::River), true)
                    }
                }
            }
        }
    }
}

/// The cards of each pair of hole cards.
pub open spec fn hole_card_views(hands: Seq<[Card; 2]>) -> Seq<Seq<Card>> {
    Seq::new(hands.len(), |i: int| hands[i]@)
}

/// One hand of Texas Hold'em for 2 to 10 players.
#[derive(Clone, Debug)]
pub struct Game {
    deck: Deck,
    num_players: usize,
    hole_cards: Vec<[Card; 2]>,
    board: Board,
}

impl View for Game {
    type V = GameView;

    closed spec fn view(&self) -> GameView {
        GameView {
            deck: self.deck@,
            num_players: self.num_players as nat,
            hole_cards: hole_card_views(self.hole_cards@),
            board: self.board@,
            street: self.board.street_value(),
        }
    }
}

impl Game {
    /// The game before anything is dealt from the given deck.
    pub open spec fn fresh(num_players: nat, deck: Seq<Card>) -> GameView {
        GameView {
            deck,
            num_players,
            hole_cards: Seq::empty(),
            board: Seq::empty(),
            street: Street::Preflop,
        }
    }

    /// A new game with a shuffled deck; `None` unless there are 2 to 10 players.
    pub fn new<R: rand::Rng>(num_players: usize, rng: &mut R) -> (r: Option<Game>)
        ensures
            !(2 <= num_players <= 10) ==> r is None,
            2 <= num_players <= 10 ==> r is Some && r->0@ == Game::fresh(
                num_players as nat,
                r->0@.deck,
            ) && r->0@.deck.to_multiset() == full_deck().to_multiset(),
    {
        if num_players < 2 || num_players > 10 {
            return None;
        }
        let mut deck = Deck::new();
        deck.shuffle(rng);
        let game = Game { deck, num_players, hole_cards: Vec::new(), board: Board::new() };
        assert(game@.hole_cards =~= Seq::<Seq<Card>>::empty());
        Some(game)
    }

    /// A new game with the given deck, used as it is; `None` unless there are 2 to 10
    /// players.
    pub fn with_deck(num_players: usize, deck: Deck) -> (r: Option<Game>)
        ensures
            !(2 <= num_players <= 10) ==> r is None,
            2 <= num_players <= 10 ==> r is Some && r->0@ == Game::fresh(
                num_players as nat,
                deck@,
            ),
    {
        if num_players < 2 || num_players > 10 {
            return None;
        }
        let game = Game { deck, num_players, hole_cards: Vec::new(), board: Board::new() };
        assert(game@.hole_cards =~= Seq::<Seq<Card>>::empty());
        Some(game)
    }

    /// The number of players.
    pub fn num_players(&self) -> (r: usize)
        ensures
            r == self@.num_players,
    {
        self.num_players
    }

    /// The stage of the hand.
    pub fn street(&self) -> (r: Street)
        ensures
            r == self@.street,
    {
        self.board.street()
    }

    /// The board.
    pub fn board(&self) -> (r: &Board)
        ensures
            r@ == self@.board,
            r.street_value() == self@.street,
    {
        &self.board
    }

    /// The hole cards of a player; `None` where the player has none.
    pub fn player_hole_cards(&self, player: usize) -> (r: Option<&[Card; 2]>)
        ensures
            player < self@.hole_cards.len() ==> r is Some && r->0@ == self@.hole_cards[player as int],
            player >= self@.hole_cards.len() ==> r is None,
    {
        if player < self.hole_cards.len() {
            Some(&self.hole_cards[player])
        } else {
            None
        }
    }

    /// The hole cards of all players.
    pub fn all_hole_cards(&self) -> (r: &[[Card; 2]])
        ensures
            hole_card_views(r@) == self@.hole_cards,
    {
        self.hole_cards.as_slice()
    }

    /// The number of cards left in the deck.
    pub fn remaining_cards(&self) -> (r: usize)
        ensures
            r == self@.deck.len(),
    {
        self.deck.remaining()
    }

    /// Whether the hand has reached the showdown: the river is dealt.
    pub fn is_showdown(&self) -> (r: bool)
        ensures
            r == (self@.street == Street::River),
    {
        self.board.street() == Street::River
    }

    /// Deals hole cards to every player. Returns false, and changes nothing, where hole
    /// cards were dealt before or the deck holds too few cards.
    pub fn deal_hole_cards(&mut self) -> (r: bool)
        ensures
            r == old(self)@.can_deal_hole_cards(),
            r ==> final(self)@ == old(self)@.with_hole_cards(),
            !r ==> final(self)@ == old(self)@,
    {
        if self.hole_cards.len() != 0 {
            return false;
        }
        match self.deck.deal_hole_cards(self.num_players) {
            Some(cards) => {
                self.hole_cards = cards;
                assert(self@.hole_cards =~= old(self)@.with_hole_cards().hole_cards);
                true
            },
            None => false,
        }
    }

    /// Deals the flop. Returns false, and changes nothing, unless the board is empty and
    /// the deck holds four cards.
    pub fn deal_flop(&mut self) -> (r: bool)
        ensures
            r == old(self)@.can_deal_flop(),
            r ==> final(self)@ == old(self)@.with_flop(),
            !r ==> final(self)@ == old(self)@,
    {
        if self.board.street() != Street::Preflop {
            return false;
        }
        match self.deck.deal_flop() {
            Some(flop) => self.board.deal_flop(flop[0], flop[1], flop[2]),
            None => false,
        }
    }

    /// Deals the turn. Returns false, and changes nothing, unless the board is at the flop
    /// and the deck holds two cards.
    pub fn deal_turn(&mut self) -> (r: bool)
        ensures
            r == old(self)@.can_deal_one(Street::Flop),
            r ==> final(self)@ == old(self)@.with_one(Street::Turn),
            !r ==> final(self)@ == old(self)@,
    {
        if self.board.street() != Street::Flop {
            return false;
        }
        match self.deck.deal_turn() {
            Some(card) => self.board.deal_turn(card),
            None => false,
        }
    }

    /// Deals the river. Returns false, and changes nothing, unless the board is at the turn
    /// and the deck holds two cards.
    pub fn deal_river(&mut self) -> (r: bool)
        ensures
            r == old(self)@.can_deal_one(Street::Turn),
            r ==> final(self)@ == old(self)@.with_one(Street::River),
            !r ==> final(self)@ == old(self)@,
    {
        if self.board.street() != Street::Turn {
            return false;
        }
        match self.deck.deal_river() {
            Some(card) => self.board.deal_river(card),
            None => false,
        }
    }

    /// Deals hole cards, flop, turn and river, and stops at the first step that cannot be
    /// made. Returns whether all four were made.
    pub fn deal_to_river(&mut self) -> (r: bool)
        ensures
            (final(self)@, r) == old(self)@.dealt_to_river(),
    {
        if !self.deal_hole_cards() {
            return false;
        }
        if !self.deal_flop() {
            return false;
        }
        if !self.deal_turn() {
            return false;
        }
        self.deal_river()
    }

    /// Starts a new hand: a full deck, shuffled, no hole cards and an empty board.
    pub fn reset<R: rand::Rng>(&mut self, rng: &mut R)
        ensures
            final(self)@ == Game::fresh(old(self)@.num_players, final(self)@.deck),
            final(self)@.deck.to_multiset() == full_deck().to_multiset(),
    {
        self.deck.reset();
        self.deck.shuffle(rng);
        self.hole_cards.clear();
        self.board.clear();
        assert(self@.hole_cards =~= Seq::<Seq<Card>>::empty());
    }
}

} // verus!
