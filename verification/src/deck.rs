//! A deck of cards.
use vstd::prelude::*;
use rand::seq::SliceRandom;
use crate::card::Card;
use crate::card::lemma_at_index_bijective;

verus! {

/// The 52 cards in the order of their positions: twos first, clubs before spades.
pub open spec fn full_deck() -> Seq<Card> {
    Seq::new(52, |i: int| Card::at_index(i)->0)
}

/// The cards of `cards` that do not occur in `removed`, in their order.
pub open spec fn without(cards: Seq<Card>, removed: Seq<Card>) -> Seq<Card> {
    cards.filter(|c: Card| !removed.contains(c))
}

/// The `n` cards on top of a pile, the topmost first. The top of a pile is its end.
pub open spec fn top_cards(pile: Seq<Card>, n: int) -> Seq<Card> {
    Seq::new(n as nat, |k: int| pile[pile.len() - 1 - k])
}

/// What is left of a pile once `n` cards are taken from the top.
pub open spec fn below_top(pile: Seq<Card>, n: int) -> Seq<Card> {
    pile.take(pile.len() - n)
}

/// The full deck holds 52 valid cards, no card twice.
pub proof fn lemma_full_deck()
    ensures
        full_deck().len() == 52,
        full_deck().no_duplicates(),
        forall|i: int| 0 <= i < 52 ==> (#[trigger] full_deck()[i]).wf() && full_deck()[i].deck_index() == i,
{
    assert forall|i: int| 0 <= i < 52 implies (#[trigger] full_deck()[i]).wf() && full_deck()[i].deck_index()
        == i by {
        lemma_at_index_bijective(i, i);
    }
    assert forall|i: int, j: int| 0 <= i < 52 && 0 <= j < 52 && i != j implies full_deck()[i]
        != full_deck()[j] by {
        lemma_at_index_bijective(i, j);
    }
}

/// Taking cards out of a pile keeps the cards that were not named, adds none, and keeps a
/// pile free of duplicates free of them.
pub proof fn lemma_without(cards: Seq<Card>, removed: Seq<Card>)
    ensures
        without(cards, removed).len() <= cards.len(),
        forall|c: Card| #[trigger]
            without(cards, removed).contains(c) <==> cards.contains(c) && !removed.contains(c),
        cards.no_duplicates() ==> without(cards, removed).no_duplicates(),
    decreases cards.len(),
{
    let pred = |c: Card| !removed.contains(c);
    reveal(Seq::filter);
    if cards.len() == 0 {
        assert(without(cards, removed) =~= Seq::<Card>::empty());
    } else {
        let front = cards.drop_last();
        let last = cards.last();
        lemma_without(front, removed);
        let kept_front = without(front, removed);
        assert(without(cards, removed) == if pred(last) {
            kept_front.push(last)
        } else {
            kept_front
        });
        assert forall|c: Card| #[trigger]
            without(cards, removed).contains(c) <==> cards.contains(c) && !removed.contains(
                c,
            ) by {
            if without(cards, removed).contains(c) {
                let i = choose|i: int|
                    0 <= i < without(cards, removed).len() && without(cards, removed)[i] == c;
                if i < kept_front.len() {
                    assert(kept_front[i] == c);
                    assert(kept_front.contains(c));
                    assert(front.contains(c));
                    let j = choose|j: int| 0 <= j < front.len() && front[j] == c;
                    assert(cards[j] == c);
                } else {
                    assert(c == last);
                    assert(cards[cards.len() - 1] == c);
                }
            }
            if cards.contains(c) && !removed.contains(c) {
                let j = choose|j: int| 0 <= j < cards.len() && cards[j] == c;
                if j < front.len() {
                    assert(front[j] == c);
                    assert(front.contains(c));
                    assert(kept_front.contains(c));
                    let i = choose|i: int| 0 <= i < kept_front.len() && kept_front[i] == c;
                    assert(without(cards, removed)[i] == c);
                } else {
                    assert(c == last);
                    assert(without(cards, removed)[kept_front.len() as int] == c);
                }
            }
        }
        if cards.no_duplicates() {
            assert(front.no_duplicates());
            if pred(last) {
                assert forall|i: int, j: int|
                    0 <= i < kept_front.len() + 1 && 0 <= j < kept_front.len() + 1 && i
                        != j implies kept_front.push(last)[i] != kept_front.push(last)[j] by {
                    if i < kept_front.len() && j < kept_front.len() {
                    } else {
                        let k = if i < kept_front.len() {
                            i
                        } else {
                            j
                        };
                        assert(kept_front.contains(kept_front[k]));
                        assert(front.contains(kept_front[k]));
                        let m = choose|m: int| 0 <= m < front.len() && front[m] == kept_front[k];
                        assert(cards[m] == kept_front[k]);
                        assert(cards[cards.len() - 1] == last);
                    }
                }
            }
        }
    }
}

/// Whether a card occurs among the given cards.
pub fn contains_card(cards: &[Card], card: Card) -> (r: bool)
    ensures
        r == cards@.contains(card),
{
    let mut i: usize = 0;
    while i < cards.len()
        invariant
            i <= cards@.len(),
            forall|j: int| 0 <= j < i ==> cards@[j] != card,
        decreases cards@.len() - i,
    {
        if cards[i] == card {
            return true;
        }
        i = i + 1;
    }
    false
}

/// Shuffles the cards with the given generator: `rand::seq::SliceRandom::shuffle`.
///
/// The cards after the call are the cards before it in some order; which order depends on
/// the generator.
#[verifier::external_body]
fn shuffle_cards<R: rand::Rng>(cards: &mut Vec<Card>, rng: &mut R)
    ensures
        final(cards)@.to_multiset() == old(cards)@.to_multiset(),
        final(cards)@.len() == old(cards)@.len(),
{
    cards.shuffle(rng);
}

/// A pile of cards. Cards are dealt from the top, which is the end of the pile.
#[derive(Clone, Debug)]
pub struct Deck {
    cards: Vec<Card>,
}

impl View for Deck {
    type V = Seq<Card>;

    /// The cards of the deck from the bottom to the top.
    closed spec fn view(&self) -> Seq<Card> {
        self.cards@
    }
}

impl Deck {
    /// A standard deck of 52 cards in order.
    pub fn new() -> (r: Deck)
        ensures
            r@ == full_deck(),
    {
        let cards = Card::all_cards();
        assert(cards@ =~= full_deck());
        Deck { cards }
    }

    /// A deck without cards.
    pub fn empty() -> (r: Deck)
        ensures
            r@ == Seq::<Card>::empty(),
    {
        Deck { cards: Vec::new() }
    }

    /// A deck made of the given cards, the last of them on top.
    pub fn from_cards(cards: Vec<Card>) -> (r: Deck)
        ensures
            r@ == cards@,
    {
        Deck { cards }
    }

    /// The standard deck without the given cards.
    pub fn excluding(dead_cards: &[Card]) -> (r: Deck)
        ensures
            r@ == without(full_deck(), dead_cards@),
    {
        let mut deck = Deck::new();
        deck.remove(dead_cards);
        deck
    }

    /// The number of cards left in the deck.
    pub fn remaining(&self) -> (r: usize)
        ensures
            r == self@.len(),
    {
        self.cards.len()
    }

    /// Whether the deck holds no card.
    pub fn is_empty(&self) -> (r: bool)
        ensures
            r == (self@.len() == 0),
    {
        self.cards.len() == 0
    }

    /// The cards of the deck from the bottom to the top.
    pub fn cards(&self) -> (r: &[Card])
        ensures
            r@ == self@,
    {
        self.cards.as_slice()
    }

    /// The card on top of the deck, which stays there.
    pub fn peek(&self) -> (r: Option<&Card>)
        ensures
            self@.len() == 0 ==> r is None,
            self@.len() > 0 ==> r is Some && *r->0 == self@.last(),
    {
        if self.cards.len() == 0 {
            None
        } else {
            Some(&self.cards[self.cards.len() - 1])
        }
    }

    /// Shuffles the deck with the given generator. The deck holds the same cards afterwards,
    /// in an order that the generator decides.
    pub fn shuffle<R: rand::Rng>(&mut self, rng: &mut R)
        ensures
            final(self)@.to_multiset() == old(self)@.to_multiset(),
            final(self)@.len() == old(self)@.len(),
    {
        shuffle_cards(&mut self.cards, rng);
    }

    /// Puts the deck back to the full 52 cards in order.
    pub fn reset(&mut self)
        ensures
            final(self)@ == full_deck(),
    {
        *self = Deck::new();
    }

    /// Takes the given cards out of the deck; the other cards keep their order.
    pub fn remove(&mut self, cards_to_remove: &[Card])
        ensures
            final(self)@ == without(old(self)@, cards_to_remove@),
    {
        let mut kept: Vec<Card> = Vec::new();
        let mut i: usize = 0;
        let ghost pred = |c: Card| !cards_to_remove@.contains(c);
        proof {
            reveal(Seq::filter);
            assert(self.cards@.take(0) =~= Seq::<Card>::empty());
        }
        while i < self.cards.len()
            invariant
                i <= self.cards@.len(),
                pred == (|c: Card| !cards_to_remove@.contains(c)),
                kept@ == self.cards@.take(i as int).filter(pred),
            decreases self.cards@.len() - i,
        {
            let card = self.cards[i];
            proof {
                assert(self.cards@.take(i + 1) =~= self.cards@.take(i as int).push(card));
                self.cards@.take(i as int).lemma_filter_push(card, pred);
            }
            if !contains_card(cards_to_remove, card) {
                kept.push(card);
            }
            i = i + 1;
        }
        proof {
            assert(self.cards@.take(i as int) =~= self.cards@);
        }
        self.cards = kept;
    }

    /// Deals the card on top of the deck; `None` from an empty deck.
    pub fn deal(&mut self) -> (r: Option<Card>)
        ensures
            old(self)@.len() == 0 ==> r is None && final(self)@ == old(self)@,
            old(self)@.len() > 0 ==> r == Some(old(self)@.last()) && final(self)@ == old(self)@.drop_last(),
    {
        self.cards.pop()
    }

    /// Deals exactly `n` cards from the top, the topmost first; `None`, and an unchanged
    /// deck, where fewer than `n` cards are left.
    pub fn deal_exact(&mut self, n: usize) -> (r: Option<Vec<Card>>)
        ensures
            old(self)@.len() < n ==> r is None && final(self)@ == old(self)@,
            old(self)@.len() >= n ==> r is Some && r->0@ == top_cards(old(self)@, n as int)
                && final(self)@ == below_top(old(self)@, n as int),
    {
        if self.cards.len() < n {
            return None;
        }
        Some(self.deal_n(n))
    }

    /// Deals two cards to each of `num_players` players: one card to each player in turn,
    /// then a second card to each. `None`, and an unchanged deck, where the deck holds fewer
    /// than twice as many cards as there are players.
    pub fn deal_hole_cards(&mut self, num_players: usize) -> (r: Option<Vec<[Card; 2]>>)
        ensures
            old(self)@.len() < 2 * num_players ==> r is None && final(self)@ == old(self)@,
            old(self)@.len() >= 2 * num_players ==> r is Some && r->0@.len() == num_players
                && final(self)@ == below_top(old(self)@, 2 * num_players),
            old(self)@.len() >= 2 * num_players ==> forall|i: int|
                0 <= i < num_players ==> (#[trigger] r->0@[i])@ == seq![
                    old(self)@[old(self)@.len() - 1 - i],
                    old(self)@[old(self)@.len() - 1 - num_players - i],
                ],
    {
        let available = self.cards.len();
        if num_players > usize::MAX / 2 {
            return None;
        }
        let total_needed = num_players * 2;
        if available < total_needed {
            return None;
        }
        let first_cards = self.deal_n(num_players);
        let second_cards = self.deal_n(num_players);
        let mut hands: Vec<[Card; 2]> = Vec::new();
        let mut i: usize = 0;
        while i < num_players
            invariant
                i <= num_players,
                first_cards@.len() == num_players,
                second_cards@.len() == num_players,
                hands@.len() == i,
                forall|j: int|
                    0 <= j < i ==> (#[trigger] hands@[j])@ == seq![first_cards@[j], second_cards@[j]],
            decreases num_players - i,
        {
            let hand = [first_cards[i], second_cards[i]];
            assert(hand@ =~= seq![first_cards@[i as int], second_cards@[i as int]]);
            hands.push(hand);
            i = i + 1;
        }
        proof {
            assert(self@ =~= below_top(old(self)@, 2 * num_players));
        }
        Some(hands)
    }

    /// Deals the flop: burns one card, then deals three. `None`, and an unchanged deck,
    /// where fewer than four cards are left.
    pub fn deal_flop(&mut self) -> (r: Option<[Card; 3]>)
        ensures
            old(self)@.len() < 4 ==> r is None && final(self)@ == old(self)@,
            old(self)@.len() >= 4 ==> r is Some && r->0@ == seq![
                old(self)@[old(self)@.len() - 2],
                old(self)@[old(self)@.len() - 3],
                old(self)@[old(self)@.len() - 4],
            ] && final(self)@ == below_top(old(self)@, 4),
    {
        match self.burn_and_deal(3) {
            Some(cards) => {
                let flop = [cards[0], cards[1], cards[2]];
                assert(flop@ =~= seq![
                    old(self)@[old(self)@.len() - 2],
                    old(self)@[old(self)@.len() - 3],
                    old(self)@[old(self)@.len() - 4],
                ]);
                Some(flop)
            },
            None => None,
        }
    }

    /// Deals the turn: burns one card, then deals one. `None`, and an unchanged deck, where
    /// fewer than two cards are left.
    pub fn deal_turn(&mut self) -> (r: Option<Card>)
        ensures
            old(self)@.len() < 2 ==> r is None && final(self)@ == old(self)@,
            old(self)@.len() >= 2 ==> r == Some(old(self)@[old(self)@.len() - 2]) && final(self)@ == below_top(old(self)@, 2),
    {
        match self.burn_and_deal(1) {
            Some(cards) => Some(cards[0]),
            None => None,
        }
    }

    /// Deals the river: burns one card, then deals one. `None`, and an unchanged deck, where
    /// fewer than two cards are left.
    pub fn deal_river(&mut self) -> (r: Option<Card>)
        ensures
            old(self)@.len() < 2 ==> r is None && final(self)@ == old(self)@,
            old(self)@.len() >= 2 ==> r == Some(old(self)@[old(self)@.len() - 2]) && final(self)@ == below_top(old(self)@, 2),
    {
        match self.burn_and_deal(1) {
            Some(cards) => Some(cards[0]),
            None => None,
        }
    }

    /// Deals up to `n` cards from the top, the topmost first; all cards where fewer are left.
    pub fn deal_n(&mut self, n: usize) -> (r: Vec<Card>)
        ensures
            n <= old(self)@.len() ==> r@ == top_cards(old(self)@, n as int) && final(self)@
                == below_top(old(self)@, n as int),
            n > old(self)@.len() ==> r@ == top_cards(old(self)@, old(self)@.len() as int)
                && final(self)@ == Seq::<Card>::empty(),
    {
        let count = if n <= self.cards.len() {
            n
        } else {
            self.cards.len()
        };
        let mut dealt: Vec<Card> = Vec::new();
        let mut i: usize = 0;
        while i < count
            invariant
                i <= count <= old(self)@.len(),
                self.cards@ == old(self)@.take(old(self)@.len() - i),
                dealt@ == top_cards(old(self)@, i as int),
            decreases count - i,
        {
            match self.cards.pop() {
                Some(card) => {
                    dealt.push(card);
                },
                None => {},
            }
            i = i + 1;
            assert(self.cards@ =~= old(self)@.take(old(self)@.len() - i));
            assert(dealt@ =~= top_cards(old(self)@, i as int));
        }
        proof {
            assert(self@ =~= old(self)@.take(old(self)@.len() - count));
            if n > old(self)@.len() {
                assert(self@ =~= Seq::<Card>::empty());
            }
        }
        dealt
    }

    /// Takes the top card out of play.
    pub fn burn(&mut self) -> (r: Option<Card>)
        ensures
            old(self)@.len() == 0 ==> r is None && final(self)@ == old(self)@,
            old(self)@.len() > 0 ==> r == Some(old(self)@.last()) && final(self)@ == old(self)@.drop_last(),
    {
        self.deal()
    }

    /// Burns one card, then deals `n` cards, the topmost first. `None`, and an unchanged
    /// deck, where fewer than `n + 1` cards are left.
    pub fn burn_and_deal(&mut self, n: usize) -> (r: Option<Vec<Card>>)
        ensures
            old(self)@.len() < n + 1 ==> r is None && final(self)@ == old(self)@,
            old(self)@.len() >= n + 1 ==> r is Some && r->0@ == top_cards(
                old(self)@.drop_last(),
                n as int,
            ) && final(self)@ == below_top(old(self)@, n + 1),
    {
        if self.cards.len() <= n {
            return None;
        }
        self.burn();
        let dealt = self.deal_n(n);
        proof {
            assert(self@ =~= below_top(old(self)@, n + 1));
        }
        Some(dealt)
    }
}

impl Default for Deck {
    fn default() -> (r: Deck)
        ensures
            r@ == full_deck(),
    {
        Deck::new()
    }
}

} // verus!
