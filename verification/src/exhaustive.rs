//! Equity by enumeration: every deal of the missing board cards and of the opponents' hole
//! cards is looked at once.
use vstd::prelude::*;
use crate::board::Board;
use crate::card::Card;
use crate::combinatorics::FIVE_FROM_SEVEN;
use crate::deck::full_deck;
use crate::deck::lemma_full_deck;
use crate::deck::lemma_without;
use crate::deck::Deck;
use crate::equity::known_cards;
use crate::equity::unseen_cards;
use crate::equity::valid_deal;
use crate::equity::EquityCalculator;
use crate::equity::EquityResult;
use crate::equity::Tally;
use crate::hand_evaluator::HandEvaluator;
use crate::hand_strength::choice;
use crate::hand_strength::lemma_best_of;
use crate::hand_strength::rankable5;
use crate::hand_strength::rankable7;
use crate::hand_strength::strength7;
use crate::hole_cards::HoleCards;

verus! {

/// Seven valid cards, no card twice, can be ranked.
pub proof fn lemma_distinct_rankable(cards: Seq<Card>)
    requires
        cards.len() == 7,
        cards.no_duplicates(),
        forall|i: int| 0 <= i < 7 ==> (#[trigger] cards[i]).wf(),
    ensures
        rankable7(cards),
{
    assert forall|i: int| 0 <= i < 21 implies rankable5(#[trigger] choice(cards, i)) by {
        let p = FIVE_FROM_SEVEN[i];
        assert(p[0] < p[1] && p[1] < p[2] && p[2] < p[3] && p[3] < p[4] && p[4] < 7);
        let five = choice(cards, i);
        assert(five[0] == cards[p[0] as int]);
        assert(five[1] == cards[p[1] as int]);
        assert(five[2] == cards[p[2] as int]);
        assert(five[3] == cards[p[3] as int]);
        assert(five[4] == cards[p[4] as int]);
        assert forall|x: int, y: int| 0 <= x < y < 5 implies five[x] != five[y] by {}
        assert forall|x: int| 0 <= x < 5 implies (#[trigger] five[x]).wf() by {}
        five[0].lemma_wf_fields();
        five[1].lemma_wf_fields();
        five[2].lemma_wf_fields();
        five[3].lemma_wf_fields();
        five[4].lemma_wf_fields();
        if five[0].rank_index() == five[1].rank_index() && five[0].rank_index()
            == five[2].rank_index() && five[0].rank_index() == five[3].rank_index()
            && five[0].rank_index() == five[4].rank_index() {
            // Five cards of one rank: two of them have one suit, and are one card.
            assert forall|x: int, y: int| 0 <= x < y < 5 implies five[x].suit_index()
                != five[y].suit_index() by {
                if five[x].suit_index() == five[y].suit_index() {
                    Card::lemma_determined(five[x], five[y]);
                }
            }
            assert(five[0].suit_index() != five[1].suit_index());
            assert(five[0].suit_index() != five[2].suit_index());
            assert(five[0].suit_index() != five[3].suit_index());
            assert(five[0].suit_index() != five[4].suit_index());
            assert(five[1].suit_index() != five[2].suit_index());
            assert(five[1].suit_index() != five[3].suit_index());
            assert(five[1].suit_index() != five[4].suit_index());
            assert(five[2].suit_index() != five[3].suit_index());
            assert(five[2].suit_index() != five[4].suit_index());
            assert(five[3].suit_index() != five[4].suit_index());
            assert(false);
        }
    }
}

/// The lower of two strengths, which is the better.
pub open spec fn better(a: int, b: int) -> int {
    if a < b {
        a
    } else {
        b
    }
}

/// The seven cards of an opponent who holds the cards at the positions `i` and `j` of the
/// deck.
pub open spec fn opponent_hand(cards: Seq<Card>, board: Seq<Card>, i: int, j: int) -> Seq<Card> {
    HoleCards::of(cards[i], cards[j]).with_board(board)
}

/// The counts over all ways to deal hole cards to `left` more opponents from the cards of
/// the deck whose positions are not taken, on a complete board.
///
/// The hero's strength is compared with the best strength among the opponents; `best` is
/// the best among the opponents that have their cards already. An opponent's two cards are
/// dealt from two positions in ascending order; the opponents themselves are told apart,
/// so each way to give different opponents different cards is counted.
pub open spec fn showdown_tally(
    hero: int,
    cards: Seq<Card>,
    board: Seq<Card>,
    taken: Seq<usize>,
    best: int,
    left: nat,
) -> Tally
    decreases left, 2int, 0int,
{
    if left == 0 {
        Tally::of_showdown(hero, best)
    } else {
        pairs_tally(hero, cards, board, taken, best, left, cards.len() as int)
    }
}

/// The part of `showdown_tally` in which the next opponent's first card stands at a
/// position below `i_end`.
pub open spec fn pairs_tally(
    hero: int,
    cards: Seq<Card>,
    board: Seq<Card>,
    taken: Seq<usize>,
    best: int,
    left: nat,
    i_end: int,
) -> Tally
    decreases left, 1int, i_end,
{
    if i_end <= 0 || left == 0 {
        Tally::zero()
    } else {
        pairs_tally(hero, cards, board, taken, best, left, i_end - 1).plus(
            if taken.contains((i_end - 1) as usize) {
                Tally::zero()
            } else {
                row_tally(hero, cards, board, taken, best, left, i_end - 1, cards.len() as int)
            },
        )
    }
}

/// The part of `showdown_tally` in which the next opponent's first card stands at the
/// position `i` and the second at a position below `j_end`.
pub open spec fn row_tally(
    hero: int,
    cards: Seq<Card>,
    board: Seq<Card>,
    taken: Seq<usize>,
    best: int,
    left: nat,
    i: int,
    j_end: int,
) -> Tally
    decreases left, 0int, j_end,
{
    if j_end <= i + 1 || j_end <= 0 || left == 0 {
        Tally::zero()
    } else {
        row_tally(hero, cards, board, taken, best, left, i, j_end - 1).plus(
            if taken.contains((j_end - 1) as usize) {
                Tally::zero()
            } else {
                showdown_tally(
                    hero,
                    cards,
                    board,
                    taken.push(i as usize).push((j_end - 1) as usize),
                    better(best, strength7(opponent_hand(cards, board, i, j_end - 1))),
                    (left - 1) as nat,
                )
            },
        )
    }
}

/// The counts over all ways to complete the board with cards of the deck at positions from
/// `from` on, in ascending order of their positions, and then to deal hole cards to the
/// opponents.
pub open spec fn runout_tally(
    hole_cards: HoleCards,
    cards: Seq<Card>,
    board: Seq<Card>,
    taken: Seq<usize>,
    from: int,
    opponents: nat,
) -> Tally
    decreases 5 - board.len(), 1int, 0int,
{
    if board.len() >= 5 {
        showdown_tally(
            strength7(hole_cards.with_board(board)),
            cards,
            board,
            taken,
            65535,
            opponents,
        )
    } else {
        runout_sum(hole_cards, cards, board, taken, from, opponents, cards.len() as int)
    }
}

/// The part of `runout_tally` in which the next board card stands at a position below
/// `x_end`.
pub open spec fn runout_sum(
    hole_cards: HoleCards,
    cards: Seq<Card>,
    board: Seq<Card>,
    taken: Seq<usize>,
    from: int,
    opponents: nat,
    x_end: int,
) -> Tally
    decreases 5 - board.len(), 0int, x_end,
{
    if x_end <= from || x_end <= 0 || board.len() >= 5 {
        Tally::zero()
    } else {
        runout_sum(hole_cards, cards, board, taken, from, opponents, x_end - 1).plus(
            runout_tally(
                hole_cards,
                cards,
                board.push(cards[x_end - 1]),
                taken.push((x_end - 1) as usize),
                x_end,
                opponents,
            ),
        )
    }
}

/// Whether the calculator enumerates for a board of the given length and the given number
/// of opponents: one to three opponents from the flop on, one opponent before the flop.
pub open spec fn enumerable(board_len: nat, opponents: nat) -> bool {
    ((board_len == 3 || board_len == 4 || board_len == 5) && 1 <= opponents <= 3) || (board_len
        == 0 && opponents == 1)
}

/// The exact counts of wins, ties and losses of the hero over all deals of the missing
/// board cards and of the opponents' hole cards from the cards that are left in the deck;
/// no deal counted where the calculator does not enumerate.
pub open spec fn exhaustive_tally(hole_cards: HoleCards, board: Seq<Card>, opponents: nat) -> Tally {
    if enumerable(board.len(), opponents) {
        runout_tally(
            hole_cards,
            unseen_cards(hole_cards, board),
            board,
            Seq::<usize>::empty(),
            0,
            opponents,
        )
    } else {
        Tally::zero()
    }
}

/// The most deals that `showdown_tally` can count for a number of opponents from a deck
/// of up to 52 cards.
pub open spec fn showdown_cap(left: nat) -> int {
    if left == 0 {
        1
    } else if left == 1 {
        2704
    } else if left == 2 {
        7311616
    } else {
        19770609664
    }
}

/// The most deals that `runout_tally` can count with `missing` board cards to come.
pub open spec fn runout_cap(missing: int, opponents: nat) -> int {
    let deals = showdown_cap(opponents);
    if missing <= 0 {
        deals
    } else if missing == 1 {
        52 * deals
    } else if missing == 2 {
        2704 * deals
    } else if missing == 3 {
        140608 * deals
    } else if missing == 4 {
        7311616 * deals
    } else {
        380204032 * deals
    }
}

/// With a further opponent there are 2704 times as many deals at most; with a further board
/// card, 52 times as many.
pub proof fn lemma_cap_steps(missing: int, opponents: nat)
    ensures
        showdown_cap(opponents) >= 1,
        1 <= opponents <= 3 ==> showdown_cap(opponents) == 2704 * showdown_cap((opponents - 1) as nat),
        1 <= missing <= 5 ==> runout_cap(missing, opponents) == 52 * runout_cap(missing - 1, opponents),
        runout_cap(0, opponents) == showdown_cap(opponents),
        opponents <= 3 && missing <= 5 ==> runout_cap(missing, opponents) <= 7516865509350965248,
{
}

/// Room for one more row of deals: `i * 52 * c + j * c + c <= 2704 * c`.
proof fn lemma_room(i: int, j: int, c: int)
    by (nonlinear_arith)
    requires
        0 <= i <= 51,
        0 <= j <= 52,
        c >= 0,
    ensures
        i * 52 * c + j * c + c <= 2704 * c + c,
        j <= 51 ==> i * 52 * c + j * c + c <= 2704 * c,
        (i + 1) * 52 * c == i * 52 * c + 52 * c,
        (j + 1) * c == j * c + c,
        j * c <= 52 * c,
        i * 52 * c >= 0,
        j * c >= 0,
{
}

/// No count is negative, and there are no more deals than the caps say.
pub proof fn lemma_showdown_bound(
    hero: int,
    cards: Seq<Card>,
    board: Seq<Card>,
    taken: Seq<usize>,
    best: int,
    left: nat,
)
    requires
        cards.len() <= 52,
        left <= 3,
    ensures
        showdown_tally(hero, cards, board, taken, best, left).wins >= 0,
        showdown_tally(hero, cards, board, taken, best, left).ties >= 0,
        showdown_tally(hero, cards, board, taken, best, left).losses >= 0,
        showdown_tally(hero, cards, board, taken, best, left).total() <= showdown_cap(left),
    decreases left, 2int, 0int,
{
    if left > 0 {
        lemma_pairs_bound(hero, cards, board, taken, best, left, cards.len() as int);
        if cards.len() > 0 {
            lemma_room(cards.len() - 1, 0, showdown_cap((left - 1) as nat));
        }
        lemma_cap_steps(0, left);
    }
}

/// The bounds of `pairs_tally`.
pub proof fn lemma_pairs_bound(
    hero: int,
    cards: Seq<Card>,
    board: Seq<Card>,
    taken: Seq<usize>,
    best: int,
    left: nat,
    i_end: int,
)
    requires
        cards.len() <= 52,
        1 <= left <= 3,
        0 <= i_end <= cards.len(),
    ensures
        pairs_tally(hero, cards, board, taken, best, left, i_end).wins >= 0,
        pairs_tally(hero, cards, board, taken, best, left, i_end).ties >= 0,
        pairs_tally(hero, cards, board, taken, best, left, i_end).losses >= 0,
        pairs_tally(hero, cards, board, taken, best, left, i_end).total() <= i_end * 52
            * showdown_cap((left - 1) as nat),
    decreases left, 1int, i_end,
{
    if i_end > 0 {
        lemma_pairs_bound(hero, cards, board, taken, best, left, i_end - 1);
        lemma_row_bound(hero, cards, board, taken, best, left, i_end - 1, cards.len() as int);
        lemma_room(i_end - 1, cards.len() as int, showdown_cap((left - 1) as nat));
    } else {
        lemma_room(0, 0, showdown_cap((left - 1) as nat));
    }
}

/// The bounds of `row_tally`.
pub proof fn lemma_row_bound(
    hero: int,
    cards: Seq<Card>,
    board: Seq<Card>,
    taken: Seq<usize>,
    best: int,
    left: nat,
    i: int,
    j_end: int,
)
    requires
        cards.len() <= 52,
        1 <= left <= 3,
        0 <= i,
        0 <= j_end <= cards.len(),
    ensures
        row_tally(hero, cards, board, taken, best, left, i, j_end).wins >= 0,
        row_tally(hero, cards, board, taken, best, left, i, j_end).ties >= 0,
        row_tally(hero, cards, board, taken, best, left, i, j_end).losses >= 0,
        row_tally(hero, cards, board, taken, best, left, i, j_end).total() <= j_end * showdown_cap(
            (left - 1) as nat,
        ),
    decreases left, 0int, j_end,
{
    lemma_room(0, j_end, showdown_cap((left - 1) as nat));
    if j_end > i + 1 {
        lemma_row_bound(hero, cards, board, taken, best, left, i, j_end - 1);
        lemma_showdown_bound(
            hero,
            cards,
            board,
            taken.push(i as usize).push((j_end - 1) as usize),
            better(best, strength7(opponent_hand(cards, board, i, j_end - 1))),
            (left - 1) as nat,
        );
        lemma_room(0, j_end - 1, showdown_cap((left - 1) as nat));
    }
}

/// The bounds of `runout_tally`.
pub proof fn lemma_runout_bound(
    hole_cards: HoleCards,
    cards: Seq<Card>,
    board: Seq<Card>,
    taken: Seq<usize>,
    from: int,
    opponents: nat,
)
    requires
        cards.len() <= 52,
        opponents <= 3,
        board.len() <= 5,
    ensures
        runout_tally(hole_cards, cards, board, taken, from, opponents).wins >= 0,
        runout_tally(hole_cards, cards, board, taken, from, opponents).ties >= 0,
        runout_tally(hole_cards, cards, board, taken, from, opponents).losses >= 0,
        runout_tally(hole_cards, cards, board, taken, from, opponents).total() <= runout_cap(
            5 - board.len(),
            opponents,
        ),
    decreases 5 - board.len(), 1int, 0int,
{
    if board.len() >= 5 {
        lemma_showdown_bound(
            strength7(hole_cards.with_board(board)),
            cards,
            board,
            taken,
            65535,
            opponents,
        );
    } else {
        lemma_runout_sum_bound(hole_cards, cards, board, taken, from, opponents, cards.len() as int);
        lemma_cap_steps(5 - board.len(), opponents);
        lemma_room(0, cards.len() as int, runout_cap(4 - board.len(), opponents));
    }
}

/// The bounds of `runout_sum`.
pub proof fn lemma_runout_sum_bound(
    hole_cards: HoleCards,
    cards: Seq<Card>,
    board: Seq<Card>,
    taken: Seq<usize>,
    from: int,
    opponents: nat,
    x_end: int,
)
    requires
        cards.len() <= 52,
        opponents <= 3,
        board.len() < 5,
        0 <= x_end <= cards.len(),
    ensures
        runout_sum(hole_cards, cards, board, taken, from, opponents, x_end).wins >= 0,
        runout_sum(hole_cards, cards, board, taken, from, opponents, x_end).ties >= 0,
        runout_sum(hole_cards, cards, board, taken, from, opponents, x_end).losses >= 0,
        runout_sum(hole_cards, cards, board, taken, from, opponents, x_end).total() <= x_end
            * runout_cap(4 - board.len(), opponents),
    decreases 5 - board.len(), 0int, x_end,
{
    lemma_cap_steps(4 - board.len(), opponents);
    lemma_room(0, x_end, runout_cap(4 - board.len(), opponents));
    if x_end > from && x_end > 0 {
        lemma_runout_sum_bound(hole_cards, cards, board, taken, from, opponents, x_end - 1);
        lemma_runout_bound(
            hole_cards,
            cards,
            board.push(cards[x_end - 1]),
            taken.push((x_end - 1) as usize),
            x_end,
            opponents,
        );
        lemma_room(0, x_end - 1, runout_cap(4 - board.len(), opponents));
    }
}

/// Counters of wins, ties and losses.
pub struct Counts {
    pub wins: u64,
    pub ties: u64,
    pub losses: u64,
}

impl View for Counts {
    type V = Tally;

    open spec fn view(&self) -> Tally {
        Tally { wins: self.wins as int, ties: self.ties as int, losses: self.losses as int }
    }
}

/// A deck to deal opponents from on a board: at most 52 valid cards, no card twice in the
/// deck or on the board, and every card of the deck that lies on the board is marked as
/// taken.
#[verifier::opaque]
pub open spec fn pool_ok(cards: Seq<Card>, board: Seq<Card>, taken: Seq<usize>) -> bool {
    &&& cards.len() <= 52
    &&& cards.no_duplicates()
    &&& board.no_duplicates()
    &&& forall|i: int| 0 <= i < cards.len() ==> (#[trigger] cards[i]).wf()
    &&& forall|i: int| 0 <= i < board.len() ==> (#[trigger] board[i]).wf()
    &&& forall|x: int|
        0 <= x < cards.len() && board.contains(#[trigger] cards[x]) ==> taken.contains(x as usize)
}

/// A deck to complete the hero's board from: a pool for the board, ahead of which the
/// hero's hole cards are out of the deck and off the board, and the taken positions lie
/// below the position from which the next board card comes.
#[verifier::opaque]
pub open spec fn table_ok(
    hole_cards: HoleCards,
    cards: Seq<Card>,
    board: Seq<Card>,
    taken: Seq<usize>,
    from: int,
) -> bool {
    &&& pool_ok(cards, board, taken)
    &&& hole_cards.first_value().wf()
    &&& hole_cards.second_value().wf()
    &&& hole_cards.first_value() != hole_cards.second_value()
    &&& !cards.contains(hole_cards.first_value())
    &&& !cards.contains(hole_cards.second_value())
    &&& !board.contains(hole_cards.first_value())
    &&& !board.contains(hole_cards.second_value())
    &&& forall|t: int| 0 <= t < taken.len() ==> (#[trigger] taken[t]) < from
}

/// On a complete board, the cards of an opponent who gets two cards that are not taken can
/// be ranked.
pub proof fn lemma_opponent_rankable(
    cards: Seq<Card>,
    board: Seq<Card>,
    taken: Seq<usize>,
    i: int,
    j: int,
)
    requires
        pool_ok(cards, board, taken),
        board.len() == 5,
        0 <= i < j < cards.len(),
        !taken.contains(i as usize),
        !taken.contains(j as usize),
    ensures
        rankable7(opponent_hand(cards, board, i, j)),
        pool_ok(cards, board, taken.push(i as usize).push(j as usize)),
        cards.len() <= 52,
{
    reveal(pool_ok);
    let hand = opponent_hand(cards, board, i, j);
    HoleCards::lemma_of(cards[i], cards[j]);
    assert(hand[0] == cards[i] && hand[1] == cards[j]);
    assert forall|x: int, y: int| 0 <= x < y < 7 implies hand[x] != hand[y] by {
        if x >= 2 {
            assert(hand[x] == board[x - 2] && hand[y] == board[y - 2]);
        } else if y >= 2 {
            assert(hand[y] == board[y - 2]);
            if hand[x] == hand[y] {
                assert(board.contains(board[y - 2]));
            }
        }
    }
    assert forall|x: int| 0 <= x < 7 implies (#[trigger] hand[x]).wf() by {
        if x >= 2 {
            assert(hand[x] == board[x - 2]);
        }
    }
    lemma_distinct_rankable(hand);
    let grown = taken.push(i as usize).push(j as usize);
    assert forall|x: int| 0 <= x < cards.len() && board.contains(#[trigger] cards[x])
        implies grown.contains(x as usize) by {
        let t = choose|t: int| 0 <= t < taken.len() && taken[t] == x as usize;
        assert(grown[t] == x as usize);
    }
}

/// The hero's seven cards on a complete board can be ranked.
pub proof fn lemma_hero_rankable(
    hole_cards: HoleCards,
    cards: Seq<Card>,
    board: Seq<Card>,
    taken: Seq<usize>,
    from: int,
)
    requires
        table_ok(hole_cards, cards, board, taken, from),
        board.len() == 5,
    ensures
        rankable7(hole_cards.with_board(board)),
        pool_ok(cards, board, taken),
{
    reveal(pool_ok);
    reveal(table_ok);
    let hand = hole_cards.with_board(board);
    assert forall|x: int, y: int| 0 <= x < y < 7 implies hand[x] != hand[y] by {
        if x >= 2 {
            assert(hand[x] == board[x - 2] && hand[y] == board[y - 2]);
        } else if y >= 2 {
            assert(hand[y] == board[y - 2]);
            if hand[x] == hand[y] {
                assert(board.contains(board[y - 2]));
            }
        }
    }
    assert forall|x: int| 0 <= x < 7 implies (#[trigger] hand[x]).wf() by {
        if x >= 2 {
            assert(hand[x] == board[x - 2]);
        }
    }
    lemma_distinct_rankable(hand);
}

/// Putting the next card of the deck on the board leaves a deck to complete the board from.
pub proof fn lemma_table_grows(
    hole_cards: HoleCards,
    cards: Seq<Card>,
    board: Seq<Card>,
    taken: Seq<usize>,
    from: int,
    x: int,
)
    requires
        table_ok(hole_cards, cards, board, taken, from),
        0 <= from <= x < cards.len(),
    ensures
        table_ok(hole_cards, cards, board.push(cards[x]), taken.push(x as usize), x + 1),
        cards.len() <= 52,
{
    reveal(pool_ok);
    reveal(table_ok);
    let grown_board = board.push(cards[x]);
    let grown = taken.push(x as usize);
    if board.contains(cards[x]) {
        let t = choose|t: int| 0 <= t < taken.len() && taken[t] == x as usize;
        assert(taken[t] < from);
    }
    assert forall|a: int, b: int| 0 <= a < b < grown_board.len() implies grown_board[a]
        != grown_board[b] by {
        if b == board.len() {
            assert(grown_board[a] == board[a]);
            assert(board.contains(board[a]));
        } else {
            assert(grown_board[a] == board[a] && grown_board[b] == board[b]);
        }
    }
    assert forall|y: int| 0 <= y < cards.len() && grown_board.contains(#[trigger] cards[y])
        implies grown.contains(y as usize) by {
        let b = choose|b: int| 0 <= b < grown_board.len() && grown_board[b] == cards[y];
        if b == board.len() {
            assert(y == x);
            assert(grown[taken.len() as int] == x as usize);
        } else {
            assert(board[b] == cards[y]);
            assert(board.contains(cards[y]));
            let t = choose|t: int| 0 <= t < taken.len() && taken[t] == y as usize;
            assert(grown[t] == y as usize);
        }
    }
    assert forall|i: int| 0 <= i < grown_board.len() implies (#[trigger] grown_board[i]).wf() by {
        if i < board.len() {
            assert(grown_board[i] == board[i]);
        }
    }
    assert(!grown_board.contains(hole_cards.first_value())) by {
        if grown_board.contains(hole_cards.first_value()) {
            let b = choose|b: int|
                0 <= b < grown_board.len() && grown_board[b] == hole_cards.first_value();
            if b < board.len() {
                assert(board[b] == hole_cards.first_value());
            } else {
                assert(cards.contains(cards[x]));
            }
        }
    }
    assert(!grown_board.contains(hole_cards.second_value())) by {
        if grown_board.contains(hole_cards.second_value()) {
            let b = choose|b: int|
                0 <= b < grown_board.len() && grown_board[b] == hole_cards.second_value();
            if b < board.len() {
                assert(board[b] == hole_cards.second_value());
            } else {
                assert(cards.contains(cards[x]));
            }
        }
    }
    assert forall|t: int| 0 <= t < grown.len() implies (#[trigger] grown[t]) < x + 1 by {
        if t < taken.len() {
            assert(grown[t] == taken[t]);
        }
    }
}

/// Whether a position is among the taken ones.
fn is_taken(taken: &Vec<usize>, position: usize) -> (r: bool)
    ensures
        r == taken@.contains(position),
{
    let mut k: usize = 0;
    while k < taken.len()
        invariant
            k <= taken@.len(),
            forall|t: int| 0 <= t < k ==> taken@[t] != position,
        decreases taken@.len() - k,
    {
        if taken[k] == position {
            return true;
        }
        k = k + 1;
    }
    false
}

/// An equity calculator that enumerates every deal.
pub struct ExhaustiveEquityCalculator<E: HandEvaluator> {
    evaluator: E,
}

impl<E: HandEvaluator> ExhaustiveEquityCalculator<E> {
    /// The evaluator of the calculator.
    pub closed spec fn evaluator_value(self) -> E {
        self.evaluator
    }

    /// A calculator that ranks hands with the given evaluator.
    pub fn new(evaluator: E) -> (r: Self)
        ensures
            r.evaluator_value() == evaluator,
    {
        ExhaustiveEquityCalculator { evaluator }
    }

    /// The evaluator of the calculator.
    pub fn evaluator(&self) -> (r: &E)
        ensures
            *r == self.evaluator_value(),
    {
        &self.evaluator
    }

    /// The deck without the hero's hole cards and the cards on the board.
    pub fn remaining_deck(hole_cards: HoleCards, board: &Board) -> (r: Deck)
        ensures
            r@ == unseen_cards(hole_cards, board@),
    {
        let mut dead_cards: Vec<Card> = Vec::new();
        dead_cards.push(hole_cards.first());
        dead_cards.push(hole_cards.second());
        let on_board = board.cards();
        let mut i: usize = 0;
        while i < on_board.len()
            invariant
                i <= on_board@.len(),
                on_board@ == board@,
                dead_cards@ == seq![hole_cards.first_value(), hole_cards.second_value()]
                    + board@.take(i as int),
            decreases on_board@.len() - i,
        {
            dead_cards.push(on_board[i]);
            i = i + 1;
            assert(dead_cards@ =~= seq![hole_cards.first_value(), hole_cards.second_value()]
                + board@.take(i as int));
        }
        assert(board@.take(i as int) =~= board@);
        Deck::excluding(dead_cards.as_slice())
    }

    /// Counts, on a complete board, all ways to deal hole cards to `left` more opponents
    /// from the cards of the deck that are not taken.
    fn enumerate_multiway(
        &self,
        hero: u16,
        board: &[Card; 5],
        cards: &[Card],
        taken: &mut Vec<usize>,
        best: u16,
        left: usize,
        counts: &mut Counts,
    )
        requires
            left <= 3,
            pool_ok(cards@, board@, old(taken)@),
            old(counts)@.total() + showdown_cap(left as nat) <= u64::MAX,
        ensures
            final(counts)@ == old(counts)@.plus(
                showdown_tally(hero as int, cards@, board@, old(taken)@, best as int, left as nat),
            ),
            final(taken)@ == old(taken)@,
        decreases left,
    {
        if left == 0 {
            if hero < best {
                counts.wins = counts.wins + 1;
            } else if hero == best {
                counts.ties = counts.ties + 1;
            } else {
                counts.losses = counts.losses + 1;
            }
            return ;
        }
        let n = cards.len();
        proof {
            reveal(pool_ok);
        }
        let mut i: usize = 0;
        while i < n
            invariant
                i <= n,
                n == cards@.len(),
                1 <= left <= 3,
                n <= 52,
                taken@ == old(taken)@,
                pool_ok(cards@, board@, taken@),
                old(counts)@.total() + showdown_cap(left as nat) <= u64::MAX,
                counts@ == old(counts)@.plus(
                    pairs_tally(
                        hero as int,
                        cards@,
                        board@,
                        taken@,
                        best as int,
                        left as nat,
                        i as int,
                    ),
                ),
            decreases n - i,
        {
            let ghost row_start = counts@;
            if !is_taken(taken, i) {
                let mut j: usize = i + 1;
                while j < n
                    invariant
                        i < j <= n || (j == i + 1 && i < n),
                        n == cards@.len(),
                        1 <= left <= 3,
                        n <= 52,
                        taken@ == old(taken)@,
                        !taken@.contains(i),
                        pool_ok(cards@, board@, taken@),
                        old(counts)@.total() + showdown_cap(left as nat) <= u64::MAX,
                        row_start == old(counts)@.plus(
                            pairs_tally(
                                hero as int,
                                cards@,
                                board@,
                                taken@,
                                best as int,
                                left as nat,
                                i as int,
                            ),
                        ),
                        counts@ == row_start.plus(
                            row_tally(
                                hero as int,
                                cards@,
                                board@,
                                taken@,
                                best as int,
                                left as nat,
                                i as int,
                                j as int,
                            ),
                        ),
                    decreases n - j,
                {
                    if !is_taken(taken, j) {
                        proof {
                            lemma_opponent_rankable(cards@, board@, taken@, i as int, j as int);
                            lemma_pairs_bound(
                                hero as int,
                                cards@,
                                board@,
                                taken@,
                                best as int,
                                left as nat,
                                i as int,
                            );
                            lemma_row_bound(
                                hero as int,
                                cards@,
                                board@,
                                taken@,
                                best as int,
                                left as nat,
                                i as int,
                                j as int,
                            );
                            lemma_best_of(opponent_hand(cards@, board@, i as int, j as int), 21);
                            lemma_cap_steps(0, left as nat);
                            lemma_room(i as int, j as int, showdown_cap((left - 1) as nat));
                        }
                        let opponent = HoleCards::new(cards[i], cards[j]);
                        let strength = self.evaluator.evaluate_7cards_fast(
                            &opponent.combine_with_board(*board),
                        );
                        let best_now = if strength < best {
                            strength
                        } else {
                            best
                        };
                        taken.push(i);
                        taken.push(j);
                        self.enumerate_multiway(hero, board, cards, taken, best_now, left - 1, counts);
                        taken.pop();
                        taken.pop();
                        assert(taken@ =~= old(taken)@);
                    }
                    j = j + 1;
                }
            }
            i = i + 1;
        }
    }

    /// Counts all ways to complete the board from the cards of the deck at the positions
    /// from `from` on and then to deal hole cards to the opponents.
    fn enumerate_runouts(
        &self,
        hole_cards: HoleCards,
        board: &mut Vec<Card>,
        cards: &[Card],
        taken: &mut Vec<usize>,
        from: usize,
        opponents: usize,
        counts: &mut Counts,
    )
        requires
            opponents <= 3,
            old(board)@.len() <= 5,
            table_ok(hole_cards, cards@, old(board)@, old(taken)@, from as int),
            old(counts)@.total() + runout_cap(5 - old(board)@.len(), opponents as nat) <= u64::MAX,
        ensures
            final(counts)@ == old(counts)@.plus(
                runout_tally(
                    hole_cards,
                    cards@,
                    old(board)@,
                    old(taken)@,
                    from as int,
                    opponents as nat,
                ),
            ),
            final(taken)@ == old(taken)@,
            final(board)@ == old(board)@,
        decreases 5 - old(board)@.len(),
    {
        if board.len() == 5 {
            let full_board = [board[0], board[1], board[2], board[3], board[4]];
            assert(full_board@ =~= board@);
            proof {
                lemma_hero_rankable(hole_cards, cards@, board@, taken@, from as int);
            }
            let hero = self.evaluator.evaluate_7cards_fast(&hole_cards.combine_with_board(full_board));
            self.enumerate_multiway(hero, &full_board, cards, taken, u16::MAX, opponents, counts);
            return ;
        }
        let n = cards.len();
        proof {
            reveal(pool_ok);
            reveal(table_ok);
        }
        let mut x: usize = from;
        while x < n
            invariant
                from <= x <= n || (x == from && from > n),
                n == cards@.len(),
                n <= 52,
                opponents <= 3,
                board@ == old(board)@,
                taken@ == old(taken)@,
                board@.len() < 5,
                table_ok(hole_cards, cards@, board@, taken@, from as int),
                old(counts)@.total() + runout_cap(5 - board@.len(), opponents as nat) <= u64::MAX,
                counts@ == old(counts)@.plus(
                    runout_sum(
                        hole_cards,
                        cards@,
                        board@,
                        taken@,
                        from as int,
                        opponents as nat,
                        x as int,
                    ),
                ),
            decreases n - x,
        {
            proof {
                lemma_table_grows(hole_cards, cards@, board@, taken@, from as int, x as int);
                lemma_runout_sum_bound(
                    hole_cards,
                    cards@,
                    board@,
                    taken@,
                    from as int,
                    opponents as nat,
                    x as int,
                );
                lemma_cap_steps(5 - board@.len(), opponents as nat);
                lemma_room(0, x as int, runout_cap(4 - board@.len(), opponents as nat));
                lemma_room(0, x + 1, runout_cap(4 - board@.len(), opponents as nat));
            }
            board.push(cards[x]);
            taken.push(x);
            self.enumerate_runouts(hole_cards, board, cards, taken, x + 1, opponents, counts);
            board.pop();
            taken.pop();
            assert(board@ =~= old(board)@);
            assert(taken@ =~= old(taken)@);
            x = x + 1;
        }
    }

    /// Counts every deal for the hero's cards on the given board, of any supported length.
    fn enumerate(&self, hole_cards: HoleCards, board: &Board, remaining: &Deck, opponents: usize) -> (r:
        EquityResult)
        requires
            valid_deal(hole_cards, board@),
            remaining@ == unseen_cards(hole_cards, board@),
            1 <= opponents <= 3,
        ensures
            r.wf(),
            r.opponents_value() == opponents,
            r.tally() == runout_tally(
                hole_cards,
                unseen_cards(hole_cards, board@),
                board@,
                Seq::<usize>::empty(),
                0,
                opponents as nat,
            ),
    {
        let cards = remaining.cards();
        let on_board = board.cards();
        let mut dealt: Vec<Card> = Vec::new();
        let mut i: usize = 0;
        while i < on_board.len()
            invariant
                i <= on_board@.len(),
                dealt@ == on_board@.take(i as int),
            decreases on_board@.len() - i,
        {
            dealt.push(on_board[i]);
            i = i + 1;
            assert(dealt@ =~= on_board@.take(i as int));
        }
        assert(dealt@ =~= board@);
        let mut taken: Vec<usize> = Vec::new();
        let mut counts = Counts { wins: 0, ties: 0, losses: 0 };
        proof {
            lemma_full_deck();
            lemma_without(full_deck(), known_cards(hole_cards, board@));
            let known = known_cards(hole_cards, board@);
            assert(known[0] == hole_cards.first_value());
            assert(known[1] == hole_cards.second_value());
            assert(known.contains(known[0]));
            assert(known.contains(known[1]));
            assert forall|b: int| 0 <= b < board@.len() implies known.contains(#[trigger] board@[b])
                && board@[b].wf() && board@[b] != known[0] && board@[b] != known[1] by {
                assert(known[b + 2] == board@[b]);
            }
            assert forall|a: int, b: int| 0 <= a < b < board@.len() implies board@[a]
                != board@[b] by {
                assert(known[a + 2] == board@[a]);
                assert(known[b + 2] == board@[b]);
            }
            assert forall|x: int| 0 <= x < cards@.len() implies (#[trigger] cards@[x]).wf()
                && !board@.contains(cards@[x]) by {
                assert(cards@.contains(cards@[x]));
                assert(full_deck().contains(cards@[x]));
                let p = choose|p: int| 0 <= p < 52 && full_deck()[p] == cards@[x];
                assert(full_deck()[p].wf());
            }
            reveal(pool_ok);
            reveal(table_ok);
            assert(table_ok(hole_cards, cards@, dealt@, taken@, 0));
            lemma_runout_bound(hole_cards, cards@, dealt@, taken@, 0, opponents as nat);
            lemma_cap_steps(5 - dealt@.len(), opponents as nat);
        }
        self.enumerate_runouts(hole_cards, &mut dealt, cards, &mut taken, 0, opponents, &mut counts);
        EquityResult::from_counts(counts.wins, counts.ties, counts.losses, opponents)
    }

    /// Equity on the river: every deal of hole cards to one, two or three opponents.
    fn calculate_river(&self, hole_cards: HoleCards, board: &Board, remaining: &Deck, num_opponents: usize) -> (r:
        EquityResult)
        requires
            valid_deal(hole_cards, board@),
            board@.len() == 5,
            remaining@ == unseen_cards(hole_cards, board@),
        ensures
            r.wf(),
            r.opponents_value() == num_opponents,
            r.tally() == exhaustive_tally(hole_cards, board@, num_opponents as nat),
    {
        if num_opponents < 1 || num_opponents > 3 {
            return EquityResult::from_counts(0, 0, 0, num_opponents);
        }
        self.enumerate(hole_cards, board, remaining, num_opponents)
    }

    /// Equity on the turn: every river card, then every deal of hole cards to one, two or
    /// three opponents.
    fn calculate_turn(&self, hole_cards: HoleCards, board: &Board, remaining: &Deck, num_opponents: usize) -> (r:
        EquityResult)
        requires
            valid_deal(hole_cards, board@),
            board@.len() == 4,
            remaining@ == unseen_cards(hole_cards, board@),
        ensures
            r.wf(),
            r.opponents_value() == num_opponents,
            r.tally() == exhaustive_tally(hole_cards, board@, num_opponents as nat),
    {
        if num_opponents < 1 || num_opponents > 3 {
            return EquityResult::from_counts(0, 0, 0, num_opponents);
        }
        self.enumerate(hole_cards, board, remaining, num_opponents)
    }

    /// Equity on the flop: every turn and river card, then every deal of hole cards to one,
    /// two or three opponents.
    fn calculate_flop(&self, hole_cards: HoleCards, board: &Board, remaining: &Deck, num_opponents: usize) -> (r:
        EquityResult)
        requires
            valid_deal(hole_cards, board@),
            board@.len() == 3,
            remaining@ == unseen_cards(hole_cards, board@),
        ensures
            r.wf(),
            r.opponents_value() == num_opponents,
            r.tally() == exhaustive_tally(hole_cards, board@, num_opponents as nat),
    {
        if num_opponents < 1 || num_opponents > 3 {
            return EquityResult::from_counts(0, 0, 0, num_opponents);
        }
        self.enumerate(hole_cards, board, remaining, num_opponents)
    }

    /// Equity before the flop against one opponent: every board of five cards, then every
    /// deal of hole cards to the opponent. Against more opponents nothing is enumerated.
    fn calculate_preflop(&self, hole_cards: HoleCards, board: &Board, remaining: &Deck, num_opponents: usize) -> (r:
        EquityResult)
        requires
            valid_deal(hole_cards, board@),
            board@.len() == 0,
            remaining@ == unseen_cards(hole_cards, board@),
        ensures
            r.wf(),
            r.opponents_value() == num_opponents,
            r.tally() == exhaustive_tally(hole_cards, board@, num_opponents as nat),
    {
        if num_opponents != 1 {
            return EquityResult::from_counts(0, 0, 0, num_opponents);
        }
        self.enumerate(hole_cards, board, remaining, num_opponents)
    }

    /// The exact counts of wins, ties and losses over every deal; no deal counted where the
    /// calculator does not enumerate (see `enumerable`).
    pub fn count(&self, hole_cards: &HoleCards, board: &Board, num_opponents: usize) -> (r:
        EquityResult)
        requires
            valid_deal(*hole_cards, board@),
        ensures
            r.wf(),
            r.opponents_value() == num_opponents,
            r.tally() == exhaustive_tally(*hole_cards, board@, num_opponents as nat),
            !enumerable(board@.len(), num_opponents as nat) ==> r.samples_value() == 0,
    {
        let remaining = Self::remaining_deck(*hole_cards, board);
        let length = board.len();
        if length == 5 {
            self.calculate_river(*hole_cards, board, &remaining, num_opponents)
        } else if length == 4 {
            self.calculate_turn(*hole_cards, board, &remaining, num_opponents)
        } else if length == 3 {
            self.calculate_flop(*hole_cards, board, &remaining, num_opponents)
        } else if length == 0 {
            self.calculate_preflop(*hole_cards, board, &remaining, num_opponents)
        } else {
            EquityResult::from_counts(0, 0, 0, num_opponents)
        }
    }
}

impl<E: HandEvaluator> EquityCalculator for ExhaustiveEquityCalculator<E> {
    fn calculate(&self, hole_cards: &HoleCards, board: &Board, num_opponents: usize) -> (r:
        EquityResult)
        ensures
            r.tally() == exhaustive_tally(*hole_cards, board@, num_opponents as nat),
    {
        self.count(hole_cards, board, num_opponents)
    }

    /// The number of samples is not used: every deal is enumerated.
    fn calculate_sampled(
        &self,
        hole_cards: &HoleCards,
        board: &Board,
        num_opponents: usize,
        samples: u32,
    ) -> (r: EquityResult)
        ensures
            r.tally() == exhaustive_tally(*hole_cards, board@, num_opponents as nat),
    {
        self.count(hole_cards, board, num_opponents)
    }
}

} // verus!
