//! Playing cards in a bit-packed encoding.
//!
//! A card is one 32-bit word:
//!
//! ```text
//! +--------+--------+--------+--------+
//! |xxxbbbbb|bbbbbbbb|cdhsrrrr|pppppppp|
//! +--------+--------+--------+--------+
//! ```
//!
//! * `p`: the prime number of the rank (2 for a deuce up to 41 for an ace),
//! * `r`: the rank index (0 for a deuce up to 12 for an ace),
//! * `cdhs`: one bit per suit,
//! * `b`: one bit per rank,
//! * `x`: unused.
use vstd::prelude::*;
use vstd::std_specs::convert::FromSpecImpl;

verus! {

/// The prime number that stands for the rank with the given index.
pub open spec fn prime_of(rank: u8) -> u32 {
    if rank == 0 {
        2
    } else if rank == 1 {
        3
    } else if rank == 2 {
        5
    } else if rank == 3 {
        7
    } else if rank == 4 {
        11
    } else if rank == 5 {
        13
    } else if rank == 6 {
        17
    } else if rank == 7 {
        19
    } else if rank == 8 {
        23
    } else if rank == 9 {
        29
    } else if rank == 10 {
        31
    } else if rank == 11 {
        37
    } else {
        41
    }
}

/// The 32-bit word that encodes the card of the given rank and suit.
pub open spec fn encode(rank: u8, suit: u8) -> u32 {
    prime_of(rank) | ((rank as u32) << 8u32) | (1u32 << ((suit + 12) as u32)) | (1u32 << ((rank
        + 16) as u32))
}

/// The rank index stored in an encoded card.
pub open spec fn rank_field(raw: u32) -> u8 {
    ((raw >> 8u32) & 0xFu32) as u8
}

/// The suit index stored, one-hot, in an encoded card.
pub open spec fn suit_field(raw: u32) -> u8 {
    let bits = (raw >> 12u32) & 0xFu32;
    if bits == 1 {
        0
    } else if bits == 2 {
        1
    } else if bits == 4 {
        2
    } else {
        3
    }
}

/// An encoded card is valid when it is the encoding of its own rank and suit.
pub open spec fn valid_raw(raw: u32) -> bool {
    rank_field(raw) < 13 && raw == encode(rank_field(raw), suit_field(raw))
}

/// The fields of an encoded card can be read back with shifts and masks.
pub proof fn lemma_encode_fields(rank: u8, suit: u8)
    by (bit_vector)
    requires
        rank < 13,
        suit < 4,
    ensures
        encode(rank, suit) & 0xFF == prime_of(rank),
        (encode(rank, suit) >> 8u32) & 0xF == rank as u32,
        (encode(rank, suit) >> 12u32) & 0xF == 1u32 << (suit as u32),
        encode(rank, suit) >> 16u32 == 1u32 << (rank as u32),
        encode(rank, suit) & 0xF000 == 1u32 << ((suit + 12) as u32),
{
}

/// A one-hot suit mask decodes to the suit it was made from.
pub proof fn lemma_suit_mask(suit: u8)
    by (bit_vector)
    requires
        suit < 4,
    ensures
        suit == 0 <==> (1u32 << (suit as u32)) == 1,
        suit == 1 <==> (1u32 << (suit as u32)) == 2,
        suit == 2 <==> (1u32 << (suit as u32)) == 4,
        suit == 3 <==> (1u32 << (suit as u32)) == 8,
{
}

/// Encoding then decoding gives the rank and suit back, and every encoding is valid.
pub proof fn lemma_encode_valid(rank: u8, suit: u8)
    requires
        rank < 13,
        suit < 4,
    ensures
        rank_field(encode(rank, suit)) == rank,
        suit_field(encode(rank, suit)) == suit,
        valid_raw(encode(rank, suit)),
{
    lemma_encode_fields(rank, suit);
    lemma_suit_mask(suit);
}

/// Card suit.
#[derive(Copy, Clone, Debug, PartialEq, Eq, Hash, Structural)]
pub enum Suit {
    Clubs,
    Diamonds,
    Hearts,
    Spades,
}

impl Suit {
    /// The index of the suit: 0 for clubs up to 3 for spades.
    pub open spec fn index(self) -> u8 {
        match self {
            Suit::Clubs => 0,
            Suit::Diamonds => 1,
            Suit::Hearts => 2,
            Suit::Spades => 3,
        }
    }

    /// The suit with the given index, if the index is below 4.
    pub open spec fn of_index(value: u8) -> Option<Suit> {
        if value == 0 {
            Some(Suit::Clubs)
        } else if value == 1 {
            Some(Suit::Diamonds)
        } else if value == 2 {
            Some(Suit::Hearts)
        } else if value == 3 {
            Some(Suit::Spades)
        } else {
            None
        }
    }

    /// The character that names the suit.
    pub open spec fn letter(self) -> char {
        match self {
            Suit::Clubs => 'c',
            Suit::Diamonds => 'd',
            Suit::Hearts => 'h',
            Suit::Spades => 's',
        }
    }

    /// The suit that a character names; both cases are accepted.
    pub open spec fn of_letter(c: char) -> Option<Suit> {
        if c == 'c' || c == 'C' {
            Some(Suit::Clubs)
        } else if c == 'd' || c == 'D' {
            Some(Suit::Diamonds)
        } else if c == 'h' || c == 'H' {
            Some(Suit::Hearts)
        } else if c == 's' || c == 'S' {
            Some(Suit::Spades)
        } else {
            None
        }
    }

    /// Converts a number (0 to 3) to its suit.
    pub fn from_u8(value: u8) -> (r: Option<Suit>)
        ensures
            r == Suit::of_index(value),
            value < 4 ==> r is Some && r->0.index() == value,
            value >= 4 ==> r is None,
    {
        match value {
            0 => Some(Suit::Clubs),
            1 => Some(Suit::Diamonds),
            2 => Some(Suit::Hearts),
            3 => Some(Suit::Spades),
            _ => None,
        }
    }

    /// The number of the suit: 0 for clubs up to 3 for spades.
    pub fn as_u8(self) -> (r: u8)
        ensures
            r == self.index(),
            r < 4,
    {
        match self {
            Suit::Clubs => 0,
            Suit::Diamonds => 1,
            Suit::Hearts => 2,
            Suit::Spades => 3,
        }
    }

    /// The display character of the suit.
    pub fn as_char(self) -> (r: char)
        ensures
            r == self.letter(),
    {
        match self {
            Suit::Clubs => 'c',
            Suit::Diamonds => 'd',
            Suit::Hearts => 'h',
            Suit::Spades => 's',
        }
    }

    /// The mask of the suit in the card encoding: a single bit at position index + 12.
    pub fn bit_mask(self) -> (r: u32)
        ensures
            r == 1u32 << ((self.index() + 12) as u32),
    {
        let shift: u32 = self.as_u8() as u32 + 12;
        1u32 << shift
    }

    /// The four suits in order: clubs, diamonds, hearts, spades.
    pub fn all() -> (r: Vec<Suit>)
        ensures
            r@ == seq![Suit::Clubs, Suit::Diamonds, Suit::Hearts, Suit::Spades],
    {
        let mut suits: Vec<Suit> = Vec::new();
        suits.push(Suit::Clubs);
        suits.push(Suit::Diamonds);
        suits.push(Suit::Hearts);
        suits.push(Suit::Spades);
        assert(suits@ =~= seq![Suit::Clubs, Suit::Diamonds, Suit::Hearts, Suit::Spades]);
        suits
    }

    /// Reads a suit from its character, in either case.
    pub fn from_char(c: char) -> (r: Option<Suit>)
        ensures
            r == Suit::of_letter(c),
    {
        if c == 'c' || c == 'C' {
            Some(Suit::Clubs)
        } else if c == 'd' || c == 'D' {
            Some(Suit::Diamonds)
        } else if c == 'h' || c == 'H' {
            Some(Suit::Hearts)
        } else if c == 's' || c == 'S' {
            Some(Suit::Spades)
        } else {
            None
        }
    }

    /// What `parse` returns on the characters of a string.
    pub open spec fn parse_spec(s: Seq<char>) -> Result<Suit, ParseCardError> {
        if s.len() != 1 {
            Err(ParseCardError::InvalidSuit)
        } else {
            match Suit::of_letter(s[0]) {
                Some(suit) => Ok(suit),
                None => Err(ParseCardError::InvalidSuit),
            }
        }
    }

    /// Parses a one-character suit code.
    pub fn parse(s: &str) -> (r: Result<Suit, ParseCardError>)
        ensures
            r == Suit::parse_spec(s@),
    {
        if s.unicode_len() != 1 {
            return Err(ParseCardError::InvalidSuit);
        }
        match Suit::from_char(s.get_char(0)) {
            Some(suit) => Ok(suit),
            None => Err(ParseCardError::InvalidSuit),
        }
    }

    /// The one-character name of the suit.
    pub fn to_string(&self) -> (r: String)
        ensures
            r@ == seq![self.letter()],
    {
        let text = match self {
            Suit::Clubs => {
                proof {
                    reveal_strlit("c");
                }
                "c"
            },
            Suit::Diamonds => {
                proof {
                    reveal_strlit("d");
                }
                "d"
            },
            Suit::Hearts => {
                proof {
                    reveal_strlit("h");
                }
                "h"
            },
            Suit::Spades => {
                proof {
                    reveal_strlit("s");
                }
                "s"
            },
        };
        assert(text@ =~= seq![self.letter()]);
        String::from_str(text)
    }
}

impl std::str::FromStr for Suit {
    type Err = ParseCardError;

    fn from_str(s: &str) -> (r: Result<Self, Self::Err>)
        ensures
            r == Suit::parse_spec(s@),
    {
        Suit::parse(s)
    }
}

/// Card rank, from two up to ace.
#[derive(Copy, Clone, Debug, PartialEq, Eq, Hash, PartialOrd, Ord, Structural)]
pub enum Rank {
    Two,
    Three,
    Four,
    Five,
    Six,
    Seven,
    Eight,
    Nine,
    Ten,
    Jack,
    Queen,
    King,
    Ace,
}

impl Rank {
    /// The index of the rank: 0 for a two up to 12 for an ace.
    pub open spec fn index(self) -> u8 {
        match self {
            Rank::Two => 0,
            Rank::Three => 1,
            Rank::Four => 2,
            Rank::Five => 3,
            Rank::Six => 4,
            Rank::Seven => 5,
            Rank::Eight => 6,
            Rank::Nine => 7,
            Rank::Ten => 8,
            Rank::Jack => 9,
            Rank::Queen => 10,
            Rank::King => 11,
            Rank::Ace => 12,
        }
    }

    /// The rank with the given index, if the index is below 13.
    pub open spec fn of_index(value: u8) -> Option<Rank> {
        if value == 0 {
            Some(Rank::Two)
        } else if value == 1 {
            Some(Rank::Three)
        } else if value == 2 {
            Some(Rank::Four)
        } else if value == 3 {
            Some(Rank::Five)
        } else if value == 4 {
            Some(Rank::Six)
        } else if value == 5 {
            Some(Rank::Seven)
        } else if value == 6 {
            Some(Rank::Eight)
        } else if value == 7 {
            Some(Rank::Nine)
        } else if value == 8 {
            Some(Rank::Ten)
        } else if value == 9 {
            Some(Rank::Jack)
        } else if value == 10 {
            Some(Rank::Queen)
        } else if value == 11 {
            Some(Rank::King)
        } else if value == 12 {
            Some(Rank::Ace)
        } else {
            None
        }
    }

    /// The character that names the rank.
    pub open spec fn letter(self) -> char {
        match self {
            Rank::Two => '2',
            Rank::Three => '3',
            Rank::Four => '4',
            Rank::Five => '5',
            Rank::Six => '6',
            Rank::Seven => '7',
            Rank::Eight => '8',
            Rank::Nine => '9',
            Rank::Ten => 'T',
            Rank::Jack => 'J',
            Rank::Queen => 'Q',
            Rank::King => 'K',
            Rank::Ace => 'A',
        }
    }

    /// The rank that a character names; the letters are accepted in both cases.
    pub open spec fn of_letter(c: char) -> Option<Rank> {
        if c == '2' {
            Some(Rank::Two)
        } else if c == '3' {
            Some(Rank::Three)
        } else if c == '4' {
            Some(Rank::Four)
        } else if c == '5' {
            Some(Rank::Five)
        } else if c == '6' {
            Some(Rank::Six)
        } else if c == '7' {
            Some(Rank::Seven)
        } else if c == '8' {
            Some(Rank::Eight)
        } else if c == '9' {
            Some(Rank::Nine)
        } else if c == 'T' || c == 't' {
            Some(Rank::Ten)
        } else if c == 'J' || c == 'j' {
            Some(Rank::Jack)
        } else if c == 'Q' || c == 'q' {
            Some(Rank::Queen)
        } else if c == 'K' || c == 'k' {
            Some(Rank::King)
        } else if c == 'A' || c == 'a' {
            Some(Rank::Ace)
        } else {
            None
        }
    }

    /// Converts a number (0 to 12) to its rank.
    pub fn from_u8(value: u8) -> (r: Option<Rank>)
        ensures
            r == Rank::of_index(value),
            value < 13 ==> r is Some && r->0.index() == value,
            value >= 13 ==> r is None,
    {
        match value {
            0 => Some(Rank::Two),
            1 => Some(Rank::Three),
            2 => Some(Rank::Four),
            3 => Some(Rank::Five),
            4 => Some(Rank::Six),
            5 => Some(Rank::Seven),
            6 => Some(Rank::Eight),
            7 => Some(Rank::Nine),
            8 => Some(Rank::Ten),
            9 => Some(Rank::Jack),
            10 => Some(Rank::Queen),
            11 => Some(Rank::King),
            12 => Some(Rank::Ace),
            _ => None,
        }
    }

    /// The number of the rank: 0 for a two up to 12 for an ace.
    pub fn as_u8(self) -> (r: u8)
        ensures
            r == self.index(),
            r < 13,
    {
        match self {
            Rank::Two => 0,
            Rank::Three => 1,
            Rank::Four => 2,
            Rank::Five => 3,
            Rank::Six => 4,
            Rank::Seven => 5,
            Rank::Eight => 6,
            Rank::Nine => 7,
            Rank::Ten => 8,
            Rank::Jack => 9,
            Rank::Queen => 10,
            Rank::King => 11,
            Rank::Ace => 12,
        }
    }

    /// The display character of the rank.
    pub fn as_char(self) -> (r: char)
        ensures
            r == self.letter(),
    {
        match self {
            Rank::Two => '2',
            Rank::Three => '3',
            Rank::Four => '4',
            Rank::Five => '5',
            Rank::Six => '6',
            Rank::Seven => '7',
            Rank::Eight => '8',
            Rank::Nine => '9',
            Rank::Ten => 'T',
            Rank::Jack => 'J',
            Rank::Queen => 'Q',
            Rank::King => 'K',
            Rank::Ace => 'A',
        }
    }

    /// The prime number of the rank.
    pub fn prime(self) -> (r: u32)
        ensures
            r == prime_of(self.index()),
    {
        match self {
            Rank::Two => 2,
            Rank::Three => 3,
            Rank::Four => 5,
            Rank::Five => 7,
            Rank::Six => 11,
            Rank::Seven => 13,
            Rank::Eight => 17,
            Rank::Nine => 19,
            Rank::Ten => 23,
            Rank::Jack => 29,
            Rank::Queen => 31,
            Rank::King => 37,
            Rank::Ace => 41,
        }
    }

    /// The mask of the rank in the card encoding: a single bit at position index + 16.
    pub fn bit_mask(self) -> (r: u32)
        ensures
            r == 1u32 << ((self.index() + 16) as u32),
    {
        let shift: u32 = self.as_u8() as u32 + 16;
        1u32 << shift
    }

    /// All ranks from two to ace in ascending order.
    pub fn all() -> (r: Vec<Rank>)
        ensures
            r@.len() == 13,
            forall|i: int| 0 <= i < 13 ==> (#[trigger] r@[i]).index() == i,
    {
        let mut ranks: Vec<Rank> = Vec::new();
        let mut i: u8 = 0;
        while i < 13
            invariant
                i <= 13,
                ranks@.len() == i,
                forall|j: int| 0 <= j < i ==> (#[trigger] ranks@[j]).index() == j,
            decreases 13 - i,
        {
            match Rank::from_u8(i) {
                Some(rank) => {
                    ranks.push(rank);
                },
                None => {},
            }
            i = i + 1;
        }
        ranks
    }

    /// Reads a rank from its character; the letters are accepted in both cases.
    pub fn from_char(c: char) -> (r: Option<Rank>)
        ensures
            r == Rank::of_letter(c),
    {
        if c == '2' {
            Some(Rank::Two)
        } else if c == '3' {
            Some(Rank::Three)
        } else if c == '4' {
            Some(Rank::Four)
        } else if c == '5' {
            Some(Rank::Five)
        } else if c == '6' {
            Some(Rank::Six)
        } else if c == '7' {
            Some(Rank::Seven)
        } else if c == '8' {
            Some(Rank::Eight)
        } else if c == '9' {
            Some(Rank::Nine)
        } else if c == 'T' || c == 't' {
            Some(Rank::Ten)
        } else if c == 'J' || c == 'j' {
            Some(Rank::Jack)
        } else if c == 'Q' || c == 'q' {
            Some(Rank::Queen)
        } else if c == 'K' || c == 'k' {
            Some(Rank::King)
        } else if c == 'A' || c == 'a' {
            Some(Rank::Ace)
        } else {
            None
        }
    }

    /// What `parse` returns on the characters of a string.
    pub open spec fn parse_spec(s: Seq<char>) -> Result<Rank, ParseCardError> {
        if s.len() != 1 {
            Err(ParseCardError::InvalidRank)
        } else {
            match Rank::of_letter(s[0]) {
                Some(rank) => Ok(rank),
                None => Err(ParseCardError::InvalidRank),
            }
        }
    }

    /// Parses a one-character rank code.
    pub fn parse(s: &str) -> (r: Result<Rank, ParseCardError>)
        ensures
            r == Rank::parse_spec(s@),
    {
        if s.unicode_len() != 1 {
            return Err(ParseCardError::InvalidRank);
        }
        match Rank::from_char(s.get_char(0)) {
            Some(rank) => Ok(rank),
            None => Err(ParseCardError::InvalidRank),
        }
    }

    /// The one-character name of the rank.
    pub fn to_string(&self) -> (r: String)
        ensures
            r@ == seq![self.letter()],
    {
        let text = match self {
            Rank::Two => {
                proof {
                    reveal_strlit("2");
                }
                "2"
            },
            Rank::Three => {
                proof {
                    reveal_strlit("3");
                }
                "3"
            },
            Rank::Four => {
                proof {
                    reveal_strlit("4");
                }
                "4"
            },
            Rank::Five => {
                proof {
                    reveal_strlit("5");
                }
                "5"
            },
            Rank::Six => {
                proof {
                    reveal_strlit("6");
                }
                "6"
            },
            Rank::Seven => {
                proof {
                    reveal_strlit("7");
                }
                "7"
            },
            Rank::Eight => {
                proof {
                    reveal_strlit("8");
                }
                "8"
            },
            Rank::Nine => {
                proof {
                    reveal_strlit("9");
                }
                "9"
            },
            Rank::Ten => {
                proof {
                    reveal_strlit("T");
                }
                "T"
            },
            Rank::Jack => {
                proof {
                    reveal_strlit("J");
                }
                "J"
            },
            Rank::Queen => {
                proof {
                    reveal_strlit("Q");
                }
                "Q"
            },
            Rank::King => {
                proof {
                    reveal_strlit("K");
                }
                "K"
            },
            Rank::Ace => {
                proof {
                    reveal_strlit("A");
                }
                "A"
            },
        };
        assert(text@ =~= seq![self.letter()]);
        String::from_str(text)
    }
}

impl std::str::FromStr for Rank {
    type Err = ParseCardError;

    fn from_str(s: &str) -> (r: Result<Self, Self::Err>)
        ensures
            r == Rank::parse_spec(s@),
    {
        Rank::parse(s)
    }
}

/// Why a piece of text is not a card, a rank or a suit.
#[derive(Copy, Clone, Debug, PartialEq, Eq, Structural)]
pub enum ParseCardError {
    InvalidLength,
    InvalidRank,
    InvalidSuit,
}

impl ParseCardError {
    /// A short message for the error.
    pub fn to_string(&self) -> (r: String)
        ensures
            r@ == match self {
                ParseCardError::InvalidLength => "card string must be exactly 2 characters"@,
                ParseCardError::InvalidRank => "invalid rank character"@,
                ParseCardError::InvalidSuit => "invalid suit character"@,
            },
    {
        match self {
            ParseCardError::InvalidLength => String::from_str(
                "card string must be exactly 2 characters",
            ),
            ParseCardError::InvalidRank => String::from_str("invalid rank character"),
            ParseCardError::InvalidSuit => String::from_str("invalid suit character"),
        }
    }
}

/// A playing card, held as its 32-bit encoding.
#[derive(Copy, Clone, Debug, PartialEq, Eq, Hash, Structural)]
pub struct Card(pub(crate) u32);

impl Card {
    /// The 32-bit word held by the card.
    pub closed spec fn raw_value(self) -> u32 {
        self.0
    }

    /// Every card in executable code holds a valid encoding.
    #[verifier::type_invariant]
    pub closed spec fn holds_valid_encoding(self) -> bool {
        valid_raw(self.0)
    }

    /// The card is the encoding of some rank and suit.
    pub open spec fn wf(self) -> bool {
        valid_raw(self.raw_value())
    }

    /// The rank index of the card, 0 to 12.
    pub open spec fn rank_index(self) -> u8 {
        rank_field(self.raw_value())
    }

    /// The suit index of the card, 0 to 3.
    pub open spec fn suit_index(self) -> u8 {
        suit_field(self.raw_value())
    }

    /// The position of the card in the ordered deck: rank * 4 + suit.
    pub open spec fn deck_index(self) -> int {
        self.rank_index() * 4 + self.suit_index()
    }

    /// The card of the given rank and suit.
    pub closed spec fn of(rank: Rank, suit: Suit) -> Card {
        Card(encode(rank.index(), suit.index()))
    }

    /// The card at a position of the ordered deck.
    pub open spec fn at_index(index: int) -> Option<Card> {
        if 0 <= index < 52 {
            Some(Card::of(Rank::of_index((index / 4) as u8)->0, Suit::of_index((index % 4) as u8)->0))
        } else {
            None
        }
    }

    /// What holds of the card made from a rank and a suit.
    pub proof fn lemma_of(rank: Rank, suit: Suit)
        ensures
            Card::of(rank, suit).raw_value() == encode(rank.index(), suit.index()),
            Card::of(rank, suit).wf(),
            Card::of(rank, suit).rank_index() == rank.index(),
            Card::of(rank, suit).suit_index() == suit.index(),
    {
        lemma_encode_valid(rank.index(), suit.index());
    }

    /// A valid card is determined by its rank and suit.
    pub proof fn lemma_determined(a: Card, b: Card)
        requires
            a.wf(),
            b.wf(),
            a.rank_index() == b.rank_index(),
            a.suit_index() == b.suit_index(),
        ensures
            a == b,
    {
    }

    /// Every valid card has a rank below 13, a suit below 4, and the fields of its encoding.
    pub proof fn lemma_wf_fields(self)
        requires
            self.wf(),
        ensures
            self.rank_index() < 13,
            self.suit_index() < 4,
            self.raw_value() == encode(self.rank_index(), self.suit_index()),
            self.raw_value() & 0xFF == prime_of(self.rank_index()),
            (self.raw_value() >> 8u32) & 0xF == self.rank_index() as u32,
            (self.raw_value() >> 12u32) & 0xF == 1u32 << (self.suit_index() as u32),
            self.raw_value() >> 16u32 == 1u32 << (self.rank_index() as u32),
            self.raw_value() & 0xF000 == 1u32 << ((self.suit_index() + 12) as u32),
            0 <= self.deck_index() < 52,
    {
        let raw = self.raw_value();
        let bits = (raw >> 12u32) & 0xFu32;
        assert(suit_field(raw) < 4);
        lemma_encode_fields(rank_field(raw), suit_field(raw));
    }

    /// Builds the card of the given rank and suit.
    pub fn new(rank: Rank, suit: Suit) -> (r: Card)
        ensures
            r == Card::of(rank, suit),
            r.wf(),
            r.rank_index() == rank.index(),
            r.suit_index() == suit.index(),
    {
        let prime = rank.prime();
        let rank_number: u32 = rank.as_u8() as u32;
        let suit_number: u32 = suit.as_u8() as u32;
        let rank_nibble = rank_number << 8;
        let suit_bit = 1u32 << (suit_number + 12);
        let rank_bit = 1u32 << (rank_number + 16);
        proof {
            lemma_encode_valid(rank.index(), suit.index());
        }
        Card(prime | rank_nibble | suit_bit | rank_bit)
    }

    /// Builds a card from a rank number (0 for a two up to 12 for an ace) and a suit number
    /// (0 for clubs up to 3 for spades).
    pub fn from_raw(rank: u8, suit: u8) -> (r: Card)
        requires
            rank < 13,
            suit < 4,
        ensures
            r.wf(),
            r.rank_index() == rank,
            r.suit_index() == suit,
            Some(r) == Card::at_index(rank * 4 + suit),
    {
        let rank_value = match Rank::from_u8(rank) {
            Some(found) => found,
            None => Rank::Two,
        };
        let suit_value = match Suit::from_u8(suit) {
            Some(found) => found,
            None => Suit::Clubs,
        };
        Card::new(rank_value, suit_value)
    }

    /// Builds the card of the given rank and suit.
    pub fn from_rank_suit(rank: Rank, suit: Suit) -> (r: Card)
        ensures
            r == Card::of(rank, suit),
            r.wf(),
            r.rank_index() == rank.index(),
            r.suit_index() == suit.index(),
    {
        Card::new(rank, suit)
    }

    /// What `parse` returns on the characters of a string.
    pub open spec fn parse_spec(s: Seq<char>) -> Result<Card, ParseCardError> {
        if s.len() != 2 {
            Err(ParseCardError::InvalidLength)
        } else {
            match Rank::of_letter(s[0]) {
                None => Err(ParseCardError::InvalidRank),
                Some(rank) => match Suit::of_letter(s[1]) {
                    None => Err(ParseCardError::InvalidSuit),
                    Some(suit) => Ok(Card::of(rank, suit)),
                },
            }
        }
    }

    /// The two characters that name the card: rank, then suit.
    pub open spec fn text_spec(self) -> Seq<char> {
        seq![
            Rank::of_index(self.rank_index())->0.letter(),
            Suit::of_index(self.suit_index())->0.letter(),
        ]
    }

    /// Parses a two-character card code (rank, then suit), such as "As", "Td" or "2c".
    pub fn parse(s: &str) -> (r: Result<Card, ParseCardError>)
        ensures
            r == Card::parse_spec(s@),
            r matches Ok(card) ==> card.wf(),
    {
        if s.unicode_len() != 2 {
            return Err(ParseCardError::InvalidLength);
        }
        let rank = match Rank::from_char(s.get_char(0)) {
            Some(rank) => rank,
            None => {
                return Err(ParseCardError::InvalidRank);
            },
        };
        let suit = match Suit::from_char(s.get_char(1)) {
            Some(suit) => suit,
            None => {
                return Err(ParseCardError::InvalidSuit);
            },
        };
        Ok(Card::new(rank, suit))
    }

    /// Parses a two-character card code; `None` for anything else.
    pub fn from_string(s: &str) -> (r: Option<Card>)
        ensures
            r == match Card::parse_spec(s@) {
                Ok(card) => Some(card),
                Err(_) => None,
            },
            r matches Some(card) ==> card.wf(),
    {
        match Card::parse(s) {
            Ok(card) => Some(card),
            Err(_) => None,
        }
    }

    /// The card at a position (0 to 51) of the ordered deck; `None` for any other position.
    pub fn from_index(index: usize) -> (r: Option<Card>)
        ensures
            r == Card::at_index(index as int),
            index < 52 ==> r is Some && r->0.wf() && r->0.deck_index() == index,
            index >= 52 ==> r is None,
    {
        if index >= 52 {
            return None;
        }
        let rank = match Rank::from_u8((index / 4) as u8) {
            Some(rank) => rank,
            None => {
                return None;
            },
        };
        let suit = match Suit::from_u8((index % 4) as u8) {
            Some(suit) => suit,
            None => {
                return None;
            },
        };
        Some(Card::new(rank, suit))
    }

    /// The 52 cards of a standard deck, in order of their positions.
    pub fn all_cards() -> (r: Vec<Card>)
        ensures
            r@.len() == 52,
            forall|i: int| 0 <= i < 52 ==> Some(#[trigger] r@[i]) == Card::at_index(i),
            forall|i: int| 0 <= i < 52 ==> (#[trigger] r@[i]).wf() && r@[i].deck_index() == i,
    {
        let mut cards: Vec<Card> = Vec::new();
        let mut i: usize = 0;
        while i < 52
            invariant
                i <= 52,
                cards@.len() == i,
                forall|j: int| 0 <= j < i ==> Some(#[trigger] cards@[j]) == Card::at_index(j),
                forall|j: int| 0 <= j < i ==> (#[trigger] cards@[j]).wf() && cards@[j].deck_index() == j,
            decreases 52 - i,
        {
            match Card::from_index(i) {
                Some(card) => {
                    cards.push(card);
                },
                None => {},
            }
            i = i + 1;
        }
        cards
    }

    /// The 32-bit encoding of the card.
    pub fn raw(&self) -> (r: u32)
        ensures
            r == self.raw_value(),
            self.wf(),
    {
        proof {
            use_type_invariant(self);
        }
        self.0
    }

    /// The prime number of the card's rank (bits 0 to 7).
    pub fn prime(&self) -> (r: u32)
        ensures
            self.wf(),
            r == prime_of(self.rank_index()),
            2 <= r <= 41,
    {
        proof {
            use_type_invariant(self);
            self.lemma_wf_fields();
        }
        self.0 & 0xFF
    }

    /// The rank index of the card, from 0 (two) to 12 (ace).
    pub fn rank(&self) -> (r: u8)
        ensures
            self.wf(),
            r == self.rank_index(),
            r < 13,
    {
        proof {
            use_type_invariant(self);
            self.lemma_wf_fields();
        }
        ((self.0 >> 8) & 0xF) as u8
    }

    /// The rank of the card.
    pub fn rank_enum(&self) -> (r: Rank)
        ensures
            r.index() == self.rank_index(),
    {
        match Rank::from_u8(self.rank()) {
            Some(rank) => rank,
            None => Rank::Two,
        }
    }

    /// The one-hot suit mask of the card (bits 12 to 15, shifted down).
    pub fn suit_bits(&self) -> (r: u32)
        ensures
            self.wf(),
            r == 1u32 << (self.suit_index() as u32),
            r == (self.raw_value() >> 12u32) & 0xF,
    {
        proof {
            use_type_invariant(self);
            self.lemma_wf_fields();
        }
        (self.0 >> 12) & 0xF
    }

    /// The one-hot rank mask of the card (bits 16 to 28, shifted down).
    pub fn rank_bits(&self) -> (r: u32)
        ensures
            self.wf(),
            r == 1u32 << (self.rank_index() as u32),
            r == self.raw_value() >> 16u32,
    {
        proof {
            use_type_invariant(self);
            self.lemma_wf_fields();
        }
        self.0 >> 16
    }

    /// The suit index of the card: 0 clubs, 1 diamonds, 2 hearts, 3 spades.
    pub fn suit(&self) -> (r: u8)
        ensures
            self.wf(),
            r == self.suit_index(),
            r < 4,
    {
        let bits = self.suit_bits();
        proof {
            use_type_invariant(self);
            self.lemma_wf_fields();
            lemma_suit_mask(self.suit_index());
        }
        if bits == 1 {
            0
        } else if bits == 2 {
            1
        } else if bits == 4 {
            2
        } else {
            3
        }
    }

    /// The suit of the card.
    pub fn suit_enum(&self) -> (r: Suit)
        ensures
            r.index() == self.suit_index(),
    {
        match Suit::from_u8(self.suit()) {
            Some(suit) => suit,
            None => Suit::Clubs,
        }
    }

    /// The position of the card in the ordered deck, 0 to 51: rank * 4 + suit.
    pub fn index(&self) -> (r: usize)
        ensures
            self.wf(),
            r == self.deck_index(),
            r < 52,
    {
        let rank: usize = self.rank() as usize;
        let suit: usize = self.suit() as usize;
        rank * 4 + suit
    }

    /// Whether two cards have the same rank.
    pub fn same_rank(&self, other: &Card) -> (r: bool)
        ensures
            r == (self.rank_index() == other.rank_index()),
    {
        self.rank() == other.rank()
    }

    /// Whether two cards have the same suit.
    pub fn same_suit(&self, other: &Card) -> (r: bool)
        ensures
            r == (self.suit_index() == other.suit_index()),
    {
        let mine = self.suit_bits();
        let theirs = other.suit_bits();
        proof {
            use_type_invariant(self);
            use_type_invariant(other);
            self.lemma_wf_fields();
            other.lemma_wf_fields();
            lemma_suit_mask(self.suit_index());
            lemma_suit_mask(other.suit_index());
        }
        mine == theirs
    }

    /// The two-character name of the card: rank, then suit.
    pub fn to_string(&self) -> (r: String)
        ensures
            r@ == self.text_spec(),
    {
        let rank = self.rank_enum();
        let suit = self.suit_enum();
        let mut text = rank.to_string();
        let suit_text = suit.to_string();
        text.append(suit_text.as_str());
        proof {
            assert(Rank::of_index(self.rank_index()) == Some(rank));
            assert(Suit::of_index(self.suit_index()) == Some(suit));
            assert(text@ =~= self.text_spec());
        }
        text
    }
}

impl std::str::FromStr for Card {
    type Err = ParseCardError;

    fn from_str(s: &str) -> (r: Result<Self, Self::Err>)
        ensures
            r == Card::parse_spec(s@),
    {
        Card::parse(s)
    }
}

impl From<(Rank, Suit)> for Card {
    fn from(pair: (Rank, Suit)) -> (r: Card) {
        Card::from_rank_suit(pair.0, pair.1)
    }
}

impl FromSpecImpl<(Rank, Suit)> for Card {
    open spec fn obeys_from_spec() -> bool {
        true
    }

    open spec fn from_spec(pair: (Rank, Suit)) -> Card {
        Card::of(pair.0, pair.1)
    }
}

/// Reading a card's position and building the card at that position gives the card back.
pub proof fn lemma_index_round_trip(card: Card)
    requires
        card.wf(),
    ensures
        0 <= card.deck_index() < 52,
        Card::at_index(card.deck_index()) == Some(card),
{
    card.lemma_wf_fields();
    let rank = Rank::of_index(card.rank_index())->0;
    let suit = Suit::of_index(card.suit_index())->0;
    Card::lemma_of(rank, suit);
    Card::lemma_determined(Card::of(rank, suit), card);
}

/// Each position from 0 to 51 holds a valid card that stands at that position, so the
/// positions and the valid cards correspond one to one.
pub proof fn lemma_at_index_bijective(i: int, j: int)
    requires
        0 <= i < 52,
        0 <= j < 52,
    ensures
        Card::at_index(i) is Some,
        Card::at_index(i)->0.wf(),
        Card::at_index(i)->0.deck_index() == i,
        Card::at_index(i) == Card::at_index(j) ==> i == j,
{
    let rank_i = Rank::of_index((i / 4) as u8)->0;
    let suit_i = Suit::of_index((i % 4) as u8)->0;
    Card::lemma_of(rank_i, suit_i);
    let rank_j = Rank::of_index((j / 4) as u8)->0;
    let suit_j = Suit::of_index((j % 4) as u8)->0;
    Card::lemma_of(rank_j, suit_j);
}

/// Writing a valid card as text and parsing the text gives the card back.
pub proof fn lemma_text_round_trip(card: Card)
    requires
        card.wf(),
    ensures
        Card::parse_spec(card.text_spec()) == Ok::<Card, ParseCardError>(card),
{
    card.lemma_wf_fields();
    let rank = Rank::of_index(card.rank_index())->0;
    let suit = Suit::of_index(card.suit_index())->0;
    assert(Rank::of_letter(rank.letter()) == Some(rank));
    assert(Suit::of_letter(suit.letter()) == Some(suit));
    Card::lemma_of(rank, suit);
    Card::lemma_determined(Card::of(rank, suit), card);
}

/// Parsing succeeds exactly on two characters that name a rank and a suit, and the text of
/// the card it returns names the same rank and suit.
pub proof fn lemma_parse_round_trip(s: Seq<char>)
    requires
        Card::parse_spec(s) is Ok,
    ensures
        Card::parse_spec(Card::parse_spec(s)->Ok_0.text_spec()) == Card::parse_spec(s),
{
    let rank = Rank::of_letter(s[0])->0;
    let suit = Suit::of_letter(s[1])->0;
    Card::lemma_of(rank, suit);
    lemma_text_round_trip(Card::of(rank, suit));
}

} // verus!
