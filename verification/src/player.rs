//! Player identification and table positions.
use vstd::prelude::*;
use vstd::std_specs::convert::FromSpecImpl;
use crate::chips::decimal_text;

verus! {

/// The seat number of a player.
#[derive(Clone, Copy, Debug, PartialEq, Eq, Hash, PartialOrd, Ord, Structural)]
pub struct PlayerId(pub u8);

impl PlayerId {
    /// The player with the given seat number.
    pub fn new(id: u8) -> (r: PlayerId)
        ensures
            r == PlayerId(id),
    {
        PlayerId(id)
    }

    /// The seat number.
    pub fn value(self) -> (r: u8)
        ensures
            r == self.0,
    {
        self.0
    }

    /// The seat number as an index into per-player tables.
    pub fn as_index(self) -> (r: usize)
        ensures
            r == self.0,
    {
        self.0 as usize
    }

    /// The text of the player: "Player " and the seat number.
    pub fn to_string(&self) -> (r: String)
        ensures
            r@ == "Player "@ + crate::chips::Chips::digits(self.0 as nat),
    {
        let mut text = String::from_str("Player ");
        let number = decimal_text(self.0 as u64);
        text.append(number.as_str());
        text
    }
}

impl From<u8> for PlayerId {
    fn from(id: u8) -> (r: PlayerId) {
        PlayerId(id)
    }
}

impl FromSpecImpl<u8> for PlayerId {
    open spec fn obeys_from_spec() -> bool {
        true
    }

    open spec fn from_spec(id: u8) -> PlayerId {
        PlayerId(id)
    }
}

impl From<usize> for PlayerId {
    /// Keeps the low eight bits of the number.
    fn from(id: usize) -> (r: PlayerId) {
        PlayerId((id % 256) as u8)
    }
}

impl FromSpecImpl<usize> for PlayerId {
    open spec fn obeys_from_spec() -> bool {
        true
    }

    open spec fn from_spec(id: usize) -> PlayerId {
        PlayerId((id % 256) as u8)
    }
}

/// A position at the table.
#[derive(Clone, Copy, Debug, PartialEq, Eq, Hash, Structural)]
pub enum Position {
    Button,
    SmallBlind,
    BigBlind,
    UTG,
    UTG1,
    UTG2,
    MP,
    MP1,
    Hijack,
    Cutoff,
}

impl Position {
    /// The usual abbreviation of the position.
    pub open spec fn abbrev_text(self) -> Seq<char> {
        match self {
            Position::Button => "BTN"@,
            Position::SmallBlind => "SB"@,
            Position::BigBlind => "BB"@,
            Position::UTG => "UTG"@,
            Position::UTG1 => "UTG+1"@,
            Position::UTG2 => "UTG+2"@,
            Position::MP => "MP"@,
            Position::MP1 => "MP+1"@,
            Position::Hijack => "HJ"@,
            Position::Cutoff => "CO"@,
        }
    }

    /// The positions between the big blind and the cutoff at a table of `players` seats,
    /// in the order in which they act.
    pub open spec fn middle_seats(players: int) -> Seq<Position> {
        if players <= 3 {
            seq![]
        } else if players == 4 {
            seq![Position::UTG]
        } else if players == 5 {
            seq![Position::UTG]
        } else if players == 6 {
            seq![Position::UTG, Position::Hijack]
        } else if players == 7 {
            seq![Position::UTG, Position::MP, Position::Hijack]
        } else if players == 8 {
            seq![Position::UTG, Position::UTG1, Position::MP, Position::Hijack]
        } else if players == 9 {
            seq![Position::UTG, Position::UTG1, Position::MP, Position::MP1, Position::Hijack]
        } else {
            seq![
                Position::UTG,
                Position::UTG1,
                Position::UTG2,
                Position::MP,
                Position::MP1,
                Position::Hijack,
            ]
        }
    }

    /// The positions at a table of `players` seats (2 to 10), starting at the button.
    ///
    /// Heads up there is no small blind; from five seats on the last seat is the cutoff.
    pub open spec fn seats(players: int) -> Seq<Position> {
        if players == 2 {
            seq![Position::Button, Position::BigBlind]
        } else {
            seq![Position::Button, Position::SmallBlind, Position::BigBlind]
                + Position::middle_seats(players) + if players >= 5 {
                seq![Position::Cutoff]
            } else {
                seq![]
            }
        }
    }

    /// The usual abbreviation of the position.
    pub fn abbrev(self) -> (r: &'static str)
        ensures
            r@ == self.abbrev_text(),
    {
        match self {
            Position::Button => "BTN",
            Position::SmallBlind => "SB",
            Position::BigBlind => "BB",
            Position::UTG => "UTG",
            Position::UTG1 => "UTG+1",
            Position::UTG2 => "UTG+2",
            Position::MP => "MP",
            Position::MP1 => "MP+1",
            Position::Hijack => "HJ",
            Position::Cutoff => "CO",
        }
    }

    /// Whether the position posts a blind.
    pub fn is_blind(self) -> (r: bool)
        ensures
            r == (self == Position::SmallBlind || self == Position::BigBlind),
    {
        match self {
            Position::SmallBlind | Position::BigBlind => true,
            _ => false,
        }
    }

    /// Whether the position acts late: button, cutoff or hijack.
    pub fn is_late(self) -> (r: bool)
        ensures
            r == (self == Position::Button || self == Position::Cutoff || self
                == Position::Hijack),
    {
        match self {
            Position::Button | Position::Cutoff | Position::Hijack => true,
            _ => false,
        }
    }

    /// Whether the position acts early: one of the three seats under the gun.
    pub fn is_early(self) -> (r: bool)
        ensures
            r == (self == Position::UTG || self == Position::UTG1 || self == Position::UTG2),
    {
        match self {
            Position::UTG | Position::UTG1 | Position::UTG2 => true,
            _ => false,
        }
    }

    /// The positions at a table of `players` seats, starting at the button; `None` unless
    /// there are 2 to 10 seats.
    pub fn for_table_size(players: usize) -> (r: Option<Vec<Position>>)
        ensures
            2 <= players <= 10 ==> r is Some && r->0@ == Position::seats(players as int) && r->0@.len()
                == players,
            !(2 <= players <= 10) ==> r is None,
    {
        if players < 2 || players > 10 {
            return None;
        }
        let mut positions: Vec<Position> = Vec::new();
        positions.push(Position::Button);
        if players == 2 {
            positions.push(Position::BigBlind);
            assert(positions@ =~= Position::seats(2));
            return Some(positions);
        }
        positions.push(Position::SmallBlind);
        positions.push(Position::BigBlind);
        if players >= 4 {
            positions.push(Position::UTG);
        }
        if players >= 8 {
            positions.push(Position::UTG1);
        }
        if players >= 10 {
            positions.push(Position::UTG2);
        }
        if players >= 7 {
            positions.push(Position::MP);
        }
        if players >= 9 {
            positions.push(Position::MP1);
        }
        if players >= 6 {
            positions.push(Position::Hijack);
        }
        if players >= 5 {
            positions.push(Position::Cutoff);
        }
        assert(positions@ =~= Position::seats(players as int));
        Some(positions)
    }

    /// The usual abbreviation of the position.
    pub fn to_string(&self) -> (r: String)
        ensures
            r@ == self.abbrev_text(),
    {
        String::from_str(self.abbrev())
    }
}

} // verus!
