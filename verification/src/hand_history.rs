//! The capability of recording hands that were played.
use vstd::prelude::*;
use crate::board::Board;
use crate::card::Card;
use crate::hand::Hand;

verus! {

/// The identifier of a recorded hand.
pub type HandId = String;

/// The record of a hand.
#[derive(Debug, Clone)]
pub struct HandRecord {
    /// The identifier of the hand.
    pub id: HandId,
    /// The number of players.
    pub num_players: usize,
    /// The hole cards of each player.
    pub hole_cards: Vec<[Card; 2]>,
    /// The board at the end of the hand.
    pub board: Board,
    /// The best hand of each player, where the hand was shown down.
    pub final_hands: Option<Vec<Hand>>,
    /// The players who won.
    pub winners: Vec<usize>,
}

/// Why a hand history failed.
#[derive(Debug, Clone, PartialEq, Eq)]
pub enum HandHistoryError {
    /// A record could not be written.
    WriteError(String),
    /// A record could not be read.
    ReadError(String),
    /// The history holds no such hand.
    NotFound(HandId),
}

impl HandHistoryError {
    /// The message of the error.
    pub open spec fn text_spec(self) -> Seq<char> {
        match self {
            HandHistoryError::WriteError(message) => "write error: "@ + message@,
            HandHistoryError::ReadError(message) => "read error: "@ + message@,
            HandHistoryError::NotFound(id) => "hand not found: "@ + id@,
        }
    }

    /// The message of the error.
    pub fn to_string(&self) -> (r: String)
        ensures
            r@ == self.text_spec(),
    {
        match self {
            HandHistoryError::WriteError(message) => {
                let mut text = String::from_str("write error: ");
                text.append(message.as_str());
                text
            },
            HandHistoryError::ReadError(message) => {
                let mut text = String::from_str("read error: ");
                text.append(message.as_str());
                text
            },
            HandHistoryError::NotFound(id) => {
                let mut text = String::from_str("hand not found: ");
                text.append(id.as_str());
                text
            },
        }
    }
}

/// Something that writes records of hands.
pub trait HandHistoryWriter: Send + Sync {
    /// Writes the record of a hand.
    fn write(&self, record: &HandRecord) -> (r: Result<(), HandHistoryError>);
}

/// Something that reads records of hands.
pub trait HandHistoryReader: Send + Sync {
    /// The record of a hand.
    fn read(&self, id: &HandId) -> (r: Result<HandRecord, HandHistoryError>);

    /// The identifiers of the hands recorded last, at most `limit` of them.
    fn list_recent(&self, limit: usize) -> (r: Result<Vec<HandId>, HandHistoryError>);
}

} // verus!
