//! The capability of storing the events of games.
use vstd::prelude::*;
use crate::chips::decimal_text;
use crate::chips::Chips;
use crate::clock::Timestamp;

verus! {

/// The identifier of a game in a store.
pub type GameId = String;

/// The number of events of a game that a store holds.
pub type Version = u64;

/// An event with what the store knows about it.
#[derive(Debug, Clone)]
pub struct StoredEvent<E> {
    /// The event.
    pub event: E,
    /// The number of the event within its game, from 1.
    pub version: Version,
    /// When the event was stored.
    pub timestamp: Timestamp,
    /// The game that the event belongs to.
    pub game_id: GameId,
}

impl<E> StoredEvent<E> {
    /// An event with its version, time and game.
    pub fn new(event: E, version: Version, timestamp: Timestamp, game_id: GameId) -> (r: Self)
        ensures
            r.event == event,
            r.version == version,
            r.timestamp == timestamp,
            r.game_id == game_id,
    {
        StoredEvent { event, version, timestamp, game_id }
    }
}

/// Why a store of events failed.
#[derive(Debug, Clone, PartialEq, Eq)]
pub enum EventStoreError {
    /// The game has another version than the caller expected.
    ConcurrencyConflict { expected: Version, actual: Version },
    /// The store holds no such game.
    NotFound(GameId),
    /// The storage failed.
    StorageError(String),
    /// An event could not be written or read.
    SerializationError(String),
}

impl EventStoreError {
    /// The message of the error.
    pub open spec fn text_spec(self) -> Seq<char> {
        match self {
            EventStoreError::ConcurrencyConflict { expected, actual } =>
                "concurrency conflict: expected version "@ + Chips::digits(expected as nat)
                    + ", actual "@ + Chips::digits(actual as nat),
            EventStoreError::NotFound(id) => "game not found: "@ + id@,
            EventStoreError::StorageError(message) => "storage error: "@ + message@,
            EventStoreError::SerializationError(message) => "serialization error: "@ + message@,
        }
    }

    /// The message of the error.
    pub fn to_string(&self) -> (r: String)
        ensures
            r@ == self.text_spec(),
    {
        match self {
            EventStoreError::ConcurrencyConflict { expected, actual } => {
                let mut text = String::from_str("concurrency conflict: expected version ");
                text.append(decimal_text(*expected).as_str());
                text.append(", actual ");
                text.append(decimal_text(*actual).as_str());
                text
            },
            EventStoreError::NotFound(id) => {
                let mut text = String::from_str("game not found: ");
                text.append(id.as_str());
                text
            },
            EventStoreError::StorageError(message) => {
                let mut text = String::from_str("storage error: ");
                text.append(message.as_str());
                text
            },
            EventStoreError::SerializationError(message) => {
                let mut text = String::from_str("serialization error: ");
                text.append(message.as_str());
                text
            },
        }
    }
}

/// Something that stores the events of games, each game's events in their order.
pub trait EventStore<E>: Send + Sync {
    /// Appends events to a game that has the expected version, and returns the new version.
    fn append(&self, game_id: &GameId, events: Vec<E>, expected_version: Version) -> (r: Result<
        Version,
        EventStoreError,
    >);

    /// All events of a game.
    fn load(&self, game_id: &GameId) -> (r: Result<Vec<StoredEvent<E>>, EventStoreError>);

    /// The events of a game from a version on.
    fn load_from(&self, game_id: &GameId, from_version: Version) -> (r: Result<
        Vec<StoredEvent<E>>,
        EventStoreError,
    >);

    /// The version of a game.
    fn version(&self, game_id: &GameId) -> (r: Result<Version, EventStoreError>);

    /// Whether the store holds a game.
    fn contains(&self, game_id: &GameId) -> (r: bool);
}

} // verus!
