//! The capability of storing snapshots of games, and when to take them.
use vstd::prelude::*;
use crate::clock::Timestamp;
use crate::event_store::GameId;
use crate::event_store::Version;

verus! {

/// Why a store of snapshots failed.
#[derive(Debug, Clone, PartialEq, Eq)]
pub enum SnapshotError {
    /// The store holds no snapshot of the game.
    NotFound(GameId),
    /// The storage failed.
    StorageError(String),
    /// A snapshot could not be written or read.
    SerializationError(String),
}

impl SnapshotError {
    /// The message of the error.
    pub open spec fn text_spec(self) -> Seq<char> {
        match self {
            SnapshotError::NotFound(id) => "snapshot not found: "@ + id@,
            SnapshotError::StorageError(message) => "storage error: "@ + message@,
            SnapshotError::SerializationError(message) => "serialization error: "@ + message@,
        }
    }

    /// The message of the error.
    pub fn to_string(&self) -> (r: String)
        ensures
            r@ == self.text_spec(),
    {
        match self {
            SnapshotError::NotFound(id) => {
                let mut text = String::from_str("snapshot not found: ");
                text.append(id.as_str());
                text
            },
            SnapshotError::StorageError(message) => {
                let mut text = String::from_str("storage error: ");
                text.append(message.as_str());
                text
            },
            SnapshotError::SerializationError(message) => {
                let mut text = String::from_str("serialization error: ");
                text.append(message.as_str());
                text
            },
        }
    }
}

/// The state of a game at a version.
#[derive(Debug, Clone)]
pub struct Snapshot<S> {
    /// The state.
    pub state: S,
    /// The version of the game that the state belongs to.
    pub version: Version,
    /// When the snapshot was taken.
    pub timestamp: Timestamp,
    /// The game.
    pub game_id: GameId,
}

impl<S> Snapshot<S> {
    /// A snapshot of a state with its version, time and game.
    pub fn new(state: S, version: Version, timestamp: Timestamp, game_id: GameId) -> (r: Self)
        ensures
            r.state == state,
            r.version == version,
            r.timestamp == timestamp,
            r.game_id == game_id,
    {
        Snapshot { state, version, timestamp, game_id }
    }
}

/// Something that stores one snapshot for each game.
pub trait SnapshotStore<S>: Send + Sync {
    /// Stores a snapshot in place of the game's earlier one.
    fn save(&self, snapshot: &Snapshot<S>) -> (r: Result<(), SnapshotError>);

    /// The snapshot of a game.
    fn load(&self, game_id: &GameId) -> (r: Result<Snapshot<S>, SnapshotError>);

    /// Deletes the snapshot of a game.
    fn delete(&self, game_id: &GameId) -> (r: Result<(), SnapshotError>);

    /// Whether the store holds a snapshot of a game.
    fn contains(&self, game_id: &GameId) -> (r: bool);
}

/// When to take a snapshot.
#[derive(Debug, Clone, Copy)]
pub struct SnapshotPolicy {
    /// A snapshot is due at every version that is a multiple of this number.
    pub every_n_events: u64,
    /// A snapshot is due once this many events came after the last one.
    pub max_events_since_snapshot: u64,
}

impl Default for SnapshotPolicy {
    fn default() -> (r: SnapshotPolicy)
        ensures
            r.every_n_events == 100,
            r.max_events_since_snapshot == 100,
    {
        SnapshotPolicy { every_n_events: 100, max_events_since_snapshot: 100 }
    }
}

impl SnapshotPolicy {
    /// Whether a snapshot is due at a version: the events since the last snapshot have
    /// reached the limit, or the version is above 0 and a multiple of `every_n_events`.
    /// No version above 0 is a multiple of 0.
    pub open spec fn due(self, current_version: u64, last_snapshot_version: u64) -> bool {
        let events_since = if current_version >= last_snapshot_version {
            current_version - last_snapshot_version
        } else {
            0
        };
        events_since >= self.max_events_since_snapshot || (current_version > 0
            && self.every_n_events != 0 && current_version % self.every_n_events == 0)
    }

    /// Whether a snapshot is due at a version.
    pub fn should_snapshot(&self, current_version: Version, last_snapshot_version: Version) -> (r:
        bool)
        ensures
            r == self.due(current_version, last_snapshot_version),
    {
        let events_since = current_version.saturating_sub(last_snapshot_version);
        events_since >= self.max_events_since_snapshot || (current_version > 0
            && self.every_n_events != 0 && current_version % self.every_n_events == 0)
    }
}

} // verus!
