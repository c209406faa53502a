//! The capability of telling the world what happens in a game.
use vstd::prelude::*;
use crate::clock::Timestamp;
use crate::event_store::GameId;
use crate::read_model::PlayerId;
pub use crate::street::Street;

verus! {

/// Something that happened in a game.
#[derive(Debug, Clone, PartialEq, Eq)]
pub enum GameNotification {
    /// A game started.
    GameStarted { game_id: GameId, timestamp: Timestamp, num_players: usize, player_ids: Vec<PlayerId> },
    /// A player joined.
    PlayerJoined { game_id: GameId, timestamp: Timestamp, player_id: PlayerId },
    /// The hole cards were dealt.
    HoleCardsDealt { game_id: GameId, timestamp: Timestamp },
    /// The cards of a street were dealt.
    StreetDealt { game_id: GameId, timestamp: Timestamp, street: Street },
    /// The hand was shown down.
    Showdown { game_id: GameId, timestamp: Timestamp, winner_ids: Vec<PlayerId> },
    /// The game ended.
    GameEnded { game_id: GameId, timestamp: Timestamp },
}

impl GameNotification {
    /// The game of the notification.
    pub open spec fn game(self) -> GameId {
        match self {
            GameNotification::GameStarted { game_id, .. } => game_id,
            GameNotification::PlayerJoined { game_id, .. } => game_id,
            GameNotification::HoleCardsDealt { game_id, .. } => game_id,
            GameNotification::StreetDealt { game_id, .. } => game_id,
            GameNotification::Showdown { game_id, .. } => game_id,
            GameNotification::GameEnded { game_id, .. } => game_id,
        }
    }

    /// The time of the notification.
    pub open spec fn time(self) -> Timestamp {
        match self {
            GameNotification::GameStarted { timestamp, .. } => timestamp,
            GameNotification::PlayerJoined { timestamp, .. } => timestamp,
            GameNotification::HoleCardsDealt { timestamp, .. } => timestamp,
            GameNotification::StreetDealt { timestamp, .. } => timestamp,
            GameNotification::Showdown { timestamp, .. } => timestamp,
            GameNotification::GameEnded { timestamp, .. } => timestamp,
        }
    }

    /// The game of the notification.
    pub fn game_id(&self) -> (r: &GameId)
        ensures
            *r == self.game(),
    {
        match self {
            GameNotification::GameStarted { game_id, .. } => game_id,
            GameNotification::PlayerJoined { game_id, .. } => game_id,
            GameNotification::HoleCardsDealt { game_id, .. } => game_id,
            GameNotification::StreetDealt { game_id, .. } => game_id,
            GameNotification::Showdown { game_id, .. } => game_id,
            GameNotification::GameEnded { game_id, .. } => game_id,
        }
    }

    /// The time of the notification.
    pub fn timestamp(&self) -> (r: Timestamp)
        ensures
            r == self.time(),
    {
        match self {
            GameNotification::GameStarted { timestamp, .. } => *timestamp,
            GameNotification::PlayerJoined { timestamp, .. } => *timestamp,
            GameNotification::HoleCardsDealt { timestamp, .. } => *timestamp,
            GameNotification::StreetDealt { timestamp, .. } => *timestamp,
            GameNotification::Showdown { timestamp, .. } => *timestamp,
            GameNotification::GameEnded { timestamp, .. } => *timestamp,
        }
    }
}

/// Something that publishes notifications.
pub trait NotificationPublisher: Send + Sync {
    /// Publishes a notification.
    fn publish(&self, notification: GameNotification);

    /// Publishes notifications one after the other.
    fn publish_batch(&self, notifications: &[GameNotification]) {
        let mut i: usize = 0;
        while i < notifications.len()
            invariant
                i <= notifications@.len(),
            decreases notifications@.len() - i,
        {
            self.publish(notifications[i].clone());
            i = i + 1;
        }
    }
}

/// A publisher that publishes nothing.
#[derive(Debug, Clone, Copy, Default)]
pub struct NoOpPublisher;

impl NotificationPublisher for NoOpPublisher {
    fn publish(&self, notification: GameNotification) {
    }
}

} // verus!
