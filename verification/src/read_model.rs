//! The capability of answering questions about hands, players and games that were recorded.
use vstd::prelude::*;
use crate::clock::Timestamp;
use crate::event_store::GameId;

verus! {

/// The identifier of a player in the records.
pub type PlayerId = String;

/// The identifier of a hand in the records.
pub type HandId = String;

/// Why a question could not be answered.
#[derive(Debug, Clone, PartialEq, Eq)]
pub enum ReadModelError {
    /// What was asked for is not recorded.
    NotFound(String),
    /// The storage failed.
    StorageError(String),
    /// The question makes no sense.
    InvalidQuery(String),
}

impl ReadModelError {
    /// The message of the error.
    pub open spec fn text_spec(self) -> Seq<char> {
        match self {
            ReadModelError::NotFound(id) => "not found: "@ + id@,
            ReadModelError::StorageError(message) => "storage error: "@ + message@,
            ReadModelError::InvalidQuery(message) => "invalid query: "@ + message@,
        }
    }

    /// The message of the error.
    pub fn to_string(&self) -> (r: String)
        ensures
            r@ == self.text_spec(),
    {
        match self {
            ReadModelError::NotFound(id) => {
                let mut text = String::from_str("not found: ");
                text.append(id.as_str());
                text
            },
            ReadModelError::StorageError(message) => {
                let mut text = String::from_str("storage error: ");
                text.append(message.as_str());
                text
            },
            ReadModelError::InvalidQuery(message) => {
                let mut text = String::from_str("invalid query: ");
                text.append(message.as_str());
                text
            },
        }
    }
}

/// The summary of a hand.
#[derive(Debug, Clone)]
pub struct HandSummary {
    /// The hand.
    pub hand_id: HandId,
    /// The game of the hand.
    pub game_id: GameId,
    /// When the hand started.
    pub started_at: Timestamp,
    /// When the hand ended.
    pub ended_at: Timestamp,
    /// The number of players.
    pub num_players: usize,
    /// The players.
    pub player_ids: Vec<PlayerId>,
    /// The players who won.
    pub winner_ids: Vec<PlayerId>,
    /// Whether several players tied.
    pub is_tie: bool,
    /// The category of the winning hand, where it was shown.
    pub winning_hand_rank: Option<String>,
}

impl HandSummary {
    /// How long the hand took, in milliseconds; 0 where it ended before it started.
    pub fn duration_ms(&self) -> (r: u64)
        ensures
            r == if self.ended_at >= self.started_at {
                self.ended_at - self.started_at
            } else {
                0
            },
    {
        self.ended_at.saturating_sub(self.started_at)
    }
}

/// Something that keeps summaries of hands.
pub trait HandSummaryStore: Send + Sync {
    /// Keeps the summary of a hand.
    fn save(&self, summary: &HandSummary) -> (r: Result<(), ReadModelError>);

    /// The summary of a hand.
    fn get(&self, hand_id: &HandId) -> (r: Result<HandSummary, ReadModelError>);

    /// The hands of a player, `limit` of them after the first `offset`.
    fn find_by_player(&self, player_id: &PlayerId, limit: usize, offset: usize) -> (r: Result<
        Vec<HandSummary>,
        ReadModelError,
    >);

    /// The hands between two times, at most `limit` of them.
    fn find_by_time_range(&self, from: Timestamp, to: Timestamp, limit: usize) -> (r: Result<
        Vec<HandSummary>,
        ReadModelError,
    >);

    /// The hands of a game.
    fn find_by_game(&self, game_id: &GameId) -> (r: Result<Vec<HandSummary>, ReadModelError>);

    /// The number of hands of a player.
    fn count_by_player(&self, player_id: &PlayerId) -> (r: Result<u64, ReadModelError>);
}

/// How a player has done.
#[derive(Debug, Clone, Default)]
pub struct PlayerStats {
    /// The player.
    pub player_id: PlayerId,
    /// The number of hands that the player played.
    pub hands_played: u64,
    /// The number of hands that the player won.
    pub hands_won: u64,
    /// When the player played last.
    pub last_played_at: Option<Timestamp>,
}

impl PlayerStats {
    /// The share of hands that the player won, as a fraction: hands won over hands played.
    /// The denominator is 0 for a player who has not played.
    pub fn win_fraction(&self) -> (r: (u64, u64))
        ensures
            r.0 == self.hands_won,
            r.1 == self.hands_played,
    {
        (self.hands_won, self.hands_played)
    }
}

/// Something that keeps the statistics of players.
pub trait PlayerStatsStore: Send + Sync {
    /// The statistics of a player.
    fn get(&self, player_id: &PlayerId) -> (r: Result<PlayerStats, ReadModelError>);

    /// Keeps the statistics of a player.
    fn save(&self, stats: &PlayerStats) -> (r: Result<(), ReadModelError>);

    /// The players with the most wins, at most `limit` of them.
    fn top_by_wins(&self, limit: usize) -> (r: Result<Vec<PlayerStats>, ReadModelError>);

    /// The players with the highest share of wins among those who played at least
    /// `min_hands` hands, at most `limit` of them.
    fn top_by_win_rate(&self, min_hands: u64, limit: usize) -> (r: Result<
        Vec<PlayerStats>,
        ReadModelError,
    >);
}

/// The state of a game in progress.
#[derive(Debug, Clone)]
pub struct ActiveGameState {
    /// The game.
    pub game_id: GameId,
    /// The number of players.
    pub num_players: usize,
    /// The players.
    pub player_ids: Vec<PlayerId>,
    /// The name of the street that the game is at.
    pub current_street: String,
    /// Whether the game is at the showdown.
    pub is_showdown: bool,
    /// When the state was recorded.
    pub updated_at: Timestamp,
}

/// Something that keeps the states of games in progress.
pub trait ActiveGameStore: Send + Sync {
    /// Keeps the state of a game.
    fn save(&self, state: &ActiveGameState) -> (r: Result<(), ReadModelError>);

    /// The state of a game.
    fn get(&self, game_id: &GameId) -> (r: Result<ActiveGameState, ReadModelError>);

    /// Forgets the state of a game.
    fn remove(&self, game_id: &GameId) -> (r: Result<(), ReadModelError>);

    /// The states of all games in progress.
    fn list_active(&self) -> (r: Result<Vec<ActiveGameState>, ReadModelError>);

    /// The number of games in progress.
    fn count_active(&self) -> (r: Result<u64, ReadModelError>);
}

} // verus!
