//! The capability of keeping games.
use vstd::prelude::*;
use crate::game::Game;

verus! {

/// The identifier of a game in a repository.
pub type GameId = String;

/// Why a repository failed.
#[derive(Debug, Clone, PartialEq, Eq)]
pub enum RepositoryError {
    /// The repository holds no such game.
    NotFound(GameId),
    /// The storage failed.
    StorageError(String),
    /// What the storage holds is no game.
    InvalidData(String),
}

impl RepositoryError {
    /// The message of the error.
    pub open spec fn text_spec(self) -> Seq<char> {
        match self {
            RepositoryError::NotFound(id) => "game not found: "@ + id@,
            RepositoryError::StorageError(message) => "storage error: "@ + message@,
            RepositoryError::InvalidData(message) => "invalid data: "@ + message@,
        }
    }

    /// The message of the error.
    pub fn to_string(&self) -> (r: String)
        ensures
            r@ == self.text_spec(),
    {
        match self {
            RepositoryError::NotFound(id) => {
                let mut text = String::from_str("game not found: ");
                text.append(id.as_str());
                text
            },
            RepositoryError::StorageError(message) => {
                let mut text = String::from_str("storage error: ");
                text.append(message.as_str());
                text
            },
            RepositoryError::InvalidData(message) => {
                let mut text = String::from_str("invalid data: ");
                text.append(message.as_str());
                text
            },
        }
    }
}

/// Something that keeps games under their identifiers.
pub trait GameRepository: Send + Sync {
    /// Keeps a game under an identifier, in place of the one kept before.
    fn save(&self, id: &GameId, game: &Game) -> (r: Result<(), RepositoryError>);

    /// The game kept under an identifier.
    fn load(&self, id: &GameId) -> (r: Result<Game, RepositoryError>);

    /// Forgets the game kept under an identifier.
    fn delete(&self, id: &GameId) -> (r: Result<(), RepositoryError>);

    /// Whether a game is kept under an identifier.
    fn contains(&self, id: &GameId) -> (r: bool);
}

} // verus!
