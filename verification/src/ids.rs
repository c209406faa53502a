//! Identifiers of games, sessions and hands.
use vstd::prelude::*;
use vstd::std_specs::convert::FromSpecImpl;
use crate::chips::decimal_text;
use crate::chips::Chips;
use crate::clock::nanos_since_epoch;
use crate::text::hex_digits;
use crate::text::hex_text;

verus! {

/// The identifier of a game.
#[derive(Clone, Debug, PartialEq, Eq, Hash)]
pub struct GameId(String);

impl View for GameId {
    type V = Seq<char>;

    closed spec fn view(&self) -> Seq<char> {
        self.0@
    }
}

impl GameId {
    /// The identifier that holds the given string.
    pub closed spec fn holding(s: String) -> GameId {
        GameId(s)
    }

    /// The identifier with the given text.
    pub fn new(id: &str) -> (r: GameId)
        ensures
            r@ == id@,
    {
        GameId(String::from_str(id))
    }

    /// The text of the identifier.
    pub fn as_str(&self) -> (r: &str)
        ensures
            r@ == self@,
    {
        self.0.as_str()
    }

    /// A new identifier: "game-" and the time in nanoseconds, in base sixteen.
    pub fn generate() -> (r: GameId)
        ensures
            exists|time: nat| r@ == "game-"@ + #[trigger] hex_digits(time),
    {
        let timestamp = nanos_since_epoch();
        let mut text = String::from_str("game-");
        text.append(hex_text(timestamp).as_str());
        assert(text@ == "game-"@ + hex_digits(timestamp as nat));
        GameId(text)
    }

    /// The text of the identifier.
    pub fn to_string(&self) -> (r: String)
        ensures
            r@ == self@,
    {
        self.0.clone()
    }
}

impl<'a> From<&'a str> for GameId {
    fn from(s: &'a str) -> (r: GameId) {
        GameId::new(s)
    }
}

impl<'a> FromSpecImpl<&'a str> for GameId {
    /// Nothing is claimed of `from` on a string slice beyond what `new` states.
    open spec fn obeys_from_spec() -> bool {
        false
    }

    open spec fn from_spec(s: &'a str) -> GameId {
        arbitrary()
    }
}

impl From<String> for GameId {
    fn from(s: String) -> (r: GameId) {
        GameId(s)
    }
}

impl FromSpecImpl<String> for GameId {
    open spec fn obeys_from_spec() -> bool {
        true
    }

    open spec fn from_spec(s: String) -> GameId {
        GameId::holding(s)
    }
}

/// The identifier of a session.
#[derive(Clone, Debug, PartialEq, Eq, Hash)]
pub struct SessionId(String);

impl View for SessionId {
    type V = Seq<char>;

    closed spec fn view(&self) -> Seq<char> {
        self.0@
    }
}

impl SessionId {
    /// The identifier that holds the given string.
    pub closed spec fn holding(s: String) -> SessionId {
        SessionId(s)
    }

    /// The identifier with the given text.
    pub fn new(id: &str) -> (r: SessionId)
        ensures
            r@ == id@,
    {
        SessionId(String::from_str(id))
    }

    /// The text of the identifier.
    pub fn as_str(&self) -> (r: &str)
        ensures
            r@ == self@,
    {
        self.0.as_str()
    }

    /// A new identifier: "session-" and the time in nanoseconds, in base sixteen.
    pub fn generate() -> (r: SessionId)
        ensures
            exists|time: nat| r@ == "session-"@ + #[trigger] hex_digits(time),
    {
        let timestamp = nanos_since_epoch();
        let mut text = String::from_str("session-");
        text.append(hex_text(timestamp).as_str());
        assert(text@ == "session-"@ + hex_digits(timestamp as nat));
        SessionId(text)
    }

    /// The text of the identifier.
    pub fn to_string(&self) -> (r: String)
        ensures
            r@ == self@,
    {
        self.0.clone()
    }
}

impl<'a> From<&'a str> for SessionId {
    fn from(s: &'a str) -> (r: SessionId) {
        SessionId::new(s)
    }
}

impl<'a> FromSpecImpl<&'a str> for SessionId {
    /// Nothing is claimed of `from` on a string slice beyond what `new` states.
    open spec fn obeys_from_spec() -> bool {
        false
    }

    open spec fn from_spec(s: &'a str) -> SessionId {
        arbitrary()
    }
}

impl From<String> for SessionId {
    fn from(s: String) -> (r: SessionId) {
        SessionId(s)
    }
}

impl FromSpecImpl<String> for SessionId {
    open spec fn obeys_from_spec() -> bool {
        true
    }

    open spec fn from_spec(s: String) -> SessionId {
        SessionId::holding(s)
    }
}

/// The number of a hand within a session.
#[derive(Clone, Copy, Debug, PartialEq, Eq, Hash, PartialOrd, Ord, Structural)]
pub struct HandNumber(pub u64);

impl HandNumber {
    /// The hand with the given number.
    pub fn new(n: u64) -> (r: HandNumber)
        ensures
            r == HandNumber(n),
    {
        HandNumber(n)
    }

    /// The number of the hand.
    pub fn value(self) -> (r: u64)
        ensures
            r == self.0,
    {
        self.0
    }

    /// The hand that follows this one.
    pub fn next(self) -> (r: HandNumber)
        requires
            self.0 < u64::MAX,
        ensures
            r.0 == self.0 + 1,
    {
        HandNumber(self.0 + 1)
    }

    /// The text of the hand number: "#" and the number.
    pub fn to_string(&self) -> (r: String)
        ensures
            r@ == "#"@ + Chips::digits(self.0 as nat),
    {
        let mut text = String::from_str("#");
        text.append(decimal_text(self.0).as_str());
        text
    }
}

impl From<u64> for HandNumber {
    fn from(n: u64) -> (r: HandNumber) {
        HandNumber(n)
    }
}

impl FromSpecImpl<u64> for HandNumber {
    open spec fn obeys_from_spec() -> bool {
        true
    }

    open spec fn from_spec(n: u64) -> HandNumber {
        HandNumber(n)
    }
}

} // verus!
