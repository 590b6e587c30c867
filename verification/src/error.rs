//! Typed errors for request parsing, the game rules, and the room layer.
//!
//! Each error renders to the user-visible byte string that the server
//! sends back inside an error response.

use vstd::prelude::*;
use vstd::string::StringSliceAdditionalSpecFns;
use crate::bytes::{append_bytes, copy_bytes};
use crate::team::Team;

verus! {

/// Which move a player tried out of turn.
#[derive(Debug, Clone, Copy, PartialEq, Eq, Structural)]
pub enum TurnAction {
    Hint,
    Guess,
}

/// A client message that could not be turned into a request.
#[derive(Debug, PartialEq, Eq)]
pub enum RequestError {
    /// The text was not a well-formed request object.
    Parse,
    /// A required field was absent or empty.
    Missing(Vec<u8>),
    /// The request kind is not one the server knows.
    Unknown(Vec<u8>),
    /// A field was present but its value is out of range.
    Invalid(Vec<u8>),
}

/// A request that the game rules reject.
#[derive(Debug, Clone, Copy, PartialEq, Eq, Structural)]
pub enum GameError {
    /// No player of the team carries the requested master name.
    MasterNotFound,
    /// The token is not a player of the team in question.
    PlayerNotFound,
    /// It is not this player's turn to hint or guess.
    Turn(TurnAction),
    /// Only the team master may do this.
    NotMaster,
    /// Only the room admin may do this.
    NotAdmin,
    /// The team does not have at least two players.
    MissingPlayers(Team),
    /// The game is not in play.
    NotStarted,
    /// The game has already left its setup state.
    AlreadyStarted,
    /// The team is in the wrong half of the hint/guess cycle.
    WrongPhase,
}

/// A board could not be generated.
#[derive(Debug, PartialEq, Eq)]
pub enum BoardError {
    /// The board set has no word list for this language.
    Language(Vec<u8>),
}

/// An error surfaced by the room layer.
#[derive(Debug, PartialEq, Eq)]
pub enum RoomError {
    Board(BoardError),
    Game(GameError),
    /// No room carries the requested identifier.
    NotFound(u128),
    /// The connection is not yet attached to a room.
    Forbidden,
    /// The request kind is not handled inside a room.
    Unhandled,
}

/// The value of a request error, for contracts.
pub enum RequestErrorV {
    Parse,
    Missing(Seq<u8>),
    Unknown(Seq<u8>),
    Invalid(Seq<u8>),
}

impl View for RequestError {
    type V = RequestErrorV;

    open spec fn view(&self) -> RequestErrorV {
        match self {
            RequestError::Parse => RequestErrorV::Parse,
            RequestError::Missing(f) => RequestErrorV::Missing(f@),
            RequestError::Unknown(k) => RequestErrorV::Unknown(k@),
            RequestError::Invalid(w) => RequestErrorV::Invalid(w@),
        }
    }
}

impl TurnAction {
    pub open spec fn spec_message(self) -> Seq<u8> {
        match self {
            TurnAction::Hint => ("not your turn to give a hint").spec_bytes(),
            TurnAction::Guess => ("not your turn to give a guess").spec_bytes(),
        }
    }
}

impl RequestError {
    pub open spec fn spec_message(self) -> Seq<u8> {
        match self {
            RequestError::Parse => ("parse error: invalid request").spec_bytes(),
            RequestError::Missing(f) => ("field missing: ").spec_bytes() + f@,
            RequestError::Unknown(k) => ("unknown request: ").spec_bytes() + k@,
            RequestError::Invalid(w) => ("invalid value: ").spec_bytes() + w@,
        }
    }

    /// The user-visible text of this error.
    pub fn message(&self) -> (r: Vec<u8>)
        ensures
            r@ == self.spec_message(),
    {
        match self {
            RequestError::Parse => copy_bytes(("parse error: invalid request").as_bytes()),
            RequestError::Missing(f) => {
                let mut r = copy_bytes(("field missing: ").as_bytes());
                append_bytes(&mut r, f.as_slice());
                r
            },
            RequestError::Unknown(k) => {
                let mut r = copy_bytes(("unknown request: ").as_bytes());
                append_bytes(&mut r, k.as_slice());
                r
            },
            RequestError::Invalid(w) => {
                let mut r = copy_bytes(("invalid value: ").as_bytes());
                append_bytes(&mut r, w.as_slice());
                r
            },
        }
    }
}

impl GameError {
    pub open spec fn spec_message(self) -> Seq<u8> {
        match self {
            GameError::MasterNotFound => ("master not found").spec_bytes(),
            GameError::PlayerNotFound => ("player not found").spec_bytes(),
            GameError::Turn(a) => a.spec_message(),
            GameError::NotMaster => ("player is not a master").spec_bytes(),
            GameError::NotAdmin => ("player is not the admin").spec_bytes(),
            GameError::MissingPlayers(t) => ("team ").spec_bytes() + t.spec_name_bytes() + (
            " does not have enough players").spec_bytes(),
            GameError::NotStarted => ("game has not started").spec_bytes(),
            GameError::AlreadyStarted => ("game has already started").spec_bytes(),
            GameError::WrongPhase => ("not time to give a hint").spec_bytes(),
        }
    }

    /// The user-visible text of this error.
    pub fn message(&self) -> (r: Vec<u8>)
        ensures
            r@ == self.spec_message(),
    {
        match self {
            GameError::MasterNotFound => copy_bytes(("master not found").as_bytes()),
            GameError::PlayerNotFound => copy_bytes(("player not found").as_bytes()),
            GameError::Turn(a) => match a {
                TurnAction::Hint => copy_bytes(("not your turn to give a hint").as_bytes()),
                TurnAction::Guess => copy_bytes(("not your turn to give a guess").as_bytes()),
            },
            GameError::NotMaster => copy_bytes(("player is not a master").as_bytes()),
            GameError::NotAdmin => copy_bytes(("player is not the admin").as_bytes()),
            GameError::MissingPlayers(t) => {
                let mut r = copy_bytes(("team ").as_bytes());
                let name = t.name_bytes();
                append_bytes(&mut r, name.as_slice());
                append_bytes(&mut r, (" does not have enough players").as_bytes());
                r
            },
            GameError::NotStarted => copy_bytes(("game has not started").as_bytes()),
            GameError::AlreadyStarted => copy_bytes(("game has already started").as_bytes()),
            GameError::WrongPhase => copy_bytes(("not time to give a hint").as_bytes()),
        }
    }
}

impl BoardError {
    pub open spec fn spec_message(self) -> Seq<u8> {
        match self {
            BoardError::Language(l) => ("language '").spec_bytes() + l@ + ("' not found").spec_bytes(),
        }
    }

    /// The user-visible text of this error.
    pub fn message(&self) -> (r: Vec<u8>)
        ensures
            r@ == self.spec_message(),
    {
        match self {
            BoardError::Language(l) => {
                let mut r = copy_bytes(("language '").as_bytes());
                append_bytes(&mut r, l.as_slice());
                append_bytes(&mut r, ("' not found").as_bytes());
                r
            },
        }
    }
}

impl RoomError {
    pub open spec fn spec_message(self) -> Seq<u8> {
        match self {
            RoomError::Board(b) => ("board error: ").spec_bytes() + b.spec_message(),
            RoomError::Game(g) => ("game error: ").spec_bytes() + g.spec_message(),
            RoomError::NotFound(_) => ("room not found").spec_bytes(),
            RoomError::Forbidden => ("forbidden").spec_bytes(),
            RoomError::Unhandled => ("unhandled request").spec_bytes(),
        }
    }

    /// The user-visible text of this error.
    pub fn message(&self) -> (r: Vec<u8>)
        ensures
            r@ == self.spec_message(),
    {
        match self {
            RoomError::Board(b) => {
                let mut r = copy_bytes(("board error: ").as_bytes());
                let inner = b.message();
                append_bytes(&mut r, inner.as_slice());
                r
            },
            RoomError::Game(g) => {
                let mut r = copy_bytes(("game error: ").as_bytes());
                let inner = g.message();
                append_bytes(&mut r, inner.as_slice());
                r
            },
            RoomError::NotFound(_) => copy_bytes(("room not found").as_bytes()),
            RoomError::Forbidden => copy_bytes(("forbidden").as_bytes()),
            RoomError::Unhandled => copy_bytes(("unhandled request").as_bytes()),
        }
    }
}

} // verus!
