//! The event a game belongs to, and the names of labels and penalty codes.

use vstd::prelude::*;

use crate::json::{JsonObject, JsonValue, SpecJson};
use crate::state::{strip_prefix, stripped, Fields};

verus! {

/// Where and when a game is played.
#[derive(Debug, Clone)]
pub struct EventInfo {
    pub date: Option<String>,
    pub start_time: Option<String>,
    pub city: Option<String>,
    pub game_no: Option<String>,
    pub host_league: Option<String>,
    pub state: Option<String>,
    pub tournament: Option<String>,
    pub venue: Option<String>,
}

/// The labels a scoreboard shows on its buttons.
#[derive(Debug, Clone, Copy, PartialEq, Eq, Hash)]
pub enum LabelType {
    Replaced,
    Start,
    Stop,
    Timeout,
    Undo,
}

/// The penalty codes of the rules; `QuestionMark` is the code `?`.
#[derive(Debug, Clone, Copy, PartialEq, Eq, Hash)]
pub enum PenaltyCode {
    QuestionMark,
    A,
    B,
    C,
    D,
    E,
    F,
    G,
    H,
    I,
    L,
    M,
    N,
    P,
    X,
}

/// The event of a game: the entries under `EventInfo.`.
pub open spec fn event_info_tree(m: Fields) -> SpecJson {
    SpecJson::Object(stripped(m, "EventInfo."@))
}

/// The event of a game, from the entries of the game.
pub fn event_info_from_state_map(state: &JsonObject) -> (r: JsonValue)
    ensures
        r@ == event_info_tree(state@),
{
    JsonValue::Object(strip_prefix(state, "EventInfo."))
}

} // verus!
