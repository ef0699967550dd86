//! The release of the scoreboard that wrote a game file.

use vstd::prelude::*;

use crate::json::{JsonObject, JsonValue, SpecJson};
use crate::state::{strip_prefix, stripped, Fields};

verus! {

/// The scoreboard releases that game files are read from.
#[derive(Debug, Clone, Copy, PartialEq, Eq, Hash)]
pub enum ScoreboardVersion {
    V2025_5,
    V2025_8,
}

/// The release of the scoreboard and where it was built.
#[derive(Debug, Clone)]
pub struct Version {
    pub release: ScoreboardVersion,
    pub release_user: String,
    pub release_commit: String,
    pub release_host: String,
    pub release_time: String,
}

/// The release: the entries under `ScoreBoard.Version.`.
pub open spec fn version_tree(m: Fields) -> SpecJson {
    SpecJson::Object(stripped(m, "ScoreBoard.Version."@))
}

/// The release, from the whole state of a game file.
pub fn version_from_state_map(state: &JsonObject) -> (r: JsonValue)
    ensures
        r@ == version_tree(state@),
{
    JsonValue::Object(strip_prefix(state, "ScoreBoard.Version."))
}

} // verus!
