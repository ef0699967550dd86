//! Conversion of a scoreboard game file, whose state is a flat map from
//! dotted keys to JSON values, into the nested document that describes the
//! games it holds.

pub mod json;
pub mod text;
pub mod state;
pub mod reads;
pub mod ids;
pub mod timeout;
pub mod team;
pub mod jam;
pub mod period;
pub mod misc;
pub mod version;
pub mod clocks;
pub mod game;
pub mod game_file_state;
pub mod laws;
