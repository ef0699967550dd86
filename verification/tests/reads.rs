use packsight::game::game_reads_of;
use packsight::game_file_state::try_game_file_state_from_text;
use packsight::jam::fielding_reads_of;
use packsight::json::{JsonObject, JsonValue};
use packsight::period::period_reads_of;
use packsight::reads::{Read, ReadKind};
use packsight::team::team_reads_of;

const ID: &str = "67e55044-10b1-426f-9247-bb680e5fe0c8";

fn s(v: &str) -> JsonValue {
    JsonValue::String(v.to_string())
}

fn num(v: &str) -> JsonValue {
    JsonValue::Number(v.to_string())
}

fn obj(pairs: &[(String, JsonValue)]) -> JsonObject {
    let mut o = JsonObject::new();
    for (k, v) in pairs {
        o.insert(k.clone(), v.clone_value());
    }
    o
}

fn kinds(reads: &[Read]) -> Vec<ReadKind> {
    reads.iter().map(|r| r.kind).collect()
}

#[test]
fn a_game_reads_its_periods_before_its_teams_stop_it() {
    let game = obj(&[("Period.1.Number".to_string(), num("1"))]);
    let reads = game_reads_of(&game);
    assert_eq!(kinds(&reads), vec![ReadKind::EventInfo, ReadKind::Period]);
}

#[test]
fn a_team_reads_its_box_trips_before_its_skaters_stop_it() {
    let team = obj(&[
        ("Color.overlay.bg".to_string(), s("red")),
        ("AlternateName.overlay".to_string(), s("R")),
        ("AlternateName.scoreboard".to_string(), s("RR")),
        (format!("BoxTrip.{}.Id", ID), s(ID)),
        ("Skater.xyz.Name".to_string(), s("S")),
    ]);
    let reads = team_reads_of(&team);
    assert_eq!(kinds(&reads), vec![ReadKind::BoxTrip]);
    let team = obj(&[("Skater.xyz.Name".to_string(), s("S"))]);
    assert!(team_reads_of(&team).is_empty());
}

#[test]
fn a_period_reads_its_jams_before_its_timeouts_stop_it() {
    let period = obj(&[
        ("Jam.1.Number".to_string(), num("1")),
        ("TimeOut.xyz.Id".to_string(), s("x")),
    ]);
    let reads = period_reads_of(&period);
    assert_eq!(kinds(&reads), vec![ReadKind::TeamJam, ReadKind::TeamJam, ReadKind::Jam]);
}

#[test]
fn a_fielding_reads_each_position_name_then_its_skater() {
    let fielding = obj(&[("Jammer.Skater".to_string(), s(ID))]);
    let reads = fielding_reads_of(&fielding);
    assert_eq!(kinds(&reads), vec![ReadKind::FieldingPosition, ReadKind::FieldingPositionSkater]);
    match &reads[0].value {
        JsonValue::String(t) => assert_eq!(t, "Jammer"),
        _ => panic!("a position is read from its name"),
    }
}

#[test]
fn a_game_file_reads_its_release_first() {
    let text = format!(
        r#"{{"state": {{"ScoreBoard.Version(release)": "v2025.5", "ScoreBoard.Game({}).Clock(Jam).Number": 1}}}}"#,
        ID
    );
    let trees = try_game_file_state_from_text(&text).unwrap().unwrap();
    assert_eq!(
        kinds(&trees.reads),
        vec![ReadKind::Version, ReadKind::Clock, ReadKind::EventInfo]
    );
    assert!(trees.games.is_none());
}
