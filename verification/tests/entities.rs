use packsight::ids::{canonical_id_text, IdKind};
use packsight::jam::{
    scoring_trip_from_state_map, try_fielding_from_state_map, try_jam_from_state_map,
    try_scoring_trips_from_state_map,
};
use packsight::json::{JsonObject, JsonValue};
use packsight::misc::event_info_from_state_map;
use packsight::period::try_periods_from_state_map;
use packsight::team::{
    box_trip_from_state_map, try_box_trips_from_state_map, try_penalties_from_state_map,
    try_skaters_from_state_map,
};
use packsight::timeout::try_timeouts_from_state_map;
use packsight::version::version_from_state_map;

const ID: &str = "67e55044-10b1-426f-9247-bb680e5fe0c8";

fn s(v: &str) -> JsonValue {
    JsonValue::String(v.to_string())
}

fn num(v: &str) -> JsonValue {
    JsonValue::Number(v.to_string())
}

fn obj(pairs: &[(String, JsonValue)]) -> JsonObject {
    let mut o = JsonObject::new();
    for (k, v) in pairs {
        o.insert(k.clone(), v.clone_value());
    }
    o
}

fn at(id: &str, rest: &str) -> String {
    format!("{}.{}", id, rest)
}

/// A canonical text of a value: object members sorted, later members winning.
fn render(v: &JsonValue) -> String {
    match v {
        JsonValue::Null => "null".to_string(),
        JsonValue::Bool(b) => b.to_string(),
        JsonValue::Number(n) => n.clone(),
        JsonValue::String(t) => format!("{:?}", t),
        JsonValue::Array(items) => {
            let parts: Vec<String> = items.iter().map(render).collect();
            format!("[{}]", parts.join(","))
        }
        JsonValue::Object(o) => {
            let mut m = std::collections::BTreeMap::new();
            for (k, v) in &o.entries {
                m.insert(k.clone(), render(v));
            }
            let parts: Vec<String> = m.iter().map(|(k, v)| format!("{:?}:{}", k, v)).collect();
            format!("{{{}}}", parts.join(","))
        }
    }
}

#[test]
fn a_canonical_uuid_is_its_own_canonical_form() {
    assert_eq!(canonical_id_text(&IdKind::Uuid, ID), Some(ID.to_string()));
    let braced = format!("{{{}}}", ID);
    assert_eq!(canonical_id_text(&IdKind::Uuid, &braced), Some(ID.to_string()));
}

#[test]
fn timeouts_are_filed_under_their_uuid() {
    let state = obj(&[
        (at(ID, "Duration"), num("30")),
        (at(ID, "Owner"), s("O")),
        (at(ID, "Deep.Key"), s("dropped")),
    ]);
    let r = try_timeouts_from_state_map(&state).unwrap();
    assert_eq!(render(&r), format!(r#"{{"{}":{{"Duration":30,"Owner":"O"}}}}"#, ID));
}

#[test]
fn a_timeout_needs_a_uuid() {
    let state = obj(&[(at("t1", "Duration"), num("30"))]);
    assert!(try_timeouts_from_state_map(&state).is_none());
    let state = obj(&[("Duration".to_string(), num("30"))]);
    assert!(try_timeouts_from_state_map(&state).is_none());
}

#[test]
fn entries_under_an_upper_case_uuid_are_not_found_again() {
    let upper = ID.to_uppercase();
    let state = obj(&[(at(&upper, "Duration"), num("30"))]);
    let r = try_timeouts_from_state_map(&state).unwrap();
    assert_eq!(render(&r), format!(r#"{{"{}":{{}}}}"#, ID));
}

#[test]
fn penalties_are_filed_under_their_number() {
    let state = obj(&[
        ("1.Code".to_string(), s("X")),
        ("1.Served".to_string(), JsonValue::Bool(true)),
        ("2.Code".to_string(), s("C")),
    ]);
    let r = try_penalties_from_state_map(&state).unwrap();
    assert_eq!(render(&r), r#"{"1":{"Code":"X","Served":true},"2":{"Code":"C"}}"#);
}

#[test]
fn a_penalty_number_must_fit_in_a_byte() {
    let state = obj(&[("256.Code".to_string(), s("X"))]);
    assert!(try_penalties_from_state_map(&state).is_none());
}

#[test]
fn a_box_trip_holds_its_fieldings_and_penalties() {
    let trip = obj(&[
        ("Duration".to_string(), num("30")),
        ("Fielding.f1".to_string(), s("x")),
        ("Penalty.p1".to_string(), s("y")),
        ("Other.z".to_string(), s("dropped")),
    ]);
    let r = box_trip_from_state_map(&trip);
    assert_eq!(render(&r), r#"{"Duration":30,"Fielding":{"f1":"x"},"Penalties":{"p1":"y"}}"#);
}

#[test]
fn box_trips_are_filed_under_their_uuid() {
    let state = obj(&[(at(ID, "IsCurrent"), JsonValue::Bool(false))]);
    let r = try_box_trips_from_state_map(&state).unwrap();
    assert_eq!(
        render(&r),
        format!(r#"{{"{}":{{"Fielding":{{}},"IsCurrent":false,"Penalties":{{}}}}}}"#, ID)
    );
    let state = obj(&[(at("trip", "IsCurrent"), JsonValue::Bool(false))]);
    assert!(try_box_trips_from_state_map(&state).is_none());
}

#[test]
fn a_skater_with_a_bad_penalty_number_cannot_be_read() {
    let state = obj(&[(at(ID, "Penalty.x.Code"), s("X"))]);
    assert!(try_skaters_from_state_map(&state).is_none());
}

#[test]
fn scoring_trips_are_filed_under_their_number() {
    let state = obj(&[("1.Score".to_string(), num("4")), ("2.Score".to_string(), num("0"))]);
    let r = try_scoring_trips_from_state_map(&state).unwrap();
    assert_eq!(render(&r), r#"{"1":{"Score":4},"2":{"Score":0}}"#);
    let trip = obj(&[("Score".to_string(), num("4")), ("A.b".to_string(), num("1"))]);
    assert_eq!(render(&scoring_trip_from_state_map(&trip)), r#"{"Score":4}"#);
    let state = obj(&[("70000.Score".to_string(), num("4"))]);
    assert!(try_scoring_trips_from_state_map(&state).is_none());
}

#[test]
fn fieldings_are_filed_under_their_position() {
    let state = obj(&[
        ("Jammer.Skater".to_string(), s(ID)),
        ("Jammer.BoxTripSymbols".to_string(), s("")),
        ("Pivot.Skater".to_string(), s(ID)),
    ]);
    let r = try_fielding_from_state_map(&state).unwrap();
    assert_eq!(
        render(&r),
        format!(r#"{{"Jammer":{{"BoxTripSymbols":"","Skater":"{}"}},"Pivot":{{"Skater":"{}"}}}}"#, ID, ID)
    );
    let state = obj(&[("Jammer".to_string(), s(ID))]);
    assert!(try_fielding_from_state_map(&state).is_none());
}

#[test]
fn a_jam_holds_its_penalties_and_both_team_jams() {
    let state = obj(&[
        ("Number".to_string(), num("3")),
        ("Penalty.p1".to_string(), s("q")),
        ("TeamJam.1.JamScore".to_string(), num("4")),
        ("TeamJam.2.JamScore".to_string(), num("0")),
    ]);
    let r = try_jam_from_state_map(&state).unwrap();
    assert_eq!(
        render(&r),
        [
            r#"{"Number":3,"Penalty":{"p1":"q"},"TeamJam":["#,
            r#"{"Fielding":{},"JamScore":4,"ScoringTrips":{}},"#,
            r#"{"Fielding":{},"JamScore":0,"ScoringTrips":{}}]}"#,
        ]
        .concat()
    );
    let state = obj(&[("TeamJam.2.Fielding.Jammer".to_string(), s("x"))]);
    assert!(try_jam_from_state_map(&state).is_none());
}

#[test]
fn periods_hold_their_jams_and_timeouts() {
    let state = obj(&[
        ("1.Number".to_string(), num("1")),
        ("1.Jam.2.Number".to_string(), num("2")),
        (format!("1.TimeOut.{}.Duration", ID), num("60")),
    ]);
    let r = try_periods_from_state_map(&state).unwrap();
    assert_eq!(
        render(&r),
        [
            r#"{"1":{"Jams":{"2":{"Number":2,"Penalty":{},"TeamJam":["#,
            r#"{"Fielding":{},"ScoringTrips":{}},{"Fielding":{},"ScoringTrips":{}}]}},"#,
            &format!(r#""Number":1,"Timeouts":{{"{}":{{"Duration":60}}}}}}}}"#, ID),
        ]
        .concat()
    );
    let state = obj(&[("1.TimeOut.t.Duration".to_string(), num("60"))]);
    assert!(try_periods_from_state_map(&state).is_none());
}

#[test]
fn the_version_and_the_event_are_read_from_their_prefixes() {
    let state = obj(&[
        ("ScoreBoard.Version.release".to_string(), s("v2025.8")),
        ("ScoreBoard.Version.release.host".to_string(), s("h")),
        ("ScoreBoard.Other".to_string(), s("dropped")),
    ]);
    assert_eq!(
        render(&version_from_state_map(&state)),
        r#"{"release":"v2025.8","release.host":"h"}"#
    );
    let game = obj(&[
        ("EventInfo.City".to_string(), s("Town")),
        ("EventInfo.Venue".to_string(), s("Hall")),
        ("Name".to_string(), s("dropped")),
    ]);
    assert_eq!(render(&event_info_from_state_map(&game)), r#"{"City":"Town","Venue":"Hall"}"#);
}
