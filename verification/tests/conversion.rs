use packsight::clocks::{try_clock_from_state_map, try_clocks_from_state_map, ClockType};
use packsight::game_file_state::{normalize_state, try_game_file_state_from_document, try_game_file_state_from_text};
use packsight::ids::{canonical_id_text, IdKind};
use packsight::json::{JsonObject, JsonValue};
use packsight::team::try_team_from_state_map;
use packsight::text::{chars_of, decimal_string, lex_less, normalize_key, parse_unsigned_in, segment_bounds};

fn s(v: &str) -> JsonValue {
    JsonValue::String(v.to_string())
}

fn num(v: &str) -> JsonValue {
    JsonValue::Number(v.to_string())
}

fn obj(pairs: &[(&str, JsonValue)]) -> JsonObject {
    let mut o = JsonObject::new();
    for (k, v) in pairs {
        o.insert(k.to_string(), v.clone_value());
    }
    o
}

/// A canonical text of a value: object members sorted, later members winning.
fn render(v: &JsonValue) -> String {
    match v {
        JsonValue::Null => "null".to_string(),
        JsonValue::Bool(b) => b.to_string(),
        JsonValue::Number(n) => n.clone(),
        JsonValue::String(t) => format!("{:?}", t),
        JsonValue::Array(items) => {
            let parts: Vec<String> = items.iter().map(render).collect();
            format!("[{}]", parts.join(","))
        }
        JsonValue::Object(o) => {
            let mut m = std::collections::BTreeMap::new();
            for (k, v) in &o.entries {
                m.insert(k.clone(), render(v));
            }
            let parts: Vec<String> = m.iter().map(|(k, v)| format!("{:?}:{}", k, v)).collect();
            format!("{{{}}}", parts.join(","))
        }
    }
}

fn render_obj(o: &JsonObject) -> String {
    render(&JsonValue::Object(o.clone_object()))
}

#[test]
fn brackets_are_rewritten_into_dots() {
    assert_eq!(normalize_key("ScoreBoard.Game(abc).Period(1).Jam(2)"), "ScoreBoard.Game.abc.Period.1.Jam.2");
    assert_eq!(normalize_key("plain.key"), "plain.key");
    assert_eq!(normalize_key("((x))"), "..x");
    assert_eq!(normalize_key(""), "");
}

#[test]
fn numbers_are_read_as_rust_reads_them() {
    assert_eq!(parse_unsigned_in(&chars_of("42"), 255), Some(42));
    assert_eq!(parse_unsigned_in(&chars_of("+7"), 255), Some(7));
    assert_eq!(parse_unsigned_in(&chars_of("007"), 255), Some(7));
    assert_eq!(parse_unsigned_in(&chars_of("256"), 255), None);
    assert_eq!(parse_unsigned_in(&chars_of("65535"), 65535), Some(65535));
    assert_eq!(parse_unsigned_in(&chars_of("65536"), 65535), None);
    assert_eq!(parse_unsigned_in(&chars_of("-1"), 255), None);
    assert_eq!(parse_unsigned_in(&chars_of("+"), 255), None);
    assert_eq!(parse_unsigned_in(&chars_of(""), 255), None);
    assert_eq!(parse_unsigned_in(&chars_of("1a"), 255), None);
}

#[test]
fn numbers_are_written_in_decimal() {
    assert_eq!(decimal_string(0), "0");
    assert_eq!(decimal_string(7), "7");
    assert_eq!(decimal_string(1234567890), "1234567890");
}

#[test]
fn segments_are_counted_from_zero() {
    let k = chars_of("ScoreBoard.Game.id1.Clock");
    assert_eq!(segment_bounds(&k, 0), Some((0, 10)));
    assert_eq!(segment_bounds(&k, 2), Some((16, 19)));
    assert_eq!(segment_bounds(&k, 3), Some((20, 25)));
    assert_eq!(segment_bounds(&k, 4), None);
}

#[test]
fn strings_are_ordered_by_code_point() {
    assert!(lex_less(&chars_of("A(1)"), &chars_of("A.1")));
    assert!(!lex_less(&chars_of("A.1"), &chars_of("A(1)")));
    assert!(lex_less(&chars_of("Ab"), &chars_of("Abc")));
    assert!(!lex_less(&chars_of("Id"), &chars_of("Id")));
    assert!(lex_less(&chars_of("Direction"), &chars_of("Id")));
}

#[test]
fn identifiers_are_written_in_canonical_form() {
    assert_eq!(canonical_id_text(&IdKind::Byte, "01"), Some("1".to_string()));
    assert_eq!(canonical_id_text(&IdKind::Byte, "300"), None);
    assert_eq!(canonical_id_text(&IdKind::Short, "300"), Some("300".to_string()));
    assert_eq!(
        canonical_id_text(&IdKind::Uuid, "67E55044-10B1-426F-9247-BB680E5FE0C8"),
        Some("67e55044-10b1-426f-9247-bb680e5fe0c8".to_string())
    );
    assert_eq!(
        canonical_id_text(&IdKind::Uuid, "67e5504410b1426f9247bb680e5fe0c8"),
        Some("67e55044-10b1-426f-9247-bb680e5fe0c8".to_string())
    );
    assert_eq!(canonical_id_text(&IdKind::Uuid, "not-a-uuid"), None);
}

#[test]
fn clock_names_read_back() {
    for t in [ClockType::Intermission, ClockType::Jam, ClockType::Lineup, ClockType::Period, ClockType::Timeout] {
        assert_eq!(ClockType::from_name(t.name()), Some(t));
    }
    assert_eq!(ClockType::from_name("jam"), None);
}

#[test]
fn a_clock_id_after_other_keys_is_split() {
    let clock = obj(&[("Direction", JsonValue::Bool(true)), ("Id", s("abc_Jam")), ("Number", num("3"))]);
    let r = try_clock_from_state_map(&clock).unwrap();
    assert_eq!(render(&r), r#"{"ClockType":"Jam","Direction":true,"Id":"abc","Number":3}"#);
}

#[test]
fn a_clock_id_that_comes_first_is_kept() {
    let clock = obj(&[("Id", s("abc_Jam")), ("Number", num("3"))]);
    let r = try_clock_from_state_map(&clock).unwrap();
    assert_eq!(render(&r), r#"{"Id":"abc_Jam","Number":3}"#);
}

#[test]
fn a_split_clock_id_needs_an_underscore() {
    let clock = obj(&[("Direction", JsonValue::Bool(true)), ("Id", s("abc"))]);
    assert!(try_clock_from_state_map(&clock).is_none());
    let clock = obj(&[("Direction", JsonValue::Bool(true)), ("Id", num("1"))]);
    assert!(try_clock_from_state_map(&clock).is_none());
}

#[test]
fn clocks_are_grouped_by_kind() {
    let state = obj(&[
        ("Jam.Direction", JsonValue::Bool(true)),
        ("Jam.Id", s("j_Jam")),
        ("Period.Direction", JsonValue::Bool(false)),
        ("Period.Id", s("p_Period")),
    ]);
    let r = try_clocks_from_state_map(&state).unwrap();
    assert_eq!(
        render(&r),
        r#"{"Jam":{"ClockType":"Jam","Direction":true,"Id":"j"},"Period":{"ClockType":"Period","Direction":false,"Id":"p"}}"#
    );
}

#[test]
fn an_unknown_clock_kind_cannot_be_read() {
    let state = obj(&[("Shot.Direction", JsonValue::Bool(true))]);
    assert!(try_clocks_from_state_map(&state).is_none());
    let state = obj(&[("Jam", JsonValue::Bool(true))]);
    assert!(try_clocks_from_state_map(&state).is_none());
}

#[test]
fn a_team_needs_its_colour_and_names() {
    let team = obj(&[("Name", s("A")), ("AlternateName.overlay", s("o")), ("AlternateName.scoreboard", s("b"))]);
    assert!(try_team_from_state_map(&team).is_none());
    let team = obj(&[
        ("Name", s("A")),
        ("Color.overlay.bg", s("white")),
        ("AlternateName.overlay", s("o")),
        ("AlternateName.scoreboard", s("b")),
        ("TimeOut.t1", s("x")),
        ("Skater.67e55044-10b1-426f-9247-bb680e5fe0c8.Name", s("S")),
        ("Skater.67e55044-10b1-426f-9247-bb680e5fe0c8.Penalty.1.Code", s("X")),
        ("Skater.67e55044-10b1-426f-9247-bb680e5fe0c8.Fielding.f.g", s("h")),
        ("Skater.67e55044-10b1-426f-9247-bb680e5fe0c8.Fielding.k", s("v")),
    ]);
    let r = try_team_from_state_map(&team).unwrap();
    assert_eq!(
        render(&r),
        [
            r#"{"AlternateName":{"overlay":"o","scoreboard":"b"},"BoxTrips":{},"Color.overlay.bg":"white","Name":"A","#,
            r#""Skaters":{"67e55044-10b1-426f-9247-bb680e5fe0c8":{"Fielding":{"k":"v"},"Name":"S","Penalties":{"1":{"Code":"X"}}}},"#,
            r#""TimeOut":{"t1":"x"}}"#,
        ]
        .concat()
    );
}

#[test]
fn the_greatest_of_keys_rewritten_alike_wins() {
    let state = obj(&[("A.1", num("2")), ("A(1)", num("1")), ("B(x)", num("3"))]);
    let r = normalize_state(&state);
    assert_eq!(render_obj(&r), r#"{"A.1":2,"B.x":3}"#);
    let state = obj(&[("A(1)", num("1")), ("A.1", num("2"))]);
    assert_eq!(render_obj(&normalize_state(&state)), r#"{"A.1":2}"#);
}

#[test]
fn a_document_without_a_state_cannot_be_read() {
    let doc = JsonValue::Object(obj(&[("other", num("1"))]));
    assert!(try_game_file_state_from_document(&doc).is_none());
    let doc = JsonValue::Object(obj(&[("state", num("1"))]));
    assert!(try_game_file_state_from_document(&doc).is_none());
    assert!(try_game_file_state_from_document(&num("1")).is_none());
}

#[test]
fn a_document_becomes_its_games_and_version() {
    let g = "ScoreBoard.Game(67e55044-10b1-426f-9247-bb680e5fe0c8)";
    let k = |rest: &str| format!("{}.{}", g, rest);
    let mut state = JsonObject::new();
    for (key, v) in [
        ("ScoreBoard.Version(release)".to_string(), s("v2025.5")),
        ("ScoreBoard.Version(release.user)".to_string(), s("u")),
        (k("Name"), s("Game 1")),
        (k("Clock(Jam).Direction"), JsonValue::Bool(true)),
        (k("Clock(Jam).Id"), s("c1_Jam")),
        (k("EventInfo(City)"), s("Town")),
        (k("Period(1).Number"), num("1")),
        (k("Period(1).Jam(1).Number"), num("1")),
        (k("Period(1).Jam(1).TeamJam(1).Lead"), JsonValue::Bool(true)),
        (k("Period(1).Jam(1).TeamJam(1).ScoringTrip(2).Score"), num("4")),
        (k("Period(1).Jam(1).TeamJam(2).Fielding(Jammer).Number"), num("5")),
        (k("Team(1).Color(overlay.bg)"), s("red")),
        (k("Team(1).AlternateName(overlay)"), s("R")),
        (k("Team(1).AlternateName(scoreboard)"), s("RR")),
        (k("Team(2).Color(overlay.bg)"), s("blue")),
        (k("Team(2).AlternateName(overlay)"), s("B")),
        (k("Team(2).AlternateName(scoreboard)"), s("BB")),
    ] {
        state.insert(key, v);
    }
    let doc = JsonValue::Object(obj(&[("state", JsonValue::Object(state))]));
    let r = try_game_file_state_from_document(&doc).unwrap();
    let team = |c: &str, o: &str, b: &str| {
        format!(
            r#"{{"AlternateName":{{"overlay":"{}","scoreboard":"{}"}},"BoxTrips":{{}},"Color.overlay.bg":"{}","Skaters":{{}},"TimeOut":{{}}}}"#,
            o, b, c
        )
    };
    let game = [
        r#"{"Clocks":{"Jam":{"ClockType":"Jam","Direction":true,"Id":"c1"}},"EventInfo":{"City":"Town"},"#,
        r#""Labels":{},"Name":"Game 1","PenaltyCodes":{},"#,
        r#""Periods":{"1":{"Jams":{"1":{"Number":1,"Penalty":{},"TeamJam":["#,
        r#"{"Fielding":{},"Lead":true,"ScoringTrips":{"2":{"Score":4}}},"#,
        r#"{"Fielding":{"Jammer":{"Number":5}},"ScoringTrips":{}}]}},"Number":1,"Timeouts":{}}},"#,
        r#""Rules":{},"Teams":["#,
        &team("red", "R", "RR"),
        ",",
        &team("blue", "B", "BB"),
        "]}",
    ]
    .concat();
    let expected = format!(
        r#"{{"games":{{"67e55044-10b1-426f-9247-bb680e5fe0c8":{}}},"version":{{"release":"v2025.5","release.user":"u"}}}}"#,
        game
    );
    assert_eq!(render(&r), expected);
}

#[test]
fn a_game_named_by_no_uuid_cannot_be_read() {
    let doc = JsonValue::Object(obj(&[(
        "state",
        JsonValue::Object(obj(&[("ScoreBoard.Game(nope).Name", s("x"))])),
    )]));
    assert!(try_game_file_state_from_document(&doc).is_none());
}

#[test]
fn entries_under_a_non_canonical_id_are_not_found_again() {
    // The id "01" is filed as "1", and its entries are looked up under "1.".
    let state = obj(&[("01.Number", num("1"))]);
    let r = packsight::jam::try_jams_from_state_map(&state).unwrap();
    assert_eq!(
        render(&r),
        r#"{"1":{"Penalty":{},"TeamJam":[{"Fielding":{},"ScoringTrips":{}},{"Fielding":{},"ScoringTrips":{}}]}}"#
    );
}

#[test]
fn a_game_file_is_read_from_its_text() {
    let text = r#"{"state": {
        "ScoreBoard.Version(release)": "v2025.8",
        "ScoreBoard.Game(67e55044-10b1-426f-9247-bb680e5fe0c8).Name": "G",
        "ScoreBoard.Game(67e55044-10b1-426f-9247-bb680e5fe0c8).Period(1).Duration": 1.5,
        "ScoreBoard.Game(67e55044-10b1-426f-9247-bb680e5fe0c8).Team(1).Color(overlay.bg)": "red",
        "ScoreBoard.Game(67e55044-10b1-426f-9247-bb680e5fe0c8).Team(1).AlternateName(overlay)": "R",
        "ScoreBoard.Game(67e55044-10b1-426f-9247-bb680e5fe0c8).Team(1).AlternateName(scoreboard)": "RR",
        "ScoreBoard.Game(67e55044-10b1-426f-9247-bb680e5fe0c8).Team(2).Color(overlay.bg)": "blue",
        "ScoreBoard.Game(67e55044-10b1-426f-9247-bb680e5fe0c8).Team(2).AlternateName(overlay)": "B",
        "ScoreBoard.Game(67e55044-10b1-426f-9247-bb680e5fe0c8).Team(2).AlternateName(scoreboard)": "BB"
    }}"#;
    let trees = try_game_file_state_from_text(text).unwrap().unwrap();
    assert_eq!(render(&trees.version), r#"{"release":"v2025.8"}"#);
    let games = render(&trees.games.unwrap());
    assert!(games.starts_with(r#"{"67e55044-10b1-426f-9247-bb680e5fe0c8":{"Clocks":{}"#));
    assert!(games.contains(r#""Periods":{"1":{"Duration":1.5,"Jams":{},"Timeouts":{}}}"#));
    assert!(games.contains(r#""Name":"G""#));
}

#[test]
fn text_that_is_no_json_object_is_an_error() {
    assert!(try_game_file_state_from_text("not json").is_err());
    assert!(try_game_file_state_from_text("[1, 2]").is_err());
    assert!(matches!(try_game_file_state_from_text("{}"), Ok(None)));
    assert!(matches!(try_game_file_state_from_text(r#"{"state": 1}"#), Ok(None)));
}

#[test]
fn a_parsed_document_keeps_its_values() {
    let text = r#"{"state": {"ScoreBoard.Version(a)": [1, true, null, "x", {"b": -2.5e3}], "ScoreBoard.Version(c)": {}}}"#;
    let trees = try_game_file_state_from_text(text).unwrap().unwrap();
    assert_eq!(render(&trees.version), r#"{"a":[1,true,null,"x",{"b":-2500.0}],"c":{}}"#);
}

#[test]
fn unreadable_games_leave_the_version() {
    let text = r#"{"state": {"ScoreBoard.Version(release)": "v2025.5", "ScoreBoard.Game(nope).Name": "x"}}"#;
    let trees = try_game_file_state_from_text(text).unwrap().unwrap();
    assert_eq!(render(&trees.version), r#"{"release":"v2025.5"}"#);
    assert!(trees.games.is_none());
}

#[test]
fn brackets_and_dots_in_keys_read_alike() {
    let g = "67e55044-10b1-426f-9247-bb680e5fe0c8";
    let bracketed = format!(r#"{{"state": {{"ScoreBoard.Game({}).Period(1).Number": 1}}}}"#, g);
    let dotted = format!(r#"{{"state": {{"ScoreBoard.Game.{}.Period.1.Number": 1}}}}"#, g);
    let a = try_game_file_state_from_text(&bracketed).unwrap().unwrap();
    let b = try_game_file_state_from_text(&dotted).unwrap().unwrap();
    assert_eq!(render(&a.version), render(&b.version));
    assert!(a.games.is_none() && b.games.is_none());
    let ka: Vec<String> = a.reads.iter().map(|r| format!("{:?}:{}", r.kind, render(&r.value))).collect();
    let kb: Vec<String> = b.reads.iter().map(|r| format!("{:?}:{}", r.kind, render(&r.value))).collect();
    assert_eq!(ka, kb);
    assert_eq!(ka.len(), 3);
}
