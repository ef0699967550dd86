use packsight::json::{JsonObject, JsonValue};
use packsight::state::{get_ids, insert_base, strip_prefix, trim_at};

fn s(v: &str) -> JsonValue {
    JsonValue::String(v.to_string())
}

fn obj(pairs: &[(&str, JsonValue)]) -> JsonObject {
    let mut o = JsonObject::new();
    for (k, v) in pairs {
        o.insert(k.to_string(), v.clone_value());
    }
    o
}

fn keys(o: &JsonObject) -> Vec<String> {
    let mut ks: Vec<String> = o.entries.iter().map(|(k, _)| k.clone()).collect();
    ks.sort();
    ks
}

#[test]
fn strip_prefix_keeps_the_rest_of_matching_keys() {
    let state = obj(&[("Jam.1.Number", s("1")), ("Jam.2.Number", s("2")), ("Period.1", s("x"))]);
    let r = strip_prefix(&state, "Jam.");
    assert_eq!(keys(&r), vec!["1.Number".to_string(), "2.Number".to_string()]);
}

#[test]
fn insert_base_copies_undotted_keys() {
    let state = obj(&[("Name", s("a")), ("Team.1.Name", s("b")), ("Id", s("c"))]);
    let mut out = JsonObject::new();
    insert_base(&state, &mut out, None);
    assert_eq!(keys(&out), vec!["Id".to_string(), "Name".to_string()]);
    let mut out2 = JsonObject::new();
    insert_base(&state, &mut out2, Some(vec!["Id"]));
    assert_eq!(keys(&out2), vec!["Name".to_string()]);
}

#[test]
fn get_ids_lists_first_segments_once() {
    let state = obj(&[("1.A", s("a")), ("1.B", s("b")), ("2.A", s("c"))]);
    let mut ids = get_ids(&state);
    ids.sort();
    assert_eq!(ids, vec!["1".to_string(), "2".to_string()]);
}

#[test]
fn trim_at_cuts_before_the_delimiter() {
    match trim_at(&s("abc_def_g"), "_") {
        JsonValue::String(t) => assert_eq!(t, "abc"),
        _ => panic!("not a string"),
    }
}
