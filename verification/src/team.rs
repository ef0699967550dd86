//! A team: its skaters, their penalties, and its box trips.

use vstd::prelude::*;

use crate::ids::{id_keys, id_keys_of, ids_ok, keyed_by_uuid_texts, IdKind};
use crate::json::{JsonObject, JsonValue, SpecJson};
use crate::reads::{join_reads, keyed_reads_of, listed_reads, no_reads, push_read, reads_view, Read, ReadKind, SpecRead};
use crate::state::{
    base, base_object, base_tree, build_base, build_keyed, id_segments, keyed, keyed_ok, strip_prefix,
    stripped, Fields,
};

verus! {

/// The two names a team shows besides its own.
#[derive(Debug, Clone)]
pub struct AlternateName {
    pub overlay: String,
    pub scoreboard: String,
}

// ---------------------------------------------------------------------------
// Penalties
// ---------------------------------------------------------------------------

/// Whether the penalties can be read: every key starts with a `u8` and a '.'.
pub open spec fn penalties_ok(m: Fields) -> bool {
    ids_ok(m, IdKind::Byte)
}

/// The penalties: under each number, the entries of that penalty without a '.'.
pub open spec fn penalties_tree(m: Fields) -> SpecJson {
    SpecJson::Object(keyed(m, id_keys(m, IdKind::Byte), |s: Fields| base_tree(s)))
}

/// The penalties, each under its number; `None` where a key does not start
/// with a `u8` and a '.'.
pub fn try_penalties_from_state_map(state: &JsonObject) -> (r: Option<JsonValue>)
    ensures
        r is Some <==> penalties_ok(state@),
        r matches Some(t) ==> t@ == penalties_tree(state@),
{
    let keys = id_keys_of(state, &IdKind::Byte)?;
    let o = build_keyed(
        state,
        &keys,
        build_base,
        Ghost(id_keys(state@, IdKind::Byte)),
        Ghost(|s: Fields| true),
        Ghost(|s: Fields| base_tree(s)),
    );
    match o {
        Some(o) => Some(JsonValue::Object(o)),
        None => None,
    }
}

// ---------------------------------------------------------------------------
// Skaters
// ---------------------------------------------------------------------------

/// Whether a skater can be read: its penalties can.
pub open spec fn skater_ok(m: Fields) -> bool {
    penalties_ok(stripped(m, "Penalty."@))
}

/// A skater: its entries without a '.', its fieldings, and its penalties.
pub open spec fn skater_tree(m: Fields) -> SpecJson {
    SpecJson::Object(
        base(m).insert("Fielding"@, SpecJson::Object(base(stripped(m, "Fielding."@)))).insert(
            "Penalties"@,
            penalties_tree(stripped(m, "Penalty."@)),
        ),
    )
}

/// A skater; `None` where its penalties cannot be read.
pub fn try_skater_from_state_map(state: &JsonObject) -> (r: Option<JsonValue>)
    ensures
        r is Some <==> skater_ok(state@),
        r matches Some(t) ==> t@ == skater_tree(state@),
{
    let mut result = base_object(state);
    let fieldings = base_object(&strip_prefix(state, "Fielding."));
    result.insert("Fielding".to_owned(), JsonValue::Object(fieldings));
    let penalties = try_penalties_from_state_map(&strip_prefix(state, "Penalty."))?;
    result.insert("Penalties".to_owned(), penalties);
    Some(JsonValue::Object(result))
}

/// Whether the skaters can be read: every key starts with a UUID and a '.',
/// and each skater can be read.
pub open spec fn skaters_ok(m: Fields) -> bool {
    &&& ids_ok(m, IdKind::Uuid)
    &&& keyed_ok(m, id_keys(m, IdKind::Uuid), |s: Fields| skater_ok(s))
}

/// The skaters: each under its UUID.
pub open spec fn skaters_tree(m: Fields) -> SpecJson {
    SpecJson::Object(keyed(m, id_keys(m, IdKind::Uuid), |s: Fields| skater_tree(s)))
}

/// The skaters, each under its UUID; `None` where a key does not start with
/// a UUID and a '.', or a skater cannot be read.
pub fn try_skaters_from_state_map(state: &JsonObject) -> (r: Option<JsonValue>)
    ensures
        r is Some <==> skaters_ok(state@),
        r matches Some(t) ==> t@ == skaters_tree(state@),
        keyed_by_uuid_texts(state@) ==> id_keys(state@, IdKind::Uuid) == id_segments(state@),
{
    let keys = id_keys_of(state, &IdKind::Uuid)?;
    let o = build_keyed(
        state,
        &keys,
        try_skater_from_state_map,
        Ghost(id_keys(state@, IdKind::Uuid)),
        Ghost(|s: Fields| skater_ok(s)),
        Ghost(|s: Fields| skater_tree(s)),
    );
    match o {
        Some(o) => Some(JsonValue::Object(o)),
        None => None,
    }
}

// ---------------------------------------------------------------------------
// Box trips
// ---------------------------------------------------------------------------

/// A box trip: its entries without a '.', its fieldings and its penalties.
pub open spec fn box_trip_tree(m: Fields) -> SpecJson {
    SpecJson::Object(
        base(m).insert("Fielding"@, SpecJson::Object(stripped(m, "Fielding."@))).insert(
            "Penalties"@,
            SpecJson::Object(stripped(m, "Penalty."@)),
        ),
    )
}

pub(crate) fn build_box_trip(state: &JsonObject) -> (r: Option<JsonValue>)
    ensures
        r matches Some(t) && t@ == box_trip_tree(state@),
{
    let mut result = base_object(state);
    result.insert("Fielding".to_owned(), JsonValue::Object(strip_prefix(state, "Fielding.")));
    result.insert("Penalties".to_owned(), JsonValue::Object(strip_prefix(state, "Penalty.")));
    Some(JsonValue::Object(result))
}

/// A box trip, from the entries under its UUID.
pub fn box_trip_from_state_map(state: &JsonObject) -> (r: JsonValue)
    ensures
        r@ == box_trip_tree(state@),
{
    build_box_trip(state).unwrap()
}

/// Whether the box trips can be read: every key starts with a UUID and a '.'.
pub open spec fn box_trips_ok(m: Fields) -> bool {
    ids_ok(m, IdKind::Uuid)
}

/// The box trips: each under its UUID.
pub open spec fn box_trips_tree(m: Fields) -> SpecJson {
    SpecJson::Object(keyed(m, id_keys(m, IdKind::Uuid), |s: Fields| box_trip_tree(s)))
}

/// The box trips, each under its UUID; `None` where a key does not start
/// with a UUID and a '.'.
pub fn try_box_trips_from_state_map(state: &JsonObject) -> (r: Option<JsonValue>)
    ensures
        r is Some <==> box_trips_ok(state@),
        r matches Some(t) ==> t@ == box_trips_tree(state@),
        keyed_by_uuid_texts(state@) ==> (r is Some && id_keys(state@, IdKind::Uuid) == id_segments(state@)),
{
    let keys = id_keys_of(state, &IdKind::Uuid)?;
    let o = build_keyed(
        state,
        &keys,
        build_box_trip,
        Ghost(id_keys(state@, IdKind::Uuid)),
        Ghost(|s: Fields| true),
        Ghost(|s: Fields| box_trip_tree(s)),
    );
    match o {
        Some(o) => Some(JsonValue::Object(o)),
        None => None,
    }
}

// ---------------------------------------------------------------------------
// Team
// ---------------------------------------------------------------------------

/// Whether a team can be read: its colour and both alternate names are
/// there, and its box trips and skaters can be read.
pub open spec fn team_ok(m: Fields) -> bool {
    &&& m.contains_key("Color.overlay.bg"@)
    &&& m.contains_key("AlternateName.overlay"@)
    &&& m.contains_key("AlternateName.scoreboard"@)
    &&& box_trips_ok(stripped(m, "BoxTrip."@))
    &&& skaters_ok(stripped(m, "Skater."@))
}

/// The alternate names of a team.
pub open spec fn alternate_name_tree(m: Fields) -> SpecJson {
    SpecJson::Object(
        Map::empty().insert("overlay"@, m["AlternateName.overlay"@]).insert(
            "scoreboard"@,
            m["AlternateName.scoreboard"@],
        ),
    )
}

/// A team: its entries without a '.', its colour, its alternate names, box
/// trips, timeouts and skaters.
pub open spec fn team_tree(m: Fields) -> SpecJson {
    SpecJson::Object(
        base(m).insert("Color.overlay.bg"@, m["Color.overlay.bg"@]).insert(
            "AlternateName"@,
            alternate_name_tree(m),
        ).insert("BoxTrips"@, box_trips_tree(stripped(m, "BoxTrip."@))).insert(
            "TimeOut"@,
            SpecJson::Object(stripped(m, "TimeOut."@)),
        ).insert("Skaters"@, skaters_tree(stripped(m, "Skater."@))),
    )
}

/// A team; `None` where its colour or one of its alternate names is missing,
/// or its box trips or skaters cannot be read.
pub fn try_team_from_state_map(state: &JsonObject) -> (r: Option<JsonValue>)
    ensures
        r is Some <==> team_ok(state@),
        r matches Some(t) ==> t@ == team_tree(state@),
{
    let mut result = base_object(state);
    let color = state.get("Color.overlay.bg")?;
    result.insert("Color.overlay.bg".to_owned(), color.clone_value());
    let overlay = state.get("AlternateName.overlay")?;
    let scoreboard = state.get("AlternateName.scoreboard")?;
    let mut alternate = JsonObject::new();
    alternate.insert("overlay".to_owned(), overlay.clone_value());
    alternate.insert("scoreboard".to_owned(), scoreboard.clone_value());
    result.insert("AlternateName".to_owned(), JsonValue::Object(alternate));
    let box_trips = try_box_trips_from_state_map(&strip_prefix(state, "BoxTrip."))?;
    result.insert("BoxTrips".to_owned(), box_trips);
    result.insert("TimeOut".to_owned(), JsonValue::Object(strip_prefix(state, "TimeOut.")));
    let skaters = try_skaters_from_state_map(&strip_prefix(state, "Skater."))?;
    result.insert("Skaters".to_owned(), skaters);
    Some(JsonValue::Object(result))
}

// ---------------------------------------------------------------------------
// Reads
// ---------------------------------------------------------------------------

/// The reads that the penalties make: none where a key does not start with
/// a `u8` and a '.'; otherwise each penalty, in some order.
pub open spec fn penalties_reads(m: Fields, s: Seq<SpecRead>) -> bool {
    if !penalties_ok(m) {
        s == Seq::<SpecRead>::empty()
    } else {
        listed_reads(
            m,
            id_keys(m, IdKind::Byte),
            |k: Seq<char>, c: Fields, t: Seq<SpecRead>| t == seq![(ReadKind::Penalty, base_tree(c))],
            |c: Fields| true,
            s,
        )
    }
}

fn penalty_part(key: &String, state: &JsonObject) -> (t: (bool, Vec<Read>))
    ensures
        t.0,
        reads_view(t.1@) == seq![(ReadKind::Penalty, base_tree(state@))],
{
    let mut reads = no_reads();
    push_read(&mut reads, ReadKind::Penalty, JsonValue::Object(base_object(state)));
    (true, reads)
}

/// The reads that the penalties of a skater make, in the order they are made.
pub fn penalties_reads_of(state: &JsonObject) -> (r: Vec<Read>)
    ensures
        penalties_reads(state@, reads_view(r@)),
{
    match id_keys_of(state, &IdKind::Byte) {
        None => no_reads(),
        Some(keys) => {
            let (_, reads) = keyed_reads_of(
                state,
                &keys,
                penalty_part,
                Ghost(|k: Seq<char>, c: Fields, t: Seq<SpecRead>| t == seq![(ReadKind::Penalty, base_tree(c))]),
                Ghost(|c: Fields| true),
            );
            reads
        },
    }
}

/// The reads that a skater makes: those of its penalties, then, where they
/// can be taken apart, the skater itself.
pub open spec fn skater_reads(m: Fields, s: Seq<SpecRead>) -> bool {
    exists|a: Seq<SpecRead>|
        #[trigger] penalties_reads(stripped(m, "Penalty."@), a) && s == if penalties_ok(stripped(m, "Penalty."@)) {
            a.push((ReadKind::Skater, skater_tree(m)))
        } else {
            a
        }
}

/// The reads that a skater makes, in the order they are made.
pub fn skater_reads_of(state: &JsonObject) -> (r: Vec<Read>)
    ensures
        skater_reads(state@, reads_view(r@)),
{
    let mut reads = penalties_reads_of(&strip_prefix(state, "Penalty."));
    let ghost a = reads_view(reads@);
    match try_skater_from_state_map(state) {
        None => reads,
        Some(t) => {
            push_read(&mut reads, ReadKind::Skater, t);
            reads
        },
    }
}

fn skater_part(key: &String, state: &JsonObject) -> (t: (bool, Vec<Read>))
    ensures
        t.0 == skater_ok(state@),
        skater_reads(state@, reads_view(t.1@)),
{
    let reads = skater_reads_of(state);
    (try_skater_from_state_map(state).is_some(), reads)
}

/// The reads that the skaters make: none where a key does not start with a
/// UUID and a '.'; otherwise those of each skater, in some order, up to the
/// first whose penalties cannot be taken apart.
pub open spec fn skaters_reads(m: Fields, s: Seq<SpecRead>) -> bool {
    if !ids_ok(m, IdKind::Uuid) {
        s == Seq::<SpecRead>::empty()
    } else {
        listed_reads(
            m,
            id_keys(m, IdKind::Uuid),
            |k: Seq<char>, c: Fields, t: Seq<SpecRead>| skater_reads(c, t),
            |c: Fields| skater_ok(c),
            s,
        )
    }
}

/// The reads that the skaters of a team make, in the order they are made.
pub fn skaters_reads_of(state: &JsonObject) -> (r: Vec<Read>)
    ensures
        skaters_reads(state@, reads_view(r@)),
{
    match id_keys_of(state, &IdKind::Uuid) {
        None => no_reads(),
        Some(keys) => {
            let (_, reads) = keyed_reads_of(
                state,
                &keys,
                skater_part,
                Ghost(|k: Seq<char>, c: Fields, t: Seq<SpecRead>| skater_reads(c, t)),
                Ghost(|c: Fields| skater_ok(c)),
            );
            reads
        },
    }
}

/// The reads that the box trips make: none where a key does not start with
/// a UUID and a '.'; otherwise each box trip, in some order.
pub open spec fn box_trips_reads(m: Fields, s: Seq<SpecRead>) -> bool {
    if !box_trips_ok(m) {
        s == Seq::<SpecRead>::empty()
    } else {
        listed_reads(
            m,
            id_keys(m, IdKind::Uuid),
            |k: Seq<char>, c: Fields, t: Seq<SpecRead>| t == seq![(ReadKind::BoxTrip, box_trip_tree(c))],
            |c: Fields| true,
            s,
        )
    }
}

fn box_trip_part(key: &String, state: &JsonObject) -> (t: (bool, Vec<Read>))
    ensures
        t.0,
        reads_view(t.1@) == seq![(ReadKind::BoxTrip, box_trip_tree(state@))],
{
    let mut reads = no_reads();
    push_read(&mut reads, ReadKind::BoxTrip, box_trip_from_state_map(state));
    (true, reads)
}

/// The reads that the box trips of a team make, in the order they are made.
pub fn box_trips_reads_of(state: &JsonObject) -> (r: Vec<Read>)
    ensures
        box_trips_reads(state@, reads_view(r@)),
{
    match id_keys_of(state, &IdKind::Uuid) {
        None => no_reads(),
        Some(keys) => {
            let (_, reads) = keyed_reads_of(
                state,
                &keys,
                box_trip_part,
                Ghost(|k: Seq<char>, c: Fields, t: Seq<SpecRead>| t == seq![(ReadKind::BoxTrip, box_trip_tree(c))]),
                Ghost(|c: Fields| true),
            );
            reads
        },
    }
}

/// Whether a team holds its colour and both alternate names.
pub open spec fn team_names_present(m: Fields) -> bool {
    &&& m.contains_key("Color.overlay.bg"@)
    &&& m.contains_key("AlternateName.overlay"@)
    &&& m.contains_key("AlternateName.scoreboard"@)
}

/// The reads that a team makes: none where its colour or an alternate name
/// is missing; otherwise those of its box trips, then, where they can be
/// taken apart, those of its skaters, then, where they can too, the team.
pub open spec fn team_reads(m: Fields, s: Seq<SpecRead>) -> bool {
    let b = stripped(m, "BoxTrip."@);
    let k = stripped(m, "Skater."@);
    if !team_names_present(m) {
        s == Seq::<SpecRead>::empty()
    } else {
        exists|x: Seq<SpecRead>|
            #[trigger] box_trips_reads(b, x) && if !box_trips_ok(b) {
                s == x
            } else {
                exists|y: Seq<SpecRead>|
                    #[trigger] skaters_reads(k, y) && s == if skaters_ok(k) {
                        (x + y).push((ReadKind::Team, team_tree(m)))
                    } else {
                        x + y
                    }
            }
    }
}

/// The reads that a team makes, in the order they are made.
pub fn team_reads_of(state: &JsonObject) -> (r: Vec<Read>)
    ensures
        team_reads(state@, reads_view(r@)),
{
    if state.get("Color.overlay.bg").is_none() || state.get("AlternateName.overlay").is_none() || state.get(
        "AlternateName.scoreboard",
    ).is_none() {
        return no_reads();
    }
    let trips = strip_prefix(state, "BoxTrip.");
    let mut reads = box_trips_reads_of(&trips);
    let ghost x = reads_view(reads@);
    if try_box_trips_from_state_map(&trips).is_none() {
        return reads;
    }
    let skaters = strip_prefix(state, "Skater.");
    let more = skaters_reads_of(&skaters);
    let ghost y = reads_view(more@);
    join_reads(&mut reads, more);
    match try_team_from_state_map(state) {
        None => reads,
        Some(t) => {
            push_read(&mut reads, ReadKind::Team, t);
            reads
        },
    }
}

} // verus!
