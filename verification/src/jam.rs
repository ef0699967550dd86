//! The jams of a period: each with the jams of its two teams, their
//! fieldings and scoring trips.

use vstd::prelude::*;

use crate::ids::{id_keys, id_keys_of, ids_ok, IdKind};
use crate::json::{JsonObject, JsonValue, SpecJson};
use crate::reads::{join_reads, keyed_reads_of, listed_reads, no_reads, push_read, reads_view, Read, ReadKind, SpecRead};
use crate::state::{
    all_dotted, base, base_object, base_tree, build_base, build_keyed, get_ids, id_segments, keyed,
    keyed_ok, keys_dotted, strip_prefix, stripped, Fields,
};

verus! {

/// The positions a skater can be fielded in.
#[derive(Debug, Clone, Copy, PartialEq, Eq, Hash)]
pub enum FieldingPosition {
    Blocker1,
    Blocker2,
    Blocker3,
    Jammer,
    Pivot,
}

// ---------------------------------------------------------------------------
// Scoring trips
// ---------------------------------------------------------------------------

/// A scoring trip, from the entries under its number.
pub fn scoring_trip_from_state_map(state: &JsonObject) -> (r: JsonValue)
    ensures
        r@ == base_tree(state@),
{
    JsonValue::Object(base_object(state))
}

/// Whether the scoring trips can be read: every key starts with a `u16` and a '.'.
pub open spec fn scoring_trips_ok(m: Fields) -> bool {
    ids_ok(m, IdKind::Short)
}

/// The scoring trips: under each number, the entries of that trip without a '.'.
pub open spec fn scoring_trips_tree(m: Fields) -> SpecJson {
    SpecJson::Object(keyed(m, id_keys(m, IdKind::Short), |s: Fields| base_tree(s)))
}

/// The scoring trips, each under its number; `None` where a key does not
/// start with a `u16` and a '.'.
pub fn try_scoring_trips_from_state_map(state: &JsonObject) -> (r: Option<JsonValue>)
    ensures
        r is Some <==> scoring_trips_ok(state@),
        r matches Some(t) ==> t@ == scoring_trips_tree(state@),
{
    let keys = id_keys_of(state, &IdKind::Short)?;
    let o = build_keyed(
        state,
        &keys,
        build_base,
        Ghost(id_keys(state@, IdKind::Short)),
        Ghost(|s: Fields| true),
        Ghost(|s: Fields| base_tree(s)),
    );
    match o {
        Some(o) => Some(JsonValue::Object(o)),
        None => None,
    }
}

// ---------------------------------------------------------------------------
// Fielding
// ---------------------------------------------------------------------------

/// Whether the fielding can be read: every key holds a '.'.
pub open spec fn fielding_ok(m: Fields) -> bool {
    all_dotted(m)
}

/// The fielding: under each position named before a '.', the entries of
/// that position without a further '.'.
pub open spec fn fielding_tree(m: Fields) -> SpecJson {
    SpecJson::Object(keyed(m, id_segments(m), |s: Fields| base_tree(s)))
}

/// The fielding, each position under its name; `None` where a key has no '.'.
pub fn try_fielding_from_state_map(state: &JsonObject) -> (r: Option<JsonValue>)
    ensures
        r is Some <==> fielding_ok(state@),
        r matches Some(t) ==> t@ == fielding_tree(state@),
{
    if !keys_dotted(state) {
        return None;
    }
    let positions = get_ids(state);
    let o = build_keyed(
        state,
        &positions,
        build_base,
        Ghost(id_segments(state@)),
        Ghost(|s: Fields| true),
        Ghost(|s: Fields| base_tree(s)),
    );
    match o {
        Some(o) => Some(JsonValue::Object(o)),
        None => None,
    }
}

// ---------------------------------------------------------------------------
// Team jams
// ---------------------------------------------------------------------------

/// Whether the jam of one team can be read: its fielding and its scoring
/// trips can.
pub open spec fn team_jam_ok(m: Fields) -> bool {
    &&& fielding_ok(stripped(m, "Fielding."@))
    &&& scoring_trips_ok(stripped(m, "ScoringTrip."@))
}

/// The jam of one team: its entries without a '.', its fielding and its
/// scoring trips.
pub open spec fn team_jam_tree(m: Fields) -> SpecJson {
    SpecJson::Object(
        base(m).insert("Fielding"@, fielding_tree(stripped(m, "Fielding."@))).insert(
            "ScoringTrips"@,
            scoring_trips_tree(stripped(m, "ScoringTrip."@)),
        ),
    )
}

/// The jam of one team; `None` where its fielding or its scoring trips
/// cannot be read.
pub fn try_team_jam_from_state_map(state: &JsonObject) -> (r: Option<JsonValue>)
    ensures
        r is Some <==> team_jam_ok(state@),
        r matches Some(t) ==> t@ == team_jam_tree(state@),
{
    let mut result = base_object(state);
    let fielding = try_fielding_from_state_map(&strip_prefix(state, "Fielding."))?;
    result.insert("Fielding".to_owned(), fielding);
    let trips = try_scoring_trips_from_state_map(&strip_prefix(state, "ScoringTrip."))?;
    result.insert("ScoringTrips".to_owned(), trips);
    Some(JsonValue::Object(result))
}

// ---------------------------------------------------------------------------
// Jams
// ---------------------------------------------------------------------------

/// Whether a jam can be read: the jams of both teams can.
pub open spec fn jam_ok(m: Fields) -> bool {
    &&& team_jam_ok(stripped(m, "TeamJam.1."@))
    &&& team_jam_ok(stripped(m, "TeamJam.2."@))
}

/// A jam: its entries without a '.', its penalties, and the jams of its two
/// teams, in order.
pub open spec fn jam_tree(m: Fields) -> SpecJson {
    SpecJson::Object(
        base(m).insert("Penalty"@, SpecJson::Object(stripped(m, "Penalty."@))).insert(
            "TeamJam"@,
            SpecJson::Array(
                seq![team_jam_tree(stripped(m, "TeamJam.1."@)), team_jam_tree(stripped(m, "TeamJam.2."@))],
            ),
        ),
    )
}

/// A jam; `None` where the jam of one of its teams cannot be read.
pub fn try_jam_from_state_map(state: &JsonObject) -> (r: Option<JsonValue>)
    ensures
        r is Some <==> jam_ok(state@),
        r matches Some(t) ==> t@ == jam_tree(state@),
{
    let mut result = base_object(state);
    result.insert("Penalty".to_owned(), JsonValue::Object(strip_prefix(state, "Penalty.")));
    let first = try_team_jam_from_state_map(&strip_prefix(state, "TeamJam.1."))?;
    let second = try_team_jam_from_state_map(&strip_prefix(state, "TeamJam.2."))?;
    let ghost v1 = first;
    let ghost v2 = second;
    let mut team_jams: Vec<JsonValue> = Vec::new();
    team_jams.push(first);
    team_jams.push(second);
    proof {
        let empty = Seq::<JsonValue>::empty();
        crate::json::lemma_values_push(empty, v1);
        crate::json::lemma_values_push(empty.push(v1), v2);
        assert(crate::json::values_view(empty) =~= Seq::<SpecJson>::empty());
        assert(team_jams@ =~= empty.push(v1).push(v2));
        assert(crate::json::values_view(team_jams@) =~= seq![v1@, v2@]);
    }
    result.insert("TeamJam".to_owned(), JsonValue::Array(team_jams));
    Some(JsonValue::Object(result))
}

/// Whether the jams can be read: every key starts with a `u16` and a '.',
/// and each jam can be read.
pub open spec fn jams_ok(m: Fields) -> bool {
    &&& ids_ok(m, IdKind::Short)
    &&& keyed_ok(m, id_keys(m, IdKind::Short), |s: Fields| jam_ok(s))
}

/// The jams: each under its number.
pub open spec fn jams_tree(m: Fields) -> SpecJson {
    SpecJson::Object(keyed(m, id_keys(m, IdKind::Short), |s: Fields| jam_tree(s)))
}

/// The jams, each under its number; `None` where a key does not start with
/// a `u16` and a '.', or a jam cannot be read.
pub fn try_jams_from_state_map(state: &JsonObject) -> (r: Option<JsonValue>)
    ensures
        r is Some <==> jams_ok(state@),
        r matches Some(t) ==> t@ == jams_tree(state@),
{
    let keys = id_keys_of(state, &IdKind::Short)?;
    let o = build_keyed(
        state,
        &keys,
        try_jam_from_state_map,
        Ghost(id_keys(state@, IdKind::Short)),
        Ghost(|s: Fields| jam_ok(s)),
        Ghost(|s: Fields| jam_tree(s)),
    );
    match o {
        Some(o) => Some(JsonValue::Object(o)),
        None => None,
    }
}

// ---------------------------------------------------------------------------
// Reads
// ---------------------------------------------------------------------------

/// The reads that the scoring trips make: none where a key does not start
/// with a `u16` and a '.'; otherwise each scoring trip, in some order.
pub open spec fn scoring_trips_reads(m: Fields, s: Seq<SpecRead>) -> bool {
    if !scoring_trips_ok(m) {
        s == Seq::<SpecRead>::empty()
    } else {
        listed_reads(
            m,
            id_keys(m, IdKind::Short),
            |k: Seq<char>, c: Fields, t: Seq<SpecRead>| t == seq![(ReadKind::ScoringTrip, base_tree(c))],
            |c: Fields| true,
            s,
        )
    }
}

fn scoring_trip_part(key: &String, state: &JsonObject) -> (t: (bool, Vec<Read>))
    ensures
        t.0,
        reads_view(t.1@) == seq![(ReadKind::ScoringTrip, base_tree(state@))],
{
    let mut reads = no_reads();
    push_read(&mut reads, ReadKind::ScoringTrip, scoring_trip_from_state_map(state));
    (true, reads)
}

/// The reads that the scoring trips of a team jam make, in the order they
/// are made.
pub fn scoring_trips_reads_of(state: &JsonObject) -> (r: Vec<Read>)
    ensures
        scoring_trips_reads(state@, reads_view(r@)),
{
    match id_keys_of(state, &IdKind::Short) {
        None => no_reads(),
        Some(keys) => {
            let (_, reads) = keyed_reads_of(
                state,
                &keys,
                scoring_trip_part,
                Ghost(|k: Seq<char>, c: Fields, t: Seq<SpecRead>| t == seq![(ReadKind::ScoringTrip, base_tree(c))]),
                Ghost(|c: Fields| true),
            );
            reads
        },
    }
}

/// The reads that the fielding makes: none where a key has no '.';
/// otherwise, for each position in some order, its name and then the
/// skater fielded there.
pub open spec fn fielding_reads(m: Fields, s: Seq<SpecRead>) -> bool {
    if !fielding_ok(m) {
        s == Seq::<SpecRead>::empty()
    } else {
        listed_reads(
            m,
            id_segments(m),
            |k: Seq<char>, c: Fields, t: Seq<SpecRead>|
                t == seq![(ReadKind::FieldingPosition, SpecJson::Str(k)), (ReadKind::FieldingPositionSkater, base_tree(c))],
            |c: Fields| true,
            s,
        )
    }
}

fn fielding_part(key: &String, state: &JsonObject) -> (t: (bool, Vec<Read>))
    ensures
        t.0,
        reads_view(t.1@) == seq![
            (ReadKind::FieldingPosition, SpecJson::Str(key@)),
            (ReadKind::FieldingPositionSkater, base_tree(state@)),
        ],
{
    let mut reads = no_reads();
    push_read(&mut reads, ReadKind::FieldingPosition, JsonValue::String(key.clone()));
    push_read(&mut reads, ReadKind::FieldingPositionSkater, JsonValue::Object(base_object(state)));
    (true, reads)
}

/// The reads that the fielding of a team jam makes, in the order they are made.
pub fn fielding_reads_of(state: &JsonObject) -> (r: Vec<Read>)
    ensures
        fielding_reads(state@, reads_view(r@)),
{
    if !keys_dotted(state) {
        return no_reads();
    }
    let positions = get_ids(state);
    let (_, reads) = keyed_reads_of(
        state,
        &positions,
        fielding_part,
        Ghost(
            |k: Seq<char>, c: Fields, t: Seq<SpecRead>|
                t == seq![(ReadKind::FieldingPosition, SpecJson::Str(k)), (ReadKind::FieldingPositionSkater, base_tree(c))],
        ),
        Ghost(|c: Fields| true),
    );
    reads
}

/// The reads that the jam of one team makes: those of its fielding, then,
/// where it can be taken apart, those of its scoring trips, then, where they
/// can too, the team jam.
pub open spec fn team_jam_reads(m: Fields, s: Seq<SpecRead>) -> bool {
    let f = stripped(m, "Fielding."@);
    let t = stripped(m, "ScoringTrip."@);
    exists|x: Seq<SpecRead>|
        #[trigger] fielding_reads(f, x) && if !fielding_ok(f) {
            s == x
        } else {
            exists|y: Seq<SpecRead>|
                #[trigger] scoring_trips_reads(t, y) && s == if scoring_trips_ok(t) {
                    (x + y).push((ReadKind::TeamJam, team_jam_tree(m)))
                } else {
                    x + y
                }
        }
}

/// The reads that the jam of one team makes, in the order they are made.
pub fn team_jam_reads_of(state: &JsonObject) -> (r: Vec<Read>)
    ensures
        team_jam_reads(state@, reads_view(r@)),
{
    let fielding = strip_prefix(state, "Fielding.");
    let mut reads = fielding_reads_of(&fielding);
    let ghost x = reads_view(reads@);
    if try_fielding_from_state_map(&fielding).is_none() {
        return reads;
    }
    let trips = strip_prefix(state, "ScoringTrip.");
    let more = scoring_trips_reads_of(&trips);
    let ghost y = reads_view(more@);
    join_reads(&mut reads, more);
    match try_team_jam_from_state_map(state) {
        None => reads,
        Some(t) => {
            push_read(&mut reads, ReadKind::TeamJam, t);
            reads
        },
    }
}

/// The reads that a jam makes: those of the jam of its first team, then,
/// where it can be taken apart, those of the second, then, where it can
/// too, the jam.
pub open spec fn jam_reads(m: Fields, s: Seq<SpecRead>) -> bool {
    let one = stripped(m, "TeamJam.1."@);
    let two = stripped(m, "TeamJam.2."@);
    exists|x: Seq<SpecRead>|
        #[trigger] team_jam_reads(one, x) && if !team_jam_ok(one) {
            s == x
        } else {
            exists|y: Seq<SpecRead>|
                #[trigger] team_jam_reads(two, y) && s == if team_jam_ok(two) {
                    (x + y).push((ReadKind::Jam, jam_tree(m)))
                } else {
                    x + y
                }
        }
}

/// The reads that a jam makes, in the order they are made.
pub fn jam_reads_of(state: &JsonObject) -> (r: Vec<Read>)
    ensures
        jam_reads(state@, reads_view(r@)),
{
    let one = strip_prefix(state, "TeamJam.1.");
    let mut reads = team_jam_reads_of(&one);
    let ghost x = reads_view(reads@);
    if try_team_jam_from_state_map(&one).is_none() {
        return reads;
    }
    let two = strip_prefix(state, "TeamJam.2.");
    let more = team_jam_reads_of(&two);
    let ghost y = reads_view(more@);
    join_reads(&mut reads, more);
    match try_jam_from_state_map(state) {
        None => reads,
        Some(t) => {
            push_read(&mut reads, ReadKind::Jam, t);
            reads
        },
    }
}

fn jam_part(key: &String, state: &JsonObject) -> (t: (bool, Vec<Read>))
    ensures
        t.0 == jam_ok(state@),
        jam_reads(state@, reads_view(t.1@)),
{
    let reads = jam_reads_of(state);
    (try_jam_from_state_map(state).is_some(), reads)
}

/// The reads that the jams make: none where a key does not start with a
/// `u16` and a '.'; otherwise those of each jam, in some order, up to the
/// first that cannot be taken apart.
pub open spec fn jams_reads(m: Fields, s: Seq<SpecRead>) -> bool {
    if !ids_ok(m, IdKind::Short) {
        s == Seq::<SpecRead>::empty()
    } else {
        listed_reads(
            m,
            id_keys(m, IdKind::Short),
            |k: Seq<char>, c: Fields, t: Seq<SpecRead>| jam_reads(c, t),
            |c: Fields| jam_ok(c),
            s,
        )
    }
}

/// The reads that the jams of a period make, in the order they are made.
pub fn jams_reads_of(state: &JsonObject) -> (r: Vec<Read>)
    ensures
        jams_reads(state@, reads_view(r@)),
{
    match id_keys_of(state, &IdKind::Short) {
        None => no_reads(),
        Some(keys) => {
            let (_, reads) = keyed_reads_of(
                state,
                &keys,
                jam_part,
                Ghost(|k: Seq<char>, c: Fields, t: Seq<SpecRead>| jam_reads(c, t)),
                Ghost(|c: Fields| jam_ok(c)),
            );
            reads
        },
    }
}

} // verus!
