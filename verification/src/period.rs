//! The periods of a game, each with its jams and timeouts.

use vstd::prelude::*;

use crate::ids::{id_keys, id_keys_of, ids_ok, IdKind};
use crate::jam::{jams_ok, jams_reads, jams_reads_of, jams_tree, try_jams_from_state_map};
use crate::reads::{join_reads, keyed_reads_of, listed_reads, no_reads, push_read, reads_view, Read, ReadKind, SpecRead};
use crate::json::{JsonObject, JsonValue, SpecJson};
use crate::state::{base, base_object, build_keyed, keyed, keyed_ok, strip_prefix, stripped, Fields};
use crate::timeout::{timeouts_ok, timeouts_reads, timeouts_reads_of, timeouts_tree, try_timeouts_from_state_map};

verus! {

/// Whether a period can be read: its jams and its timeouts can.
pub open spec fn period_ok(m: Fields) -> bool {
    &&& jams_ok(stripped(m, "Jam."@))
    &&& timeouts_ok(stripped(m, "TimeOut."@))
}

/// A period: its entries without a '.', its jams and its timeouts.
pub open spec fn period_tree(m: Fields) -> SpecJson {
    SpecJson::Object(
        base(m).insert("Jams"@, jams_tree(stripped(m, "Jam."@))).insert(
            "Timeouts"@,
            timeouts_tree(stripped(m, "TimeOut."@)),
        ),
    )
}

/// A period; `None` where its jams or its timeouts cannot be read.
pub fn try_period_from_state_map(state: &JsonObject) -> (r: Option<JsonValue>)
    ensures
        r is Some <==> period_ok(state@),
        r matches Some(t) ==> t@ == period_tree(state@),
{
    let mut result = base_object(state);
    let jams = try_jams_from_state_map(&strip_prefix(state, "Jam."))?;
    result.insert("Jams".to_owned(), jams);
    let timeouts = try_timeouts_from_state_map(&strip_prefix(state, "TimeOut."))?;
    result.insert("Timeouts".to_owned(), timeouts);
    Some(JsonValue::Object(result))
}

/// Whether the periods can be read: every key starts with a `u8` and a '.',
/// and each period can be read.
pub open spec fn periods_ok(m: Fields) -> bool {
    &&& ids_ok(m, IdKind::Byte)
    &&& keyed_ok(m, id_keys(m, IdKind::Byte), |s: Fields| period_ok(s))
}

/// The periods: each under its number.
pub open spec fn periods_tree(m: Fields) -> SpecJson {
    SpecJson::Object(keyed(m, id_keys(m, IdKind::Byte), |s: Fields| period_tree(s)))
}

/// The periods, each under its number; `None` where a key does not start
/// with a `u8` and a '.', or a period cannot be read.
pub fn try_periods_from_state_map(state: &JsonObject) -> (r: Option<JsonValue>)
    ensures
        r is Some <==> periods_ok(state@),
        r matches Some(t) ==> t@ == periods_tree(state@),
{
    let keys = id_keys_of(state, &IdKind::Byte)?;
    let o = build_keyed(
        state,
        &keys,
        try_period_from_state_map,
        Ghost(id_keys(state@, IdKind::Byte)),
        Ghost(|s: Fields| period_ok(s)),
        Ghost(|s: Fields| period_tree(s)),
    );
    match o {
        Some(o) => Some(JsonValue::Object(o)),
        None => None,
    }
}

/// The reads that a period makes: those of its jams, then, where they can be
/// taken apart, those of its timeouts, then, where they can too, the period.
pub open spec fn period_reads(m: Fields, s: Seq<SpecRead>) -> bool {
    let j = stripped(m, "Jam."@);
    let t = stripped(m, "TimeOut."@);
    exists|x: Seq<SpecRead>|
        #[trigger] jams_reads(j, x) && if !jams_ok(j) {
            s == x
        } else {
            exists|y: Seq<SpecRead>|
                #[trigger] timeouts_reads(t, y) && s == if timeouts_ok(t) {
                    (x + y).push((ReadKind::Period, period_tree(m)))
                } else {
                    x + y
                }
        }
}

/// The reads that a period makes, in the order they are made.
pub fn period_reads_of(state: &JsonObject) -> (r: Vec<Read>)
    ensures
        period_reads(state@, reads_view(r@)),
{
    let jams = strip_prefix(state, "Jam.");
    let mut reads = jams_reads_of(&jams);
    let ghost x = reads_view(reads@);
    if try_jams_from_state_map(&jams).is_none() {
        return reads;
    }
    let timeouts = strip_prefix(state, "TimeOut.");
    let more = timeouts_reads_of(&timeouts);
    let ghost y = reads_view(more@);
    join_reads(&mut reads, more);
    match try_period_from_state_map(state) {
        None => reads,
        Some(t) => {
            push_read(&mut reads, ReadKind::Period, t);
            reads
        },
    }
}

fn period_part(key: &String, state: &JsonObject) -> (t: (bool, Vec<Read>))
    ensures
        t.0 == period_ok(state@),
        period_reads(state@, reads_view(t.1@)),
{
    let reads = period_reads_of(state);
    (try_period_from_state_map(state).is_some(), reads)
}

/// The reads that the periods make: none where a key does not start with a
/// `u8` and a '.'; otherwise those of each period, in some order, up to the
/// first that cannot be taken apart.
pub open spec fn periods_reads(m: Fields, s: Seq<SpecRead>) -> bool {
    if !ids_ok(m, IdKind::Byte) {
        s == Seq::<SpecRead>::empty()
    } else {
        listed_reads(
            m,
            id_keys(m, IdKind::Byte),
            |k: Seq<char>, c: Fields, t: Seq<SpecRead>| period_reads(c, t),
            |c: Fields| period_ok(c),
            s,
        )
    }
}

/// The reads that the periods of a game make, in the order they are made.
pub fn periods_reads_of(state: &JsonObject) -> (r: Vec<Read>)
    ensures
        periods_reads(state@, reads_view(r@)),
{
    match id_keys_of(state, &IdKind::Byte) {
        None => no_reads(),
        Some(keys) => {
            let (_, reads) = keyed_reads_of(
                state,
                &keys,
                period_part,
                Ghost(|k: Seq<char>, c: Fields, t: Seq<SpecRead>| period_reads(c, t)),
                Ghost(|c: Fields| period_ok(c)),
            );
            reads
        },
    }
}

} // verus!
