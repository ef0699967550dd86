//! The timeouts of a period, filed under their UUID.

use vstd::prelude::*;

use crate::ids::{id_keys, id_keys_of, ids_ok, keyed_by_uuid_texts, IdKind};
use crate::json::{JsonObject, JsonValue, SpecJson};
use crate::reads::{keyed_reads_of, listed_reads, no_reads, push_read, reads_view, Read, ReadKind, SpecRead};
use crate::state::{base_object, base_tree, build_base, build_keyed, id_segments, keyed, Fields};

verus! {

/// Whether the timeouts can be read: every key starts with a UUID and a '.'.
pub open spec fn timeouts_ok(m: Fields) -> bool {
    ids_ok(m, IdKind::Uuid)
}

/// The timeouts: under each UUID, the entries of that timeout without a '.'.
pub open spec fn timeouts_tree(m: Fields) -> SpecJson {
    SpecJson::Object(keyed(m, id_keys(m, IdKind::Uuid), |s: Fields| base_tree(s)))
}

/// The timeouts, each under its UUID; `None` where a key does not start
/// with a UUID and a '.'.
pub fn try_timeouts_from_state_map(state: &JsonObject) -> (r: Option<JsonValue>)
    ensures
        r is Some <==> timeouts_ok(state@),
        r matches Some(t) ==> t@ == timeouts_tree(state@),
        keyed_by_uuid_texts(state@) ==> (r is Some && id_keys(state@, IdKind::Uuid) == id_segments(state@)),
{
    let keys = id_keys_of(state, &IdKind::Uuid)?;
    let o = build_keyed(
        state,
        &keys,
        build_base,
        Ghost(id_keys(state@, IdKind::Uuid)),
        Ghost(|s: Fields| true),
        Ghost(|s: Fields| base_tree(s)),
    );
    match o {
        Some(o) => Some(JsonValue::Object(o)),
        None => None,
    }
}

/// The reads that the timeouts make: none where a key does not start with a
/// UUID and a '.'; otherwise each timeout, in some order.
pub open spec fn timeouts_reads(m: Fields, s: Seq<SpecRead>) -> bool {
    if !timeouts_ok(m) {
        s == Seq::<SpecRead>::empty()
    } else {
        listed_reads(
            m,
            id_keys(m, IdKind::Uuid),
            |k: Seq<char>, c: Fields, t: Seq<SpecRead>| t == seq![(ReadKind::Timeout, base_tree(c))],
            |c: Fields| true,
            s,
        )
    }
}

fn timeout_part(key: &String, state: &JsonObject) -> (t: (bool, Vec<Read>))
    ensures
        t.0,
        reads_view(t.1@) == seq![(ReadKind::Timeout, base_tree(state@))],
{
    let mut reads = no_reads();
    push_read(&mut reads, ReadKind::Timeout, JsonValue::Object(base_object(state)));
    (true, reads)
}

/// The reads that the timeouts of a period make, in the order they are made.
pub fn timeouts_reads_of(state: &JsonObject) -> (r: Vec<Read>)
    ensures
        timeouts_reads(state@, reads_view(r@)),
{
    match id_keys_of(state, &IdKind::Uuid) {
        None => no_reads(),
        Some(keys) => {
            let (_, reads) = keyed_reads_of(
                state,
                &keys,
                timeout_part,
                Ghost(|k: Seq<char>, c: Fields, t: Seq<SpecRead>| t == seq![(ReadKind::Timeout, base_tree(c))]),
                Ghost(|c: Fields| true),
            );
            reads
        },
    }
}

} // verus!
