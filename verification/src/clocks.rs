//! The clocks of a game, grouped by the kind of clock.

use vstd::prelude::*;

use crate::json::{lemma_members_contains, JsonObject, JsonValue, SpecJson};
use crate::reads::{keyed_reads_of, listed_reads, no_reads, push_read, reads_view, Read, ReadKind, SpecRead};
use crate::state::{
    all_dotted, build_keyed, get_ids, id_segments, keyed, keyed_ok, keys_dotted, lists_set, Fields,
};
use crate::text::{after_char, before_char, chars_eq, chars_of, find_char_in, lemma_find_char, lex_less, lex_lt, substring};

verus! {

/// The kinds of clock a scoreboard runs.
#[derive(Debug, Clone, Copy, PartialEq, Eq, Hash)]
pub enum ClockType {
    Intermission,
    Jam,
    Lineup,
    Period,
    Timeout,
}

/// The name under which a kind of clock is filed.
pub open spec fn clock_type_name(t: ClockType) -> Seq<char> {
    match t {
        ClockType::Intermission => "Intermission"@,
        ClockType::Jam => "Jam"@,
        ClockType::Lineup => "Lineup"@,
        ClockType::Period => "Period"@,
        ClockType::Timeout => "Timeout"@,
    }
}

/// The kind of clock named `s`, if any.
pub open spec fn clock_type_named(s: Seq<char>) -> Option<ClockType> {
    if s == "Intermission"@ {
        Some(ClockType::Intermission)
    } else if s == "Jam"@ {
        Some(ClockType::Jam)
    } else if s == "Lineup"@ {
        Some(ClockType::Lineup)
    } else if s == "Period"@ {
        Some(ClockType::Period)
    } else if s == "Timeout"@ {
        Some(ClockType::Timeout)
    } else {
        None
    }
}

impl ClockType {
    /// The kind of clock named `name`, if any.
    pub fn from_name(name: &str) -> (r: Option<ClockType>)
        ensures
            r == clock_type_named(name@),
    {
        let n = chars_of(name);
        if chars_eq(&n, &chars_of("Intermission")) {
            Some(ClockType::Intermission)
        } else if chars_eq(&n, &chars_of("Jam")) {
            Some(ClockType::Jam)
        } else if chars_eq(&n, &chars_of("Lineup")) {
            Some(ClockType::Lineup)
        } else if chars_eq(&n, &chars_of("Period")) {
            Some(ClockType::Period)
        } else if chars_eq(&n, &chars_of("Timeout")) {
            Some(ClockType::Timeout)
        } else {
            None
        }
    }

    /// The name under which this kind of clock is filed.
    pub fn name(&self) -> (r: &'static str)
        ensures
            r@ == clock_type_name(*self),
    {
        match self {
            ClockType::Intermission => "Intermission",
            ClockType::Jam => "Jam",
            ClockType::Lineup => "Lineup",
            ClockType::Period => "Period",
            ClockType::Timeout => "Timeout",
        }
    }
}

/// Reading a name back gives the kind of clock it names.
pub proof fn lemma_clock_type_name_round_trip(t: ClockType)
    ensures
        clock_type_named(clock_type_name(t)) == Some(t),
{
    reveal_strlit("Intermission");
    reveal_strlit("Jam");
    reveal_strlit("Lineup");
    reveal_strlit("Period");
    reveal_strlit("Timeout");
    assert("Intermission"@.len() == 12 && "Jam"@.len() == 3 && "Lineup"@.len() == 6);
    assert("Period"@.len() == 6 && "Timeout"@.len() == 7);
    assert("Lineup"@[0] == 'L' && "Period"@[0] == 'P');
}

/// Whether the entries of one clock hold an "Id" that is not the first of
/// its keys in order: such an "Id" is split into the clock's own id and its
/// type.
pub open spec fn id_is_split(m: Fields) -> bool {
    &&& m.contains_key("Id"@)
    &&& exists|k: Seq<char>| #[trigger] m.contains_key(k) && lex_lt(k, "Id"@)
}

/// Whether one clock can be read: an "Id" that is split is a string with a '_'.
pub open spec fn clock_ok(m: Fields) -> bool {
    id_is_split(m) ==> (m["Id"@] is Str && m["Id"@]->Str_0.contains('_'))
}

/// One clock: its entries, where a split "Id" `<id>_<type>` becomes the
/// members "Id" `<id>` and "ClockType" `<type>`.
pub open spec fn clock_fields(m: Fields) -> Fields {
    if id_is_split(m) {
        let id = m["Id"@]->Str_0;
        m.insert("Id"@, SpecJson::Str(before_char(id, '_'))).insert(
            "ClockType"@,
            SpecJson::Str(after_char(id, '_')),
        )
    } else {
        m
    }
}

/// Splitting the "Id" of a clock loses nothing: the id, a '_' and the
/// type give back what the state held.
pub proof fn lemma_clock_id_split_is_lossless(m: Fields)
    requires
        clock_ok(m),
        id_is_split(m),
    ensures
        clock_fields(m)["Id"@] is Str,
        clock_fields(m)["ClockType"@] is Str,
        clock_fields(m)["Id"@]->Str_0 + seq!['_'] + clock_fields(m)["ClockType"@]->Str_0 == m["Id"@]->Str_0,
{
    reveal_strlit("Id");
    reveal_strlit("ClockType");
    assert("Id"@.len() == 2 && "ClockType"@.len() == 9);
    let id = m["Id"@]->Str_0;
    crate::text::lemma_find_char(id, '_');
    assert(before_char(id, '_') + seq!['_'] + after_char(id, '_') =~= id);
}

/// Whether the clocks can be read: every key is a kind of clock, a '.' and
/// a key of that clock, and each clock can be read.
pub open spec fn clocks_ok(m: Fields) -> bool {
    &&& all_dotted(m)
    &&& forall|s: Seq<char>| #[trigger] id_segments(m).contains(s) ==> clock_type_named(s) is Some
    &&& keyed_ok(m, id_segments(m), |s: Fields| clock_ok(s))
}

/// The clocks: under each kind of clock, that clock.
pub open spec fn clocks_tree(m: Fields) -> SpecJson {
    SpecJson::Object(keyed(m, id_segments(m), |s: Fields| SpecJson::Object(clock_fields(s))))
}

/// Whether some key of `state` comes before `target` in order.
fn has_key_before(state: &JsonObject, target: &Vec<char>) -> (r: bool)
    ensures
        r == exists|k: Seq<char>| #[trigger] state@.contains_key(k) && lex_lt(k, target@),
{
    let n = state.entries.len();
    for i in 0..n
        invariant
            n == state.entries@.len(),
            forall|j: int| 0 <= j < i ==> !lex_lt((#[trigger] state.entries@[j]).0@, target@),
    {
        let kc = chars_of(state.entries[i].0.as_str());
        if lex_less(&kc, target) {
            proof {
                lemma_members_contains(state.entries@, kc@);
                assert(state.entries@[i as int].0@ == kc@);
                assert(state@.contains_key(kc@));
            }
            return true;
        }
    }
    proof {
        assert forall|k: Seq<char>| #[trigger] state@.contains_key(k) implies !lex_lt(k, target@) by {
            lemma_members_contains(state.entries@, k);
            let j = choose|j: int| 0 <= j < state.entries@.len() && #[trigger] state.entries@[j].0@ == k;
            assert(!lex_lt(state.entries@[j].0@, target@));
        }
    }
    false
}

/// One clock, from the entries under its kind; `None` where its "Id" must
/// be split and is not a string holding a '_'.
pub fn try_clock_from_state_map(state: &JsonObject) -> (r: Option<JsonValue>)
    ensures
        r is Some <==> clock_ok(state@),
        r matches Some(t) ==> t@ == SpecJson::Object(clock_fields(state@)),
{
    let mut fields = state.clone_object();
    if let Some(id) = state.get("Id") {
        if has_key_before(state, &chars_of("Id")) {
            match id {
                JsonValue::String(s) => {
                    let sc = chars_of(s.as_str());
                    let u = find_char_in(&sc, '_');
                    proof {
                        lemma_find_char(s@, '_');
                    }
                    if u == sc.len() {
                        return None;
                    }
                    fields.insert("Id".to_owned(), JsonValue::String(substring(s.as_str(), 0, u)));
                    fields.insert(
                        "ClockType".to_owned(),
                        JsonValue::String(substring(s.as_str(), u + 1, sc.len())),
                    );
                },
                _ => {
                    return None;
                },
            }
        }
    }
    Some(JsonValue::Object(fields))
}

/// The clocks, grouped by kind; `None` where a key has no '.', names no
/// kind of clock, or a clock cannot be read.
pub fn try_clocks_from_state_map(state: &JsonObject) -> (r: Option<JsonValue>)
    ensures
        r is Some <==> clocks_ok(state@),
        r matches Some(t) ==> t@ == clocks_tree(state@),
{
    if !keys_dotted(state) {
        return None;
    }
    let kinds = get_ids(state);
    let n = kinds.len();
    for i in 0..n
        invariant
            n == kinds@.len(),
            lists_set(kinds@, id_segments(state@)),
            forall|j: int| 0 <= j < i ==> clock_type_named(#[trigger] kinds@[j]@) is Some,
    {
        if ClockType::from_name(kinds[i].as_str()).is_none() {
            assert(id_segments(state@).contains(kinds@[i as int]@));
            return None;
        }
    }
    assert forall|s: Seq<char>| #[trigger] id_segments(state@).contains(s) implies clock_type_named(s) is Some by {
        let j = choose|j: int| 0 <= j < kinds@.len() && #[trigger] kinds@[j]@ == s;
    }
    let o = build_keyed(
        state,
        &kinds,
        try_clock_from_state_map,
        Ghost(id_segments(state@)),
        Ghost(|s: Fields| clock_ok(s)),
        Ghost(|s: Fields| SpecJson::Object(clock_fields(s))),
    );
    match o {
        Some(o) => Some(JsonValue::Object(o)),
        None => None,
    }
}

/// The reads that one clock makes: the clock, where it can be taken apart.
pub open spec fn clock_reads(c: Fields) -> Seq<SpecRead> {
    if clock_ok(c) {
        seq![(ReadKind::Clock, SpecJson::Object(clock_fields(c)))]
    } else {
        Seq::<SpecRead>::empty()
    }
}

/// The reads that the clocks make: none where they cannot be taken apart;
/// otherwise each clock, in some order. A clock is read only once every
/// clock has been taken apart.
pub open spec fn clocks_reads(m: Fields, s: Seq<SpecRead>) -> bool {
    if !clocks_ok(m) {
        s == Seq::<SpecRead>::empty()
    } else {
        listed_reads(m, id_segments(m), |k: Seq<char>, c: Fields, t: Seq<SpecRead>| t == clock_reads(c), |c: Fields| true, s)
    }
}

fn clock_part(key: &String, state: &JsonObject) -> (t: (bool, Vec<Read>))
    ensures
        t.0,
        reads_view(t.1@) == clock_reads(state@),
{
    let mut reads = no_reads();
    match try_clock_from_state_map(state) {
        None => {},
        Some(clock) => push_read(&mut reads, ReadKind::Clock, clock),
    }
    (true, reads)
}

/// The reads that the clocks of a game make, in the order they are made.
pub fn clocks_reads_of(state: &JsonObject) -> (r: Vec<Read>)
    ensures
        clocks_reads(state@, reads_view(r@)),
{
    if try_clocks_from_state_map(state).is_none() {
        return no_reads();
    }
    let kinds = get_ids(state);
    let (_, reads) = keyed_reads_of(
        state,
        &kinds,
        clock_part,
        Ghost(|k: Seq<char>, c: Fields, t: Seq<SpecRead>| t == clock_reads(c)),
        Ghost(|c: Fields| true),
    );
    reads
}

} // verus!
