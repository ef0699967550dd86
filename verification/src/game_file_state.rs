//! A whole game file: its state, with its keys rewritten into dotted form,
//! becomes the games it holds and the release that wrote it.

use vstd::prelude::*;

use crate::game::{games_ok, games_reads, games_reads_of, games_tree, try_games_from_state_map};
use crate::reads::{push_read, join_reads, no_reads, reads_view, Read, ReadKind, SpecRead};
use crate::json::{
    json_document, json_view, lemma_members_last, lemma_members_push, members_view, parse_json_document,
    JsonObject, JsonValue, SpecJson,
};
use crate::state::Fields;
use crate::text::{
    chars_eq, chars_of, lemma_lex_asymmetric, lemma_lex_irreflexive, lemma_lex_total,
    lemma_lex_transitive, lex_less, lex_lt, normalize_key, normalized,
};
use crate::version::{version_from_state_map, version_tree};

verus! {

/// Whether `k` is the greatest key of `m` (in the order of strings) whose
/// rewritten form is `n`.
pub open spec fn is_greatest_source(m: Fields, n: Seq<char>, k: Seq<char>) -> bool {
    &&& m.contains_key(k)
    &&& normalized(k) == n
    &&& forall|k2: Seq<char>| #[trigger] m.contains_key(k2) && normalized(k2) == n ==> k2 == k || lex_lt(k2, k)
}

/// Whether `r` is `m` with its keys rewritten into dotted form: where
/// several keys are rewritten alike, the value of the greatest one stays,
/// as it does when the keys are inserted in increasing order.
pub open spec fn is_normalization(m: Fields, r: Fields) -> bool {
    &&& forall|n: Seq<char>| #[trigger] r.contains_key(n) <==> exists|k: Seq<char>| #[trigger] m.contains_key(k) && normalized(k) == n
    &&& forall|n: Seq<char>| #[trigger] r.contains_key(n) ==> exists|k: Seq<char>| is_greatest_source(m, n, k) && r[n] == m[k]
}

/// `m` with its keys rewritten into dotted form.
pub open spec fn normalize(m: Fields) -> Fields {
    choose|r: Fields| is_normalization(m, r)
}

/// There is one way only to rewrite the keys of a state.
pub proof fn lemma_normalization_unique(m: Fields, r1: Fields, r2: Fields)
    requires
        is_normalization(m, r1),
        is_normalization(m, r2),
    ensures
        r1 == r2,
{
    assert forall|n: Seq<char>| #[trigger] r1.contains_key(n) implies r2.contains_key(n) && r1[n] == r2[n] by {
        let k1 = choose|k: Seq<char>| is_greatest_source(m, n, k) && r1[n] == m[k];
        assert(m.contains_key(k1) && normalized(k1) == n);
        assert(r2.contains_key(n));
        let k2 = choose|k: Seq<char>| is_greatest_source(m, n, k) && r2[n] == m[k];
        if k1 != k2 {
            assert(lex_lt(k1, k2));
            assert(lex_lt(k2, k1));
            lemma_lex_asymmetric(k1, k2);
        }
    }
    assert forall|n: Seq<char>| #[trigger] r2.contains_key(n) implies r1.contains_key(n) by {
        let k2 = choose|k: Seq<char>| is_greatest_source(m, n, k) && r2[n] == m[k];
        assert(m.contains_key(k2) && normalized(k2) == n);
    }
    assert(r1 =~= r2);
}

/// Rewriting the keys of a state whose keys are rewritten already changes
/// nothing.
pub proof fn lemma_normalization_idempotent(m: Fields, r: Fields)
    requires
        is_normalization(m, r),
    ensures
        is_normalization(r, r),
        normalize(r) == r,
{
    assert forall|n: Seq<char>| #[trigger] r.contains_key(n) implies normalized(n) == n by {
        let k = choose|k: Seq<char>| #[trigger] m.contains_key(k) && normalized(k) == n;
        crate::text::lemma_normalized_idempotent(k);
    }
    assert forall|n: Seq<char>| #[trigger] r.contains_key(n) <==> exists|k: Seq<char>| #[trigger] r.contains_key(k) && normalized(k) == n by {
        if exists|k: Seq<char>| #[trigger] r.contains_key(k) && normalized(k) == n {
            let k = choose|k: Seq<char>| #[trigger] r.contains_key(k) && normalized(k) == n;
            assert(normalized(k) == k);
        }
    }
    assert forall|n: Seq<char>| #[trigger] r.contains_key(n) implies exists|k: Seq<char>| is_greatest_source(r, n, k) && r[n] == r[k] by {
        assert forall|k2: Seq<char>| #[trigger] r.contains_key(k2) && normalized(k2) == n implies k2 == n || lex_lt(k2, n) by {
            assert(normalized(k2) == k2);
        }
        assert(is_greatest_source(r, n, n));
    }
    assert(is_normalization(r, r));
    lemma_normalization_unique(r, r, normalize(r));
}

/// Writing a key with brackets or with dots makes no difference: where no
/// other key is rewritten like `k`, renaming `k` to a key `k2` that is
/// rewritten the same leaves the rewritten state as it was, and with it
/// everything read from the state. `r` is the rewritten state, which every
/// state that the library reads has (see `normalize_state`).
pub proof fn lemma_renaming_keeps_the_rewrite(m: Fields, k: Seq<char>, k2: Seq<char>, r: Fields)
    requires
        is_normalization(m, r),
        m.contains_key(k),
        !m.contains_key(k2),
        normalized(k2) == normalized(k),
        forall|j: Seq<char>| #[trigger] m.contains_key(j) && j != k ==> normalized(j) != normalized(k),
    ensures
        is_normalization(m.remove(k).insert(k2, m[k]), r),
        normalize(m.remove(k).insert(k2, m[k])) == normalize(m),
        normalize(m) == r,
{
    let m2 = m.remove(k).insert(k2, m[k]);
    let n = normalized(k);
    assert forall|x: Seq<char>| #[trigger] r.contains_key(x) <==> exists|j: Seq<char>| #[trigger] m2.contains_key(j) && normalized(j) == x by {
        if r.contains_key(x) {
            let j = choose|j: Seq<char>| #[trigger] m.contains_key(j) && normalized(j) == x;
            if j == k {
                assert(m2.contains_key(k2) && normalized(k2) == x);
            } else {
                assert(m2.contains_key(j) && normalized(j) == x);
            }
        }
        if exists|j: Seq<char>| #[trigger] m2.contains_key(j) && normalized(j) == x {
            let j = choose|j: Seq<char>| #[trigger] m2.contains_key(j) && normalized(j) == x;
            if j == k2 {
                assert(m.contains_key(k) && normalized(k) == x);
            } else {
                assert(m.contains_key(j) && normalized(j) == x);
            }
        }
    }
    assert forall|x: Seq<char>| #[trigger] r.contains_key(x) implies exists|j: Seq<char>| is_greatest_source(m2, x, j) && r[x] == m2[j] by {
        let j = choose|j: Seq<char>| is_greatest_source(m, x, j) && r[x] == m[j];
        if x == n {
            assert(j == k);
            assert forall|j2: Seq<char>| #[trigger] m2.contains_key(j2) && normalized(j2) == x implies j2 == k2 || lex_lt(j2, k2) by {
                if j2 != k2 {
                    assert(m.contains_key(j2) && j2 != k);
                }
            }
            assert(is_greatest_source(m2, x, k2));
            assert(m2[k2] == m[k]);
            assert(r[x] == m2[k2]);
        } else {
            assert(j != k && j != k2);
            assert forall|j2: Seq<char>| #[trigger] m2.contains_key(j2) && normalized(j2) == x implies j2 == j || lex_lt(j2, j) by {
                assert(j2 != k2);
                assert(m.contains_key(j2));
            }
            assert(is_greatest_source(m2, x, j));
            assert(m2[j] == m[j]);
        }
    }
    assert(is_normalization(m2, r));
    lemma_normalization_unique(m, r, normalize(m));
    lemma_normalization_unique(m2, r, normalize(m2));
}

/// What the members rewritten so far say of the state read so far: their
/// keys are distinct, each comes from its greatest source in `m`, and every
/// key of `m` has been rewritten.
pub open spec fn tracks(m: Fields, out: Seq<(String, JsonValue)>, sources: Seq<Vec<char>>) -> bool {
    &&& out.len() == sources.len()
    &&& forall|a: int, b: int| 0 <= a < b < out.len() ==> out[a].0@ != out[b].0@
    &&& forall|a: int| 0 <= a < out.len() ==> is_greatest_source(m, (#[trigger] out[a]).0@, sources[a]@) && json_view(out[a].1) == m[sources[a]@]
    &&& forall|k: Seq<char>| #[trigger] m.contains_key(k) ==> exists|a: int| 0 <= a < out.len() && (#[trigger] out[a]).0@ == normalized(k)
}

proof fn lemma_tracks_replace(
    m: Fields,
    out: Seq<(String, JsonValue)>,
    sources: Seq<Vec<char>>,
    j: int,
    kc: Vec<char>,
    e: (String, JsonValue),
)
    requires
        tracks(m, out, sources),
        0 <= j < out.len(),
        out[j].0@ == normalized(kc@),
        e.0@ == normalized(kc@),
        lex_lt(sources[j]@, kc@) || sources[j]@ == kc@,
    ensures
        tracks(m.insert(kc@, json_view(e.1)), out.update(j, e), sources.update(j, kc)),
{
    let k = kc@;
    let m2 = m.insert(k, json_view(e.1));
    let out2 = out.update(j, e);
    let src2 = sources.update(j, kc);
    let s = sources[j]@;
    let n = normalized(k);
    assert forall|a: int| 0 <= a < out2.len() implies is_greatest_source(m2, (#[trigger] out2[a]).0@, src2[a]@) && json_view(out2[a].1) == m2[src2[a]@] by {
        if a == j {
            assert forall|k2: Seq<char>| #[trigger] m2.contains_key(k2) && normalized(k2) == n implies k2 == k || lex_lt(k2, k) by {
                if k2 != k {
                    assert(m.contains_key(k2));
                    assert(k2 == s || lex_lt(k2, s));
                    lemma_lex_transitive(k2, s, k);
                }
            }
        } else {
            let n2 = out[a].0@;
            let s2 = sources[a]@;
            assert(is_greatest_source(m, n2, s2));
            assert(n2 != n);
            assert(s2 != k);
            assert forall|k2: Seq<char>| #[trigger] m2.contains_key(k2) && normalized(k2) == n2 implies k2 == s2 || lex_lt(k2, s2) by {
                assert(k2 != k);
                assert(m.contains_key(k2));
            }
        }
    }
    assert forall|k2: Seq<char>| #[trigger] m2.contains_key(k2) implies exists|a: int| 0 <= a < out2.len() && (#[trigger] out2[a]).0@ == normalized(k2) by {
        if k2 == k {
            assert(out2[j].0@ == normalized(k2));
        } else {
            assert(m.contains_key(k2));
            let a = choose|a: int| 0 <= a < out.len() && (#[trigger] out[a]).0@ == normalized(k2);
            assert(out2[a].0@ == normalized(k2));
        }
    }
}

proof fn lemma_tracks_keep(m: Fields, out: Seq<(String, JsonValue)>, sources: Seq<Vec<char>>, j: int, k: Seq<char>, v: SpecJson)
    requires
        tracks(m, out, sources),
        0 <= j < out.len(),
        out[j].0@ == normalized(k),
        !(lex_lt(sources[j]@, k) || sources[j]@ == k),
    ensures
        tracks(m.insert(k, v), out, sources),
{
    let m2 = m.insert(k, v);
    let n = normalized(k);
    lemma_lex_total(sources[j]@, k);
    lemma_lex_irreflexive(k);
    assert forall|a: int| 0 <= a < out.len() implies is_greatest_source(m2, (#[trigger] out[a]).0@, sources[a]@) && json_view(out[a].1) == m2[sources[a]@] by {
        let n2 = out[a].0@;
        let s2 = sources[a]@;
        assert(is_greatest_source(m, n2, s2));
        if a == j {
            assert(s2 != k);
        } else {
            assert(n2 != n);
            assert(s2 != k);
        }
        assert forall|k2: Seq<char>| #[trigger] m2.contains_key(k2) && normalized(k2) == n2 implies k2 == s2 || lex_lt(k2, s2) by {
            if k2 != k {
                assert(m.contains_key(k2));
            }
        }
    }
    assert forall|k2: Seq<char>| #[trigger] m2.contains_key(k2) implies exists|a: int| 0 <= a < out.len() && (#[trigger] out[a]).0@ == normalized(k2) by {
        if k2 == k {
            assert(out[j].0@ == normalized(k2));
        } else {
            assert(m.contains_key(k2));
        }
    }
}

proof fn lemma_tracks_push(m: Fields, out: Seq<(String, JsonValue)>, sources: Seq<Vec<char>>, kc: Vec<char>, e: (String, JsonValue))
    requires
        tracks(m, out, sources),
        forall|a: int| 0 <= a < out.len() ==> (#[trigger] out[a]).0@ != normalized(kc@),
        e.0@ == normalized(kc@),
    ensures
        tracks(m.insert(kc@, json_view(e.1)), out.push(e), sources.push(kc)),
{
    let k = kc@;
    let m2 = m.insert(k, json_view(e.1));
    let out2 = out.push(e);
    let src2 = sources.push(kc);
    let n = normalized(k);
    assert forall|a: int| 0 <= a < out2.len() implies is_greatest_source(m2, (#[trigger] out2[a]).0@, src2[a]@) && json_view(out2[a].1) == m2[src2[a]@] by {
        if a == out.len() {
            assert forall|k2: Seq<char>| #[trigger] m2.contains_key(k2) && normalized(k2) == n implies k2 == k || lex_lt(k2, k) by {
                if k2 != k {
                    assert(m.contains_key(k2));
                    let b = choose|b: int| 0 <= b < out.len() && (#[trigger] out[b]).0@ == normalized(k2);
                }
            }
        } else {
            let n2 = out[a].0@;
            let s2 = sources[a]@;
            assert(is_greatest_source(m, n2, s2));
            assert(out2[a] == out[a]);
            assert(n2 != n);
            assert forall|k2: Seq<char>| #[trigger] m2.contains_key(k2) && normalized(k2) == n2 implies k2 == s2 || lex_lt(k2, s2) by {
                if k2 != k {
                    assert(m.contains_key(k2));
                }
            }
        }
    }
    assert forall|k2: Seq<char>| #[trigger] m2.contains_key(k2) implies exists|a: int| 0 <= a < out2.len() && (#[trigger] out2[a]).0@ == normalized(k2) by {
        if k2 == k {
            assert(out2[out.len() as int].0@ == normalized(k2));
        } else {
            assert(m.contains_key(k2));
            let a = choose|a: int| 0 <= a < out.len() && (#[trigger] out[a]).0@ == normalized(k2);
            assert(out2[a] == out[a]);
        }
    }
}

/// The state with its keys rewritten into dotted form: every '(' becomes a
/// '.' and every ')' goes; where several keys are rewritten alike, the value
/// of the greatest of them stays.
pub fn normalize_state(state: &JsonObject) -> (r: JsonObject)
    ensures
        is_normalization(state@, r@),
        r@ == normalize(state@),
{
    let mut out: Vec<(String, JsonValue)> = Vec::new();
    let mut sources: Vec<Vec<char>> = Vec::new();
    let n = state.entries.len();
    assert(members_view(state.entries@.take(0)) =~= Map::<Seq<char>, SpecJson>::empty());
    for i in 0..n
        invariant
            n == state.entries@.len(),
            tracks(members_view(state.entries@.take(i as int)), out@, sources@),
    {
        let ghost m = members_view(state.entries@.take(i as int));
        let key = &state.entries[i].0;
        let kc = chars_of(key.as_str());
        let nk = normalize_key(key.as_str());
        proof {
            lemma_members_push(state.entries@.take(i as int), state.entries@[i as int]);
            assert(state.entries@.take(i as int).push(state.entries@[i as int]) =~= state.entries@.take(i + 1));
        }
        let mut j: usize = 0;
        while j < out.len() && !out[j].0.eq(&nk)
            invariant
                j <= out@.len(),
                forall|a: int| 0 <= a < j ==> (#[trigger] out@[a]).0@ != nk@,
            decreases out@.len() - j,
        {
            j = j + 1;
        }
        if j < out.len() {
            if lex_less(&sources[j], &kc) || chars_eq(&sources[j], &kc) {
                let e = (nk, state.entries[i].1.clone_value());
                proof {
                    lemma_tracks_replace(m, out@, sources@, j as int, kc, e);
                }
                out[j] = e;
                sources[j] = kc;
            } else {
                proof {
                    lemma_tracks_keep(m, out@, sources@, j as int, kc@, state.entries@[i as int].1@);
                }
            }
        } else {
            let e = (nk, state.entries[i].1.clone_value());
            proof {
                lemma_tracks_push(m, out@, sources@, kc, e);
            }
            out.push(e);
            sources.push(kc);
        }
    }
    let r = JsonObject { entries: out };
    proof {
        let m = state@;
        assert(state.entries@.take(n as int) =~= state.entries@);
        assert forall|a: int| 0 <= a < r.entries@.len() implies r@.contains_key(#[trigger] r.entries@[a].0@)
            && r@[r.entries@[a].0@] == json_view(r.entries@[a].1) by {
            assert forall|b: int| a < b < r.entries@.len() implies #[trigger] r.entries@[b].0@ != r.entries@[a].0@ by {}
            lemma_members_last(r.entries@, a);
        }
        assert forall|nn: Seq<char>| #[trigger] r@.contains_key(nn) <==> exists|k: Seq<char>| #[trigger] m.contains_key(k) && normalized(k) == nn by {
            crate::json::lemma_members_contains(r.entries@, nn);
            if r@.contains_key(nn) {
                let a = choose|a: int| 0 <= a < r.entries@.len() && #[trigger] r.entries@[a].0@ == nn;
                assert(is_greatest_source(m, r.entries@[a].0@, sources@[a]@));
                assert(m.contains_key(sources@[a]@));
            }
            if exists|k: Seq<char>| #[trigger] m.contains_key(k) && normalized(k) == nn {
                let k = choose|k: Seq<char>| #[trigger] m.contains_key(k) && normalized(k) == nn;
                let a = choose|a: int| 0 <= a < r.entries@.len() && (#[trigger] r.entries@[a]).0@ == normalized(k);
            }
        }
        assert forall|nn: Seq<char>| #[trigger] r@.contains_key(nn) implies exists|k: Seq<char>| is_greatest_source(m, nn, k) && r@[nn] == m[k] by {
            crate::json::lemma_members_contains(r.entries@, nn);
            let a = choose|a: int| 0 <= a < r.entries@.len() && #[trigger] r.entries@[a].0@ == nn;
            assert(is_greatest_source(m, nn, sources@[a]@));
        }
        assert(is_normalization(m, r@));
        lemma_normalization_unique(m, r@, normalize(m));
    }
    r
}


/// The state of a game file: its member "state".
pub open spec fn state_of(doc: SpecJson) -> Fields {
    doc->Object_0["state"@]->Object_0
}

/// Whether a game file holds a state: it is an object whose member "state"
/// is an object.
pub open spec fn state_ok(doc: SpecJson) -> bool {
    &&& doc is Object
    &&& doc->Object_0.contains_key("state"@)
    &&& doc->Object_0["state"@] is Object
}

/// Whether a game file can be read: it holds a state, and the games of the
/// rewritten state can be read.
pub open spec fn document_ok(doc: SpecJson) -> bool {
    &&& state_ok(doc)
    &&& games_ok(normalize(state_of(doc)))
}

/// What a game file holds: the games and the release of the rewritten state.
pub open spec fn game_file_state_tree(doc: SpecJson) -> SpecJson {
    let s = normalize(state_of(doc));
    SpecJson::Object(Map::empty().insert("games"@, games_tree(s)).insert("version"@, version_tree(s)))
}

/// What a game file holds, or `None` where it cannot be read.
pub fn try_game_file_state_from_document(doc: &JsonValue) -> (r: Option<JsonValue>)
    ensures
        r is Some <==> document_ok(doc@),
        r matches Some(t) ==> t@ == game_file_state_tree(doc@),
{
    let file = match doc {
        JsonValue::Object(o) => o,
        _ => {
            return None;
        },
    };
    let state = match file.get("state") {
        Some(JsonValue::Object(o)) => o,
        _ => {
            return None;
        },
    };
    let normalized = normalize_state(state);
    let version = version_from_state_map(&normalized);
    let games = try_games_from_state_map(&normalized)?;
    let mut result = JsonObject::new();
    result.insert("games".to_owned(), games);
    result.insert("version".to_owned(), version);
    Some(JsonValue::Object(result))
}

/// What a game file holds: the typed reads it makes, in order, its release
/// and, where they can be taken apart, its games.
#[derive(Debug)]
pub struct GameFileTrees {
    pub reads: Vec<Read>,
    pub version: JsonValue,
    pub games: Option<JsonValue>,
}

/// The reads that the rewritten state of a game file makes: its release,
/// then those of its games.
pub open spec fn file_reads(st: Fields, s: Seq<SpecRead>) -> bool {
    exists|g: Seq<SpecRead>| #[trigger] games_reads(st, g) && s == seq![(ReadKind::Version, version_tree(st))] + g
}

/// What a game file holds, read from its text: `serde_json`'s error where
/// the text is no JSON object; `Ok(None)` where it holds no state; otherwise
/// the typed reads that the rewritten state makes, up to the point where it
/// cannot be taken apart, its release, and its games, which are `None`
/// where they cannot be taken apart.
pub fn try_game_file_state_from_text(text: &str) -> (r: Result<Option<GameFileTrees>, serde_json::Error>)
    ensures
        r is Err <==> json_document(text@) is None,
        r matches Ok(o) ==> (o is Some <==> state_ok(json_document(text@)->0)),
        r matches Ok(Some(p)) ==> ({
            let s = normalize(state_of(json_document(text@)->0));
            &&& p.version@ == version_tree(s)
            &&& (p.games is Some <==> games_ok(s))
            &&& (p.games matches Some(g) ==> g@ == games_tree(s))
        }),
        r matches Ok(Some(p)) ==> (p.games is Some <==> document_ok(json_document(text@)->0)),
        r matches Ok(Some(p)) ==> file_reads(normalize(state_of(json_document(text@)->0)), reads_view(p.reads@)),
{
    let doc = match parse_json_document(text) {
        Ok(doc) => doc,
        Err(e) => {
            return Err(e);
        },
    };
    let file = match &doc {
        JsonValue::Object(o) => o,
        _ => {
            return Ok(None);
        },
    };
    let state = match file.get("state") {
        Some(JsonValue::Object(o)) => o,
        _ => {
            return Ok(None);
        },
    };
    let normalized = normalize_state(state);
    let version = version_from_state_map(&normalized);
    let mut reads = no_reads();
    push_read(&mut reads, ReadKind::Version, version_from_state_map(&normalized));
    let more = games_reads_of(&normalized);
    let ghost g = reads_view(more@);
    join_reads(&mut reads, more);
    let games = try_games_from_state_map(&normalized);
    Ok(Some(GameFileTrees { reads, version, games }))
}

} // verus!
