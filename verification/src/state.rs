//! Operations on a flat state: a JSON object whose keys are dotted paths.

use vstd::prelude::*;

use crate::json::{lemma_members_contains, lemma_members_push, members_view, JsonObject, JsonValue, SpecJson};
use crate::text::{
    before_char, chars_eq, chars_of, concat, contains_seq, find_char, find_char_in, find_chars, find_seq,
    lemma_find_char, starts_with, substring,
};

verus! {

/// What a flat state denotes: a map from keys to JSON values.
pub type Fields = Map<Seq<char>, SpecJson>;

/// The entries whose key starts with `p`, under the key that follows `p`.
pub open spec fn stripped(m: Fields, p: Seq<char>) -> Fields {
    Map::new(|k: Seq<char>| m.contains_key(p + k), |k: Seq<char>| m[p + k])
}

/// The entries whose key has no '.' and is not in `excluded`.
pub open spec fn base_fields(m: Fields, excluded: Set<Seq<char>>) -> Fields {
    Map::new(
        |k: Seq<char>| m.contains_key(k) && !k.contains('.') && !excluded.contains(k),
        |k: Seq<char>| m[k],
    )
}

/// The entries whose key has no '.'.
pub open spec fn base(m: Fields) -> Fields {
    base_fields(m, Set::empty())
}

/// The keys that a list of excluded names stands for.
pub open spec fn excluded_keys(excluding: Option<Vec<&str>>) -> Set<Seq<char>> {
    match excluding {
        Some(names) => Set::new(|k: Seq<char>| exists|i: int| 0 <= i < names@.len() && #[trigger] names@[i]@ == k),
        None => Set::empty(),
    }
}

/// Whether every key holds a '.'.
pub open spec fn all_dotted(m: Fields) -> bool {
    forall|k: Seq<char>| #[trigger] m.contains_key(k) ==> k.contains('.')
}

/// The pieces of the keys before their first '.'.
pub open spec fn id_segments(m: Fields) -> Set<Seq<char>> {
    Set::new(|s: Seq<char>| exists|k: Seq<char>| #[trigger] m.contains_key(k) && before_char(k, '.') == s)
}

/// `k` followed by a '.': the prefix of the entries that belong to `k`.
pub open spec fn dotted(k: Seq<char>) -> Seq<char> {
    k.push('.')
}

/// A list of strings without repetition, which stands for the set `keys`.
pub open spec fn lists_set(list: Seq<String>, keys: Set<Seq<char>>) -> bool {
    &&& forall|i: int, j: int| 0 <= i < j < list.len() ==> list[i]@ != list[j]@
    &&& forall|i: int| 0 <= i < list.len() ==> keys.contains(#[trigger] list[i]@)
    &&& forall|k: Seq<char>| keys.contains(k) ==> exists|i: int| 0 <= i < list.len() && #[trigger] list[i]@ == k
}

/// Stripping one prefix and then another is stripping both at once.
pub proof fn lemma_strip_prefix_twice(m: Fields, a: Seq<char>, b: Seq<char>)
    ensures
        stripped(stripped(m, a), b) == stripped(m, a + b),
{
    assert forall|k: Seq<char>| #![auto] a + (b + k) == (a + b) + k by {
        assert(a + (b + k) =~= (a + b) + k);
    }
    assert(stripped(stripped(m, a), b) =~= stripped(m, a + b));
}

/// Stripping a prefix from a map with one more entry: the entry is kept,
/// under the rest of its key, exactly when its key starts with the prefix.
pub proof fn lemma_stripped_insert(m: Fields, p: Seq<char>, k: Seq<char>, v: SpecJson)
    ensures
        stripped(m.insert(k, v), p) == if p.is_prefix_of(k) {
            stripped(m, p).insert(k.skip(p.len() as int), v)
        } else {
            stripped(m, p)
        },
{
    let lhs = stripped(m.insert(k, v), p);
    if p.is_prefix_of(k) {
        let rest = k.skip(p.len() as int);
        assert(p + rest =~= k);
        assert forall|x: Seq<char>| lhs.contains_key(x) implies p + x == k || m.contains_key(p + x) by {}
        assert forall|x: Seq<char>| p + x == k implies x == rest by {
            assert((p + x).skip(p.len() as int) =~= x);
        }
        assert(lhs =~= stripped(m, p).insert(rest, v));
    } else {
        assert forall|x: Seq<char>| p + x != k by {
            if p + x == k {
                assert(k.subrange(0, p.len() as int) =~= p);
            }
        }
        assert(lhs =~= stripped(m, p));
    }
}

/// Taking the entries without a '.' from a map with one more entry: the
/// entry is kept exactly when its key has no '.' and is not excluded.
pub proof fn lemma_base_insert(m: Fields, ex: Set<Seq<char>>, k: Seq<char>, v: SpecJson)
    ensures
        base_fields(m.insert(k, v), ex) == if !k.contains('.') && !ex.contains(k) {
            base_fields(m, ex).insert(k, v)
        } else {
            base_fields(m, ex)
        },
{
    if !k.contains('.') && !ex.contains(k) {
        assert(base_fields(m.insert(k, v), ex) =~= base_fields(m, ex).insert(k, v));
    } else {
        assert(base_fields(m.insert(k, v), ex) =~= base_fields(m, ex));
    }
}

/// The members of `state` whose key starts with `prefix`, under the rest of
/// their key.
pub fn strip_prefix(state: &JsonObject, prefix: &str) -> (r: JsonObject)
    ensures
        r@ == stripped(state@, prefix@),
{
    let p = chars_of(prefix);
    let plen = p.len();
    let mut out = JsonObject::new();
    let n = state.entries.len();
    for i in 0..n
        invariant
            n == state.entries@.len(),
            p@ == prefix@,
            plen == p@.len(),
            out@ == stripped(members_view(state.entries@.take(i as int)), prefix@),
    {
        let key = &state.entries[i].0;
        let kc = chars_of(key.as_str());
        proof {
            lemma_members_push(state.entries@.take(i as int), state.entries@[i as int]);
            assert(state.entries@.take(i as int).push(state.entries@[i as int]) =~= state.entries@.take(i + 1));
            lemma_stripped_insert(
                members_view(state.entries@.take(i as int)),
                prefix@,
                key@,
                state.entries@[i as int].1@,
            );
        }
        if starts_with(&kc, &p) {
            let rest = substring(key.as_str(), plen, kc.len());
            assert(rest@ =~= key@.skip(prefix@.len() as int));
            out.insert(rest, state.entries[i].1.clone_value());
        }
    }
    assert(state.entries@.take(n as int) =~= state.entries@);
    out
}

/// Whether `key` is one of the excluded names.
fn is_excluded(key: &Vec<char>, excluding: &Option<Vec<&str>>) -> (r: bool)
    ensures
        r == excluded_keys(*excluding).contains(key@),
{
    match excluding {
        None => false,
        Some(names) => {
            let mut i: usize = 0;
            while i < names.len()
                invariant
                    *excluding == Some(*names),
                    i <= names@.len(),
                    forall|j: int| 0 <= j < i ==> #[trigger] names@[j]@ != key@,
                decreases names@.len() - i,
            {
                let nc = chars_of(names[i]);
                if chars_eq(&nc, key) {
                    assert(names@[i as int]@ == key@);
                    return true;
                }
                i = i + 1;
            }
            false
        },
    }
}

/// Copies into `out` the members of `state` whose key has no '.' and is not
/// excluded, replacing what `out` held under those keys.
pub fn insert_base(state: &JsonObject, out: &mut JsonObject, excluding: Option<Vec<&str>>)
    ensures
        final(out)@ == old(out)@.union_prefer_right(base_fields(state@, excluded_keys(excluding))),
{
    let ghost ex = excluded_keys(excluding);
    let ghost start = out@;
    let n = state.entries.len();
    assert(base_fields(members_view(state.entries@.take(0)), ex) =~= Map::empty());
    assert(start.union_prefer_right(Map::empty()) =~= start);
    for i in 0..n
        invariant
            n == state.entries@.len(),
            ex == excluded_keys(excluding),
            out@ == start.union_prefer_right(base_fields(members_view(state.entries@.take(i as int)), ex)),
    {
        let key = &state.entries[i].0;
        let kc = chars_of(key.as_str());
        let dot = find_char_in(&kc, '.');
        proof {
            lemma_find_char(key@, '.');
            lemma_members_push(state.entries@.take(i as int), state.entries@[i as int]);
            assert(state.entries@.take(i as int).push(state.entries@[i as int]) =~= state.entries@.take(i + 1));
            lemma_base_insert(members_view(state.entries@.take(i as int)), ex, key@, state.entries@[i as int].1@);
        }
        if dot == kc.len() && !is_excluded(&kc, &excluding) {
            let ghost before = out@;
            out.insert(key.clone(), state.entries[i].1.clone_value());
            assert(out@ =~= start.union_prefer_right(base_fields(members_view(state.entries@.take(i + 1)), ex)));
        }
    }
    assert(state.entries@.take(n as int) =~= state.entries@);
}

/// Whether every key of `state` holds a '.'.
pub fn keys_dotted(state: &JsonObject) -> (r: bool)
    ensures
        r == all_dotted(state@),
{
    let n = state.entries.len();
    for i in 0..n
        invariant
            n == state.entries@.len(),
            forall|j: int| 0 <= j < i ==> (#[trigger] state.entries@[j]).0@.contains('.'),
    {
        let kc = chars_of(state.entries[i].0.as_str());
        let dot = find_char_in(&kc, '.');
        proof {
            lemma_find_char(kc@, '.');
        }
        if dot == kc.len() {
            proof {
                lemma_members_contains(state.entries@, kc@);
            }
            return false;
        }
    }
    proof {
        assert forall|k: Seq<char>| #[trigger] state@.contains_key(k) implies k.contains('.') by {
            lemma_members_contains(state.entries@, k);
            let j = choose|j: int| 0 <= j < state.entries@.len() && #[trigger] state.entries@[j].0@ == k;
            assert(state.entries@[j].0@.contains('.'));
        }
    }
    true
}

/// Whether `list` holds a string with the characters of `s`.
pub fn list_has(list: &Vec<String>, s: &String) -> (r: bool)
    ensures
        r == exists|i: int| 0 <= i < list@.len() && #[trigger] list@[i]@ == s@,
{
    let mut i: usize = 0;
    while i < list.len()
        invariant
            i <= list@.len(),
            forall|j: int| 0 <= j < i ==> #[trigger] list@[j]@ != s@,
        decreases list@.len() - i,
    {
        if list[i].eq(s) {
            return true;
        }
        i = i + 1;
    }
    false
}

/// The distinct pieces of the keys of `state` before their first '.'. They
/// are kept in a list without repetition: a hash set of strings would hold
/// them too, but Verus proves nothing of what such a set holds.
pub fn get_ids(state: &JsonObject) -> (r: Vec<String>)
    requires
        all_dotted(state@),
    ensures
        lists_set(r@, id_segments(state@)),
{
    let mut out: Vec<String> = Vec::new();
    let n = state.entries.len();
    for i in 0..n
        invariant
            n == state.entries@.len(),
            all_dotted(state@),
            forall|a: int, b: int| 0 <= a < b < out@.len() ==> out@[a]@ != out@[b]@,
            forall|a: int| 0 <= a < out@.len() ==> id_segments(state@).contains(#[trigger] out@[a]@),
            forall|j: int| 0 <= j < i ==> exists|a: int| 0 <= a < out@.len() && #[trigger] out@[a]@ == before_char(
                (#[trigger] state.entries@[j]).0@,
                '.',
            ),
    {
        let key = &state.entries[i].0;
        let kc = chars_of(key.as_str());
        let dot = find_char_in(&kc, '.');
        proof {
            lemma_find_char(key@, '.');
        }
        let seg = substring(key.as_str(), 0, dot);
        proof {
            assert(seg@ =~= before_char(key@, '.'));
            lemma_members_contains(state.entries@, key@);
            assert(state@.contains_key(key@));
        }
        let ghost prev = out@;
        if !list_has(&out, &seg) {
            out.push(seg);
            assert(out@[out@.len() - 1]@ == before_char(key@, '.'));
        }
        proof {
            assert forall|j: int| 0 <= j < i + 1 implies exists|a: int|
                0 <= a < out@.len() && #[trigger] out@[a]@ == before_char((#[trigger] state.entries@[j]).0@, '.') by {
                if j < i {
                    let a = choose|a: int| 0 <= a < prev.len() && #[trigger] prev[a]@ == before_char(state.entries@[j].0@, '.');
                    assert(out@[a] == prev[a]);
                } else {
                    assert(state.entries@[j].0@ == key@);
                }
            }
        }
    }
    proof {
        assert forall|s: Seq<char>| id_segments(state@).contains(s) implies exists|a: int|
            0 <= a < out@.len() && #[trigger] out@[a]@ == s by {
            let k = choose|k: Seq<char>| #[trigger] state@.contains_key(k) && before_char(k, '.') == s;
            lemma_members_contains(state.entries@, k);
            let j = choose|j: int| 0 <= j < state.entries@.len() && #[trigger] state.entries@[j].0@ == k;
            assert(state.entries@[j].0@ == k);
        }
    }
    out
}

/// The part of the string `value` before the first occurrence of `delimiter`.
pub fn trim_at(value: &JsonValue, delimiter: &str) -> (r: JsonValue)
    requires
        value@ is Str,
        contains_seq(value@->Str_0, delimiter@),
    ensures
        r@ == SpecJson::Str(value@->Str_0.take(find_seq(value@->Str_0, delimiter@) as int)),
{
    match value {
        JsonValue::String(s) => {
            let sc = chars_of(s.as_str());
            let dc = chars_of(delimiter);
            let at = find_chars(&sc, &dc);
            JsonValue::String(substring(s.as_str(), 0, at))
        },
        _ => {
            assert(false);
            JsonValue::Null
        },
    }
}


/// An object whose member `k`, for each `k` of `keys`, is what `f` makes of
/// the entries under `k` followed by a '.'.
pub open spec fn keyed(m: Fields, keys: Set<Seq<char>>, f: spec_fn(Fields) -> SpecJson) -> Fields {
    Map::new(|k: Seq<char>| keys.contains(k), |k: Seq<char>| f(stripped(m, dotted(k))))
}

/// Whether `ok` holds of the entries under each key of `keys`.
pub open spec fn keyed_ok(m: Fields, keys: Set<Seq<char>>, ok: spec_fn(Fields) -> bool) -> bool {
    forall|k: Seq<char>| #[trigger] keys.contains(k) ==> ok(stripped(m, dotted(k)))
}

/// Builds, for each key of `keys`, the value that `build` makes of the
/// entries of `state` under that key followed by a '.'; `None` as soon as
/// `build` gives `None`.
pub(crate) fn build_keyed<F: Fn(&JsonObject) -> Option<JsonValue>>(
    state: &JsonObject,
    keys: &Vec<String>,
    build: F,
    Ghost(key_set): Ghost<Set<Seq<char>>>,
    Ghost(ok): Ghost<spec_fn(Fields) -> bool>,
    Ghost(tree): Ghost<spec_fn(Fields) -> SpecJson>,
) -> (r: Option<JsonObject>)
    requires
        lists_set(keys@, key_set),
        forall|s: &JsonObject| #[trigger] build.requires((s,)),
        forall|s: &JsonObject, t: Option<JsonValue>| #[trigger]
            build.ensures((s,), t) ==> (t is Some <==> ok(s@)) && (t matches Some(v) ==> v@ == tree(s@)),
    ensures
        r is Some <==> keyed_ok(state@, key_set, ok),
        r matches Some(o) ==> o@ == keyed(state@, key_set, tree),
{
    let mut out = JsonObject::new();
    let n = keys.len();
    proof {
        reveal_strlit(".");
    }
    assert(out@ =~= keyed(state@, Set::new(|k: Seq<char>| exists|j: int| 0 <= j < 0 && keys@[j]@ == k), tree));
    for i in 0..n
        invariant
            n == keys@.len(),
            "."@ == seq!['.'],
            lists_set(keys@, key_set),
            forall|s: &JsonObject| #[trigger] build.requires((s,)),
            forall|s: &JsonObject, t: Option<JsonValue>| #[trigger]
                build.ensures((s,), t) ==> (t is Some <==> ok(s@)) && (t matches Some(v) ==> v@ == tree(s@)),
            forall|j: int| 0 <= j < i ==> ok(stripped(state@, dotted(#[trigger] keys@[j]@))),
            out@ == keyed(state@, Set::new(|k: Seq<char>| exists|j: int| 0 <= j < i && #[trigger] keys@[j]@ == k), tree),
    {
        let prefix = concat(keys[i].as_str(), ".");
        assert(prefix@ =~= dotted(keys@[i as int]@));
        let sub = strip_prefix(state, prefix.as_str());
        match build(&sub) {
            None => {
                assert(key_set.contains(keys@[i as int]@));
                return None;
            },
            Some(v) => {
                let ghost old_set = Set::new(|k: Seq<char>| exists|j: int| 0 <= j < i && #[trigger] keys@[j]@ == k);
                let ghost new_set = Set::new(|k: Seq<char>| exists|j: int| 0 <= j < i + 1 && #[trigger] keys@[j]@ == k);
                out.insert(keys[i].clone(), v);
                assert(new_set =~= old_set.insert(keys@[i as int]@)) by {
                    assert forall|k: Seq<char>| #[trigger] new_set.contains(k) implies old_set.insert(keys@[i as int]@).contains(k) by {
                        let j = choose|j: int| 0 <= j < i + 1 && #[trigger] keys@[j]@ == k;
                        if j < i {
                            assert(keys@[j]@ == k);
                        }
                    }
                    assert(keys@[i as int]@ == keys@[i as int]@);
                }
                assert(out@ =~= keyed(state@, new_set, tree));
            },
        }
    }
    proof {
        assert(Set::new(|k: Seq<char>| exists|j: int| 0 <= j < n && #[trigger] keys@[j]@ == k) =~= key_set);
        assert forall|k: Seq<char>| #[trigger] key_set.contains(k) implies ok(stripped(state@, dotted(k))) by {
            let j = choose|j: int| 0 <= j < keys@.len() && #[trigger] keys@[j]@ == k;
            assert(ok(stripped(state@, dotted(keys@[j]@))));
        }
    }
    Some(out)
}


/// An object holding the entries whose key has no '.'.
pub open spec fn base_tree(m: Fields) -> SpecJson {
    SpecJson::Object(base(m))
}

/// The members of `state` whose key has no '.'.
pub fn base_object(state: &JsonObject) -> (r: JsonObject)
    ensures
        r@ == base(state@),
{
    let mut r = JsonObject::new();
    insert_base(state, &mut r, None);
    assert(excluded_keys(None) =~= Set::<Seq<char>>::empty());
    assert(r@ =~= base(state@));
    r
}

/// The object of the members of `state` whose key has no '.'; never `None`.
pub(crate) fn build_base(state: &JsonObject) -> (r: Option<JsonValue>)
    ensures
        r matches Some(v) && v@ == base_tree(state@),
{
    Some(JsonValue::Object(base_object(state)))
}

} // verus!
