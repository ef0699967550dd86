use vstd::prelude::*;

verus! {

broadcast use vstd::std_specs::vec::group_vec_axioms;

/// A JSON value. Numbers are held as their JSON text, so that no precision is
/// lost between reading a document and writing it back.
#[derive(Debug)]
pub enum JsonValue {
    Null,
    Bool(bool),
    Number(String),
    String(String),
    Array(Vec<JsonValue>),
    Object(JsonObject),
}

/// A JSON object: a list of members in which a later member overrides an
/// earlier member with the same key. `serde_json`'s own map offers its
/// methods only with `serde_json`'s values as members, which the conversion
/// reads (a clock's "Id" string, the "state" object) and which Verus cannot
/// see into; so objects are held here as a list of the library's values.
#[derive(Debug)]
pub struct JsonObject {
    pub entries: Vec<(String, JsonValue)>,
}

/// The mathematical value of a JSON value: objects are maps, so the order of
/// members does not matter.
pub enum SpecJson {
    Null,
    Bool(bool),
    Number(Seq<char>),
    Str(Seq<char>),
    Array(Seq<SpecJson>),
    Object(Map<Seq<char>, SpecJson>),
}

/// What a value denotes: objects become maps in which the last member under
/// a key wins.
pub open spec fn json_view(v: JsonValue) -> SpecJson
    decreases v,
{
    match v {
        JsonValue::Null => SpecJson::Null,
        JsonValue::Bool(b) => SpecJson::Bool(b),
        JsonValue::Number(n) => SpecJson::Number(n@),
        JsonValue::String(s) => SpecJson::Str(s@),
        JsonValue::Array(items) => {
            proof {
                assert(decreases_to!(items => items@));
            }
            SpecJson::Array(values_view(items@))
        },
        JsonValue::Object(o) => {
            proof {
                assert(decreases_to!(o.entries => o.entries@));
            }
            SpecJson::Object(members_view(o.entries@))
        },
    }
}

/// What the items of an array denote.
pub open spec fn values_view(vs: Seq<JsonValue>) -> Seq<SpecJson>
    decreases vs,
{
    if vs.len() == 0 {
        Seq::empty()
    } else {
        proof {
            assert(decreases_to!(vs => vs[vs.len() - 1]));
        }
        values_view(vs.drop_last()).push(json_view(vs[vs.len() - 1]))
    }
}

/// The map that a list of members denotes: the last member with a key wins.
pub open spec fn members_view(es: Seq<(String, JsonValue)>) -> Map<Seq<char>, SpecJson>
    decreases es,
{
    if es.len() == 0 {
        Map::empty()
    } else {
        proof {
            assert(decreases_to!(es => es[es.len() - 1]));
        }
        members_view(es.drop_last()).insert(es[es.len() - 1].0@, json_view(es[es.len() - 1].1))
    }
}

impl View for JsonValue {
    type V = SpecJson;

    open spec fn view(&self) -> SpecJson {
        json_view(*self)
    }
}

impl View for JsonObject {
    type V = Map<Seq<char>, SpecJson>;

    open spec fn view(&self) -> Map<Seq<char>, SpecJson> {
        members_view(self.entries@)
    }
}


/// A member appended to an object replaces what it held under that key.
pub proof fn lemma_members_push(es: Seq<(String, JsonValue)>, e: (String, JsonValue))
    ensures
        members_view(es.push(e)) == members_view(es).insert(e.0@, json_view(e.1)),
{
    assert(es.push(e).drop_last() =~= es);
}

/// An item appended to an array is the last item of what it denotes.
pub proof fn lemma_values_push(vs: Seq<JsonValue>, v: JsonValue)
    ensures
        values_view(vs.push(v)) == values_view(vs).push(json_view(v)),
{
    assert(vs.push(v).drop_last() =~= vs);
}

/// A key is in the denoted map exactly when some member has it.
pub proof fn lemma_members_contains(es: Seq<(String, JsonValue)>, k: Seq<char>)
    ensures
        members_view(es).contains_key(k) <==> exists|i: int| 0 <= i < es.len() && #[trigger] es[i].0@ == k,
    decreases es.len(),
{
    if es.len() > 0 {
        let last = es.len() - 1;
        lemma_members_contains(es.drop_last(), k);
        if members_view(es).contains_key(k) {
            if es[last].0@ != k {
                let i = choose|i: int| 0 <= i < es.drop_last().len() && #[trigger] es.drop_last()[i].0@ == k;
                assert(es[i].0@ == k);
            }
        }
        if exists|i: int| 0 <= i < es.len() && #[trigger] es[i].0@ == k {
            let i = choose|i: int| 0 <= i < es.len() && #[trigger] es[i].0@ == k;
            if i < last {
                assert(es.drop_last()[i].0@ == k);
            }
        }
    }
}

/// The denoted value of a key is that of the last member with it.
pub proof fn lemma_members_last(es: Seq<(String, JsonValue)>, i: int)
    requires
        0 <= i < es.len(),
        forall|j: int| i < j < es.len() ==> #[trigger] es[j].0@ != es[i].0@,
    ensures
        members_view(es).contains_key(es[i].0@),
        members_view(es)[es[i].0@] == json_view(es[i].1),
    decreases es.len(),
{
    let last = es.len() - 1;
    if i < last {
        assert(es[last].0@ != es[i].0@);
        let d = es.drop_last();
        assert forall|j: int| i < j < d.len() implies #[trigger] d[j].0@ != d[i].0@ by {
            assert(es[j].0@ != es[i].0@);
        }
        lemma_members_last(d, i);
    }
}

impl JsonObject {
    /// An object without members.
    pub fn new() -> (r: JsonObject)
        ensures
            r@ == Map::<Seq<char>, SpecJson>::empty(),
            r.entries@.len() == 0,
    {
        JsonObject { entries: Vec::new() }
    }

    /// Sets `key` to `value`, replacing what the key held before.
    pub fn insert(&mut self, key: String, value: JsonValue)
        ensures
            final(self)@ == old(self)@.insert(key@, value@),
            final(self).entries@ == old(self).entries@.push((key, value)),
    {
        proof {
            lemma_members_push(self.entries@, (key, value));
        }
        self.entries.push((key, value));
    }

    /// The value of `key`, if the object has it.
    pub fn get(&self, key: &str) -> (r: Option<&JsonValue>)
        ensures
            r is Some <==> self@.contains_key(key@),
            r matches Some(v) ==> v@ == self@[key@],
    {
        let wanted = key.to_owned();
        let mut i = self.entries.len();
        while i > 0
            invariant
                i <= self.entries@.len(),
                wanted@ == key@,
                forall|j: int| i <= j < self.entries@.len() ==> #[trigger] self.entries@[j].0@ != key@,
            decreases i,
        {
            i = i - 1;
            if self.entries[i].0.eq(&wanted) {
                proof {
                    assert(self.entries@[i as int].0@ == key@);
                    lemma_members_last(self.entries@, i as int);
                }
                return Some(&self.entries[i].1);
            }
        }
        proof {
            lemma_members_contains(self.entries@, key@);
        }
        None
    }

    /// A copy of the object with the same members.
    #[verifier::loop_isolation(false)]
    pub fn clone_object(&self) -> (r: JsonObject)
        ensures
            r@ == self@,
        decreases self,
    {
        let mut out: Vec<(String, JsonValue)> = Vec::new();
        let n = self.entries.len();
        for i in 0..n
            invariant
                n == self.entries@.len(),
                members_view(out@) == members_view(self.entries@.take(i as int)),
        {
            proof {
                assert(decreases_to!(self => self.entries));
                assert(decreases_to!(self.entries => self.entries[i as int]));
            }
            let k = self.entries[i].0.clone();
            let v = self.entries[i].1.clone_value();
            proof {
                lemma_members_push(out@, (k, v));
                lemma_members_push(self.entries@.take(i as int), self.entries@[i as int]);
                assert(self.entries@.take(i as int).push(self.entries@[i as int]) =~= self.entries@.take(i + 1));
            }
            out.push((k, v));
        }
        proof {
            assert(self.entries@.take(n as int) =~= self.entries@);
        }
        JsonObject { entries: out }
    }
}

impl JsonValue {
    /// A copy of the value.
    #[verifier::loop_isolation(false)]
    pub fn clone_value(&self) -> (r: JsonValue)
        ensures
            r@ == self@,
        decreases self,
    {
        match self {
            JsonValue::Null => JsonValue::Null,
            JsonValue::Bool(b) => JsonValue::Bool(*b),
            JsonValue::Number(n) => JsonValue::Number(n.clone()),
            JsonValue::String(s) => JsonValue::String(s.clone()),
            JsonValue::Array(items) => {
                let mut out: Vec<JsonValue> = Vec::new();
                let n = items.len();
                for i in 0..n
                    invariant
                        n == items@.len(),
                        values_view(out@) == values_view(items@.take(i as int)),
                {
                    proof {
                        assert(decreases_to!(self => items));
                        assert(decreases_to!(items => items[i as int]));
                    }
                    let v = items[i].clone_value();
                    proof {
                        lemma_values_push(out@, v);
                        lemma_values_push(items@.take(i as int), items@[i as int]);
                        assert(items@.take(i as int).push(items@[i as int]) =~= items@.take(i + 1));
                    }
                    out.push(v);
                }
                proof {
                    assert(items@.take(n as int) =~= items@);
                }
                JsonValue::Array(out)
            },
            JsonValue::Object(o) => JsonValue::Object(o.clone_object()),
        }
    }
}

/// The parse error of `serde_json`, carried back to the caller as it is.
#[verifier::external_type_specification]
#[verifier::external_body]
pub struct ExJsonError(serde_json::Error);

/// A value of `serde_json`, carried only from the parser into the conversion
/// below.
#[verifier::external_type_specification]
#[verifier::external_body]
pub struct ExJsonSerdeValue(serde_json::Value);

/// The document that `serde_json` reads from `text` as a JSON object, member
/// for member, or `None` where the text is no JSON object.
pub uninterp spec fn json_document(text: Seq<char>) -> Option<SpecJson>;

/// The library's value for a value of `serde_json`, variant for variant;
/// numbers keep the text that `serde_json` writes for them.
#[verifier::external_body]
fn json_from_serde(value: serde_json::Value) -> JsonValue {
    match value {
        serde_json::Value::Null => JsonValue::Null,
        serde_json::Value::Bool(b) => JsonValue::Bool(b),
        serde_json::Value::Number(n) => JsonValue::Number(n.to_string()),
        serde_json::Value::String(s) => JsonValue::String(s),
        serde_json::Value::Array(items) => JsonValue::Array(items.into_iter().map(json_from_serde).collect()),
        serde_json::Value::Object(map) => JsonValue::Object(
            JsonObject { entries: map.into_iter().map(|(k, v)| (k, json_from_serde(v))).collect() },
        ),
    }
}

/// Parses `text` as a JSON object with `serde_json` (`Map::from_str`) and
/// converts what it reads member for member. The contract claims that the
/// outcome is a function of the text (`json_document`) and that the error
/// comes exactly where that function has no document; what `serde_json`
/// accepts, and what it reads, is not stated.
#[verifier::external_body]
pub(crate) fn parse_json_document(text: &str) -> (r: Result<JsonValue, serde_json::Error>)
    ensures
        r is Ok <==> json_document(text@) is Some,
        r matches Ok(v) ==> json_document(text@) == Some(v@),
{
    match text.parse::<serde_json::Map<String, serde_json::Value>>() {
        Ok(map) => Ok(json_from_serde(serde_json::Value::Object(map))),
        Err(e) => Err(e),
    }
}

} // verus!
