//! The typed reads that reading a game file makes, in the order it makes
//! them. Each entity is read into its typed form as soon as its parts are
//! built, and a state that cannot be taken apart stops the reading; the
//! reads are listed up to that point, so that a caller can make them in
//! turn and stop at the first one that fails.

use vstd::prelude::*;

use crate::json::{JsonObject, JsonValue, SpecJson};
use crate::state::{dotted, lists_set, strip_prefix, stripped, Fields};
use crate::text::concat;

verus! {

/// The typed forms that parts of a game file are read into.
#[derive(Debug, Clone, Copy, PartialEq, Eq)]
pub enum ReadKind {
    Version,
    /// A clock; one that cannot be read stops the reading.
    Clock,
    EventInfo,
    /// The name of a fielding position, read from a string.
    FieldingPosition,
    FieldingPositionSkater,
    ScoringTrip,
    TeamJam,
    Jam,
    Timeout,
    /// A period, read from a JSON value rather than through a path tracker.
    Period,
    BoxTrip,
    Penalty,
    Skater,
    Team,
    Game,
}

/// One typed read: the form to read and the value to read it from.
#[derive(Debug)]
pub struct Read {
    pub kind: ReadKind,
    pub value: JsonValue,
}

/// A read as the mathematics sees it.
pub type SpecRead = (ReadKind, SpecJson);

/// The reads a list of reads stands for.
pub open spec fn reads_view(s: Seq<Read>) -> Seq<SpecRead> {
    s.map_values(|r: Read| (r.kind, r.value@))
}

/// The reads of two lists one after the other.
pub proof fn lemma_reads_view_add(a: Seq<Read>, b: Seq<Read>)
    ensures
        reads_view(a + b) == reads_view(a) + reads_view(b),
{
    assert(reads_view(a + b) =~= reads_view(a) + reads_view(b));
}

/// The reads of a list with one more read at its end.
pub proof fn lemma_reads_view_push(a: Seq<Read>, r: Read)
    ensures
        reads_view(a.push(r)) == reads_view(a).push((r.kind, r.value@)),
{
    assert(reads_view(a.push(r)) =~= reads_view(a).push((r.kind, r.value@)));
}

/// The reads nothing makes.
pub proof fn lemma_reads_view_empty()
    ensures
        reads_view(Seq::<Read>::empty()) == Seq::<SpecRead>::empty(),
{
    assert(reads_view(Seq::<Read>::empty()) =~= Seq::<SpecRead>::empty());
}

/// Whether each entity filed under a key of `l` can be taken apart.
pub open spec fn keyed_prefix_ok(m: Fields, l: Seq<String>, ok: spec_fn(Fields) -> bool) -> bool {
    forall|i: int| 0 <= i < l.len() ==> ok(stripped(m, dotted(#[trigger] l[i]@)))
}

/// Whether `parts` are the reads of the entities filed under the keys of
/// `l`, one part per entity in the order of `l`: each part is what `rel`
/// allows for its key and entries, and the entities end with the last key
/// or with the first entity that cannot be taken apart (`ok` fails).
pub open spec fn keyed_parts(
    m: Fields,
    l: Seq<String>,
    rel: spec_fn(Seq<char>, Fields, Seq<SpecRead>) -> bool,
    ok: spec_fn(Fields) -> bool,
    parts: Seq<Seq<SpecRead>>,
) -> bool {
    &&& parts.len() <= l.len()
    &&& forall|i: int| 0 <= i < parts.len() ==> rel(l[i]@, stripped(m, dotted(l[i]@)), #[trigger] parts[i])
    &&& forall|i: int| 0 <= i < parts.len() - 1 ==> ok(stripped(m, dotted(#[trigger] l[i]@)))
    &&& parts.len() == l.len() || (parts.len() > 0 && !ok(stripped(m, dotted(l[parts.len() - 1]@))))
}

/// Whether `s` are the reads of the entities filed under the keys of `l`,
/// taken in the order of `l`.
pub open spec fn keyed_reads(
    m: Fields,
    l: Seq<String>,
    rel: spec_fn(Seq<char>, Fields, Seq<SpecRead>) -> bool,
    ok: spec_fn(Fields) -> bool,
    s: Seq<SpecRead>,
) -> bool {
    exists|parts: Seq<Seq<SpecRead>>| #[trigger] keyed_parts(m, l, rel, ok, parts) && s == parts.flatten()
}

/// Whether `s` are the reads of the entities filed under the keys of
/// `keys`, taken in some order, as a set leaves the order open.
pub open spec fn listed_reads(
    m: Fields,
    keys: Set<Seq<char>>,
    rel: spec_fn(Seq<char>, Fields, Seq<SpecRead>) -> bool,
    ok: spec_fn(Fields) -> bool,
    s: Seq<SpecRead>,
) -> bool {
    exists|l: Seq<String>| lists_set(l, keys) && #[trigger] keyed_reads(m, l, rel, ok, s)
}

/// The reads of the entities filed under the keys of `keys`, in the order of
/// the list, each made by `child` from its key and its entries; the flag
/// tells whether every entity could be taken apart.
pub(crate) fn keyed_reads_of<F: Fn(&String, &JsonObject) -> (bool, Vec<Read>)>(
    state: &JsonObject,
    keys: &Vec<String>,
    child: F,
    Ghost(rel): Ghost<spec_fn(Seq<char>, Fields, Seq<SpecRead>) -> bool>,
    Ghost(ok): Ghost<spec_fn(Fields) -> bool>,
) -> (r: (bool, Vec<Read>))
    requires
        forall|k: &String, s: &JsonObject| #[trigger] child.requires((k, s)),
        forall|k: &String, s: &JsonObject, t: (bool, Vec<Read>)| #[trigger]
            child.ensures((k, s), t) ==> t.0 == ok(s@) && rel(k@, s@, reads_view(t.1@)),
    ensures
        r.0 == keyed_prefix_ok(state@, keys@, ok),
        keyed_reads(state@, keys@, rel, ok, reads_view(r.1@)),
{
    let mut acc: Vec<Read> = Vec::new();
    let ghost mut parts: Seq<Seq<SpecRead>> = Seq::empty();
    let n = keys.len();
    proof {
        reveal_strlit(".");
        lemma_reads_view_empty();
        assert(parts.flatten() =~= Seq::<SpecRead>::empty());
    }
    for i in 0..n
        invariant
            n == keys@.len(),
            "."@ == seq!['.'],
            forall|k: &String, s: &JsonObject| #[trigger] child.requires((k, s)),
            forall|k: &String, s: &JsonObject, t: (bool, Vec<Read>)| #[trigger]
                child.ensures((k, s), t) ==> t.0 == ok(s@) && rel(k@, s@, reads_view(t.1@)),
            parts.len() == i,
            forall|j: int| 0 <= j < i ==> rel(keys@[j]@, stripped(state@, dotted(keys@[j]@)), #[trigger] parts[j]),
            keyed_prefix_ok(state@, keys@.take(i as int), ok),
            reads_view(acc@) == parts.flatten(),
    {
        let prefix = concat(keys[i].as_str(), ".");
        assert(prefix@ =~= dotted(keys@[i as int]@));
        let sub = strip_prefix(state, prefix.as_str());
        let (child_ok, mut more) = child(&keys[i], &sub);
        proof {
            lemma_reads_view_add(acc@, more@);
            parts.lemma_flatten_push(reads_view(more@));
            parts = parts.push(reads_view(more@));
        }
        acc.append(&mut more);
        if !child_ok {
            proof {
                assert forall|j: int| 0 <= j < parts.len() - 1 implies ok(stripped(state@, dotted(#[trigger] keys@[j]@))) by {
                    assert(keys@.take(i as int)[j] == keys@[j]);
                }
                assert(keyed_parts(state@, keys@, rel, ok, parts));
                assert(!keyed_prefix_ok(state@, keys@, ok));
            }
            return (false, acc);
        }
        proof {
            assert forall|j: int| 0 <= j < i + 1 implies ok(stripped(state@, dotted(#[trigger] keys@.take(i + 1)[j]@))) by {
                if j < i {
                    assert(keys@.take(i + 1)[j] == keys@.take(i as int)[j]);
                }
            }
        }
    }
    proof {
        assert(keys@.take(n as int) =~= keys@);
        assert forall|j: int| 0 <= j < parts.len() - 1 implies ok(stripped(state@, dotted(#[trigger] keys@[j]@))) by {
            assert(keys@.take(n as int)[j] == keys@[j]);
        }
        assert(keyed_parts(state@, keys@, rel, ok, parts));
    }
    (true, acc)
}

/// No reads.
pub(crate) fn no_reads() -> (r: Vec<Read>)
    ensures
        reads_view(r@) == Seq::<SpecRead>::empty(),
{
    proof {
        lemma_reads_view_empty();
    }
    Vec::new()
}

/// Adds one read at the end of `acc`.
pub(crate) fn push_read(acc: &mut Vec<Read>, kind: ReadKind, value: JsonValue)
    ensures
        reads_view(final(acc)@) == reads_view(old(acc)@).push((kind, value@)),
{
    let r = Read { kind, value };
    proof {
        lemma_reads_view_push(acc@, r);
    }
    acc.push(r);
}

/// Adds the reads of `more` at the end of `acc`.
pub(crate) fn join_reads(acc: &mut Vec<Read>, more: Vec<Read>)
    ensures
        reads_view(final(acc)@) == reads_view(old(acc)@) + reads_view(more@),
{
    let mut more = more;
    proof {
        lemma_reads_view_add(acc@, more@);
    }
    acc.append(&mut more);
}

} // verus!
