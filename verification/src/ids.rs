//! The identifiers under which the state files its entities: small numbers
//! and UUIDs, read from keys and written back in their canonical form.

use vstd::prelude::*;
use vstd::arithmetic::power2::pow2;

use crate::json::JsonObject;
use crate::state::{all_dotted, get_ids, id_segments, keys_dotted, list_has, lists_set, Fields};
use crate::text::{chars_of, decimal_string, decimal_text, lemma_decimal_round_trip, parse_unsigned, parse_unsigned_in};

verus! {

/// The lower-case hexadecimal digit for `d`.
pub open spec fn hex_digit(d: nat) -> char {
    if d < 10 {
        (d + 48) as char
    } else {
        (d + 87) as char
    }
}

/// The `i`-th hexadecimal digit of `id`, counting from the most significant.
pub open spec fn uuid_nibble(id: u128, i: int) -> nat {
    ((id as nat) / pow2((4 * (31 - i)) as nat)) % 16
}

/// The 32 hexadecimal digits of `id`.
pub open spec fn uuid_hex(id: u128) -> Seq<char> {
    Seq::new(32, |i: int| hex_digit(uuid_nibble(id, i)))
}

/// The hyphenated lower-case form of the UUID whose big-endian value is `id`,
/// such as `67e55044-10b1-426f-9247-bb680e5fe0c8`.
pub open spec fn uuid_hyphenated(id: u128) -> Seq<char> {
    let h = uuid_hex(id);
    h.subrange(0, 8) + seq!['-'] + h.subrange(8, 12) + seq!['-'] + h.subrange(12, 16) + seq!['-']
        + h.subrange(16, 20) + seq!['-'] + h.subrange(20, 32)
}

/// The UUID, as its big-endian value, that `uuid::Uuid::parse_str` reads
/// from `text`, or `None` where it fails.
pub uninterp spec fn uuid_parse(text: Seq<char>) -> Option<u128>;

/// Whether `s` is the hyphenated lower-case form of some UUID.
pub open spec fn is_uuid_text(s: Seq<char>) -> bool {
    exists|id: u128| s == #[trigger] uuid_hyphenated(id)
}

/// Reads a UUID with `uuid::Uuid::parse_str`, which takes the simple,
/// hyphenated, braced and URN forms. The contract claims that the result is
/// a function of the text (`uuid_parse`); that only texts of 32, 36, 38 or
/// 45 characters can be read, the lengths of those four forms; and, as the
/// crate documents that every form it writes is read back, that the
/// hyphenated lower-case form of a UUID reads as that UUID. Which other
/// texts of those lengths parse, and to what, is not stated.
#[verifier::external_body]
fn parse_uuid(text: &str) -> (r: Option<u128>)
    ensures
        r == uuid_parse(text@),
        r is Some ==> (text@.len() == 32 || text@.len() == 36 || text@.len() == 38 || text@.len() == 45),
        forall|id: u128| text@ == #[trigger] uuid_hyphenated(id) ==> r == Some(id),
{
    match uuid::Uuid::parse_str(text) {
        Ok(id) => Some(id.as_u128()),
        Err(_) => None,
    }
}

/// Displays a UUID through `uuid::Uuid`'s `Display`, which writes the
/// hyphenated form in lower case: the contract claims exactly that text.
#[verifier::external_body]
fn format_uuid(id: u128) -> (r: String)
    ensures
        r@ == uuid_hyphenated(id),
{
    uuid::Uuid::from_u128(id).to_string()
}

/// The kinds of identifier that the state files entities under.
#[derive(Debug, Clone, Copy)]
pub enum IdKind {
    /// A `u8`, as periods and penalties are numbered.
    Byte,
    /// A `u16`, as jams and scoring trips are numbered.
    Short,
    /// A UUID, as games, timeouts, box trips and skaters are named.
    Uuid,
}

/// The canonical text of the identifier written `s`: the identifier read
/// and displayed again; `None` where it cannot be read.
pub open spec fn canonical_id(kind: IdKind, s: Seq<char>) -> Option<Seq<char>> {
    match kind {
        IdKind::Byte => match parse_unsigned(s, 255) {
            Some(n) => Some(decimal_text(n)),
            None => None,
        },
        IdKind::Short => match parse_unsigned(s, 65535) {
            Some(n) => Some(decimal_text(n)),
            None => None,
        },
        IdKind::Uuid => match uuid_parse(s) {
            Some(id) => Some(uuid_hyphenated(id)),
            None => None,
        },
    }
}

/// The canonical text of a number is its own canonical text: numbered
/// entities filed under canonical keys are found under the same keys again.
pub proof fn lemma_canonical_number_is_stable(n: nat)
    ensures
        n <= 255 ==> canonical_id(IdKind::Byte, decimal_text(n)) == Some(decimal_text(n)),
        n <= 65535 ==> canonical_id(IdKind::Short, decimal_text(n)) == Some(decimal_text(n)),
{
    lemma_decimal_round_trip(n);
}

/// The greatest number that an identifier of a numbered kind can hold.
pub open spec fn id_max(kind: IdKind) -> nat {
    match kind {
        IdKind::Byte => 255,
        IdKind::Short => 65535,
        IdKind::Uuid => 0,
    }
}

/// Whether the kind is numbered and every key holds a '.' and starts with
/// the decimal text of a number of that kind.
pub open spec fn keyed_by_number_texts(m: Fields, kind: IdKind) -> bool {
    &&& kind !is Uuid
    &&& all_dotted(m)
    &&& forall|s: Seq<char>| #[trigger] id_segments(m).contains(s) ==> exists|n: nat| n <= id_max(kind) && s == #[trigger] decimal_text(n)
}

/// Whether every key holds a '.' and starts with the hyphenated lower-case
/// form of a UUID.
pub open spec fn keyed_by_uuid_texts(m: Fields) -> bool {
    &&& all_dotted(m)
    &&& forall|s: Seq<char>| #[trigger] id_segments(m).contains(s) ==> is_uuid_text(s)
}

/// Whether every key holds a '.' and the piece before it is an identifier
/// of the given kind.
pub open spec fn ids_ok(m: Fields, kind: IdKind) -> bool {
    &&& all_dotted(m)
    &&& forall|s: Seq<char>| #[trigger] id_segments(m).contains(s) ==> canonical_id(kind, s) is Some
}

/// The canonical texts of the identifiers that the keys start with.
pub open spec fn id_keys(m: Fields, kind: IdKind) -> Set<Seq<char>> {
    Set::new(
        |k: Seq<char>| exists|s: Seq<char>| #[trigger] id_segments(m).contains(s) && canonical_id(kind, s) == Some(k),
    )
}

/// Numbered entities filed under the decimal text of their number keep
/// those keys: the ids are exactly the pieces before the first '.'.
pub proof fn lemma_number_keys_are_kept(m: Fields, kind: IdKind)
    requires
        keyed_by_number_texts(m, kind),
    ensures
        ids_ok(m, kind),
        id_keys(m, kind) == id_segments(m),
{
    assert forall|s: Seq<char>| #[trigger] id_segments(m).contains(s) implies canonical_id(kind, s) == Some(s) by {
        let n = choose|n: nat| n <= id_max(kind) && s == #[trigger] decimal_text(n);
        lemma_canonical_number_is_stable(n);
    }
    assert forall|k: Seq<char>| id_keys(m, kind).contains(k) <==> id_segments(m).contains(k) by {
        if id_keys(m, kind).contains(k) {
            let s = choose|s: Seq<char>| #[trigger] id_segments(m).contains(s) && canonical_id(kind, s) == Some(k);
        }
        if id_segments(m).contains(k) {
            assert(canonical_id(kind, k) == Some(k));
        }
    }
    assert(id_keys(m, kind) =~= id_segments(m));
}

/// Whether some string of `list` has the characters `k`.
pub open spec fn listed(list: Seq<String>, k: Seq<char>) -> bool {
    exists|a: int| 0 <= a < list.len() && #[trigger] list[a]@ == k
}

/// The canonical text of the identifier written `text`.
pub fn canonical_id_text(kind: &IdKind, text: &str) -> (r: Option<String>)
    ensures
        match r {
            Some(t) => canonical_id(*kind, text@) == Some(t@),
            None => canonical_id(*kind, text@) is None,
        },
        (*kind is Uuid && is_uuid_text(text@)) ==> (r matches Some(t) && t@ == text@),
{
    match kind {
        IdKind::Byte => match parse_unsigned_in(&chars_of(text), 255) {
            Some(n) => Some(decimal_string(n as u64)),
            None => None,
        },
        IdKind::Short => match parse_unsigned_in(&chars_of(text), 65535) {
            Some(n) => Some(decimal_string(n as u64)),
            None => None,
        },
        IdKind::Uuid => {
            let parsed = parse_uuid(text);
            proof {
                if is_uuid_text(text@) {
                    let id = choose|id: u128| text@ == #[trigger] uuid_hyphenated(id);
                    assert(parsed == Some(id));
                }
            }
            match parsed {
                Some(id) => Some(format_uuid(id)),
                None => None,
            }
        },
    }
}

/// The distinct canonical identifiers that the keys of `state` start with;
/// `None` where a key has no '.' or starts with no identifier of the kind.
pub fn id_keys_of(state: &JsonObject, kind: &IdKind) -> (r: Option<Vec<String>>)
    ensures
        r is Some <==> ids_ok(state@, *kind),
        r matches Some(list) ==> lists_set(list@, id_keys(state@, *kind)),
        (*kind is Uuid && keyed_by_uuid_texts(state@)) ==> (r is Some && id_keys(state@, *kind) == id_segments(state@)),
{
    if !keys_dotted(state) {
        return None;
    }
    let segs = get_ids(state);
    let mut out: Vec<String> = Vec::new();
    let n = segs.len();
    for i in 0..n
        invariant
            n == segs@.len(),
            all_dotted(state@),
            lists_set(segs@, id_segments(state@)),
            forall|j: int| 0 <= j < i ==> canonical_id(*kind, #[trigger] segs@[j]@) is Some,
            forall|a: int, b: int| 0 <= a < b < out@.len() ==> out@[a]@ != out@[b]@,
            forall|a: int| 0 <= a < out@.len() ==> id_keys(state@, *kind).contains(#[trigger] out@[a]@),
            forall|j: int| 0 <= j < i ==> listed(out@, canonical_id(*kind, #[trigger] segs@[j]@)->0),
            forall|j: int| 0 <= j < i && *kind is Uuid && is_uuid_text(#[trigger] segs@[j]@) ==> canonical_id(*kind, segs@[j]@) == Some(segs@[j]@),
    {
        let c = canonical_id_text(kind, segs[i].as_str());
        match c {
            None => {
                assert(id_segments(state@).contains(segs@[i as int]@));
                return None;
            },
            Some(t) => {
                assert(id_segments(state@).contains(segs@[i as int]@));
                let ghost prev = out@;
                let ghost tv = t@;
                if !list_has(&out, &t) {
                    out.push(t);
                    assert(out@[out@.len() - 1]@ == tv);
                }
                assert(exists|a: int| 0 <= a < out@.len() && #[trigger] out@[a]@ == tv);
                assert forall|j: int| 0 <= j < i + 1 implies listed(out@, canonical_id(*kind, #[trigger] segs@[j]@)->0) by {
                    if j < i {
                        let k = canonical_id(*kind, segs@[j]@)->0;
                        let a = choose|a: int| 0 <= a < prev.len() && #[trigger] prev[a]@ == k;
                        assert(out@[a] == prev[a]);
                    }
                }
            },
        }
    }
    proof {
        assert forall|s: Seq<char>| #[trigger] id_segments(state@).contains(s) implies canonical_id(*kind, s) is Some by {
            let j = choose|j: int| 0 <= j < segs@.len() && #[trigger] segs@[j]@ == s;
        }
        assert forall|k: Seq<char>| id_keys(state@, *kind).contains(k) implies exists|a: int|
            0 <= a < out@.len() && #[trigger] out@[a]@ == k by {
            let s = choose|s: Seq<char>| #[trigger] id_segments(state@).contains(s) && canonical_id(*kind, s) == Some(k);
            let j = choose|j: int| 0 <= j < segs@.len() && #[trigger] segs@[j]@ == s;
            assert(listed(out@, canonical_id(*kind, segs@[j]@)->0));
        }
        if *kind is Uuid && keyed_by_uuid_texts(state@) {
            assert forall|k: Seq<char>| id_keys(state@, *kind).contains(k) <==> id_segments(state@).contains(k) by {
                if id_keys(state@, *kind).contains(k) {
                    let s = choose|s: Seq<char>| #[trigger] id_segments(state@).contains(s) && canonical_id(*kind, s) == Some(k);
                    let j = choose|j: int| 0 <= j < segs@.len() && #[trigger] segs@[j]@ == s;
                    assert(is_uuid_text(segs@[j]@));
                }
                if id_segments(state@).contains(k) {
                    let j = choose|j: int| 0 <= j < segs@.len() && #[trigger] segs@[j]@ == k;
                    assert(is_uuid_text(segs@[j]@));
                    assert(canonical_id(*kind, k) == Some(k));
                }
            }
            assert(id_keys(state@, *kind) =~= id_segments(state@));
        }
    }
    Some(out)
}

} // verus!
