//! A game, and the games of a game file.

use vstd::prelude::*;

use crate::clocks::{clocks_ok, clocks_reads, clocks_reads_of, clocks_tree, try_clocks_from_state_map};
use crate::reads::{join_reads, keyed_reads_of, listed_reads, no_reads, push_read, reads_view, Read, ReadKind, SpecRead};
use crate::ids::{canonical_id, canonical_id_text, is_uuid_text, listed, IdKind};
use crate::json::{lemma_members_contains, JsonObject, JsonValue, SpecJson};
use crate::misc::{event_info_from_state_map, event_info_tree};
use crate::period::{periods_ok, periods_reads, periods_reads_of, periods_tree, try_periods_from_state_map};
use crate::state::{
    base, base_object, build_keyed, dotted, keyed, keyed_ok, lemma_strip_prefix_twice, list_has, lists_set,
    strip_prefix, stripped, Fields,
};
use crate::text::{chars_of, contains_chars, contains_seq, segment, segment_bounds, substring};
use crate::team::{team_ok, team_reads, team_reads_of, team_tree, try_team_from_state_map};

verus! {

/// Whether a game can be read: its clocks, periods and both teams can.
pub open spec fn game_ok(m: Fields) -> bool {
    &&& clocks_ok(stripped(m, "Clock."@))
    &&& periods_ok(stripped(m, "Period."@))
    &&& team_ok(stripped(m, "Team.1."@))
    &&& team_ok(stripped(m, "Team.2."@))
}

/// A game: its entries without a '.', its clocks, event, periods and two
/// teams, with empty labels, penalty codes and rules.
pub open spec fn game_tree(m: Fields) -> SpecJson {
    SpecJson::Object(
        base(m).insert("Clocks"@, clocks_tree(stripped(m, "Clock."@))).insert(
            "EventInfo"@,
            event_info_tree(m),
        ).insert("Labels"@, SpecJson::Object(Map::empty())).insert(
            "PenaltyCodes"@,
            SpecJson::Object(Map::empty()),
        ).insert("Periods"@, periods_tree(stripped(m, "Period."@))).insert(
            "Rules"@,
            SpecJson::Object(Map::empty()),
        ).insert(
            "Teams"@,
            SpecJson::Array(seq![team_tree(stripped(m, "Team.1."@)), team_tree(stripped(m, "Team.2."@))]),
        ),
    )
}

/// A game; `None` where its clocks, its periods or one of its teams cannot
/// be read.
pub fn try_game_from_state_map(state: &JsonObject) -> (r: Option<JsonValue>)
    ensures
        r is Some <==> game_ok(state@),
        r matches Some(t) ==> t@ == game_tree(state@),
{
    let mut result = base_object(state);
    let clocks = try_clocks_from_state_map(&strip_prefix(state, "Clock."))?;
    result.insert("Clocks".to_owned(), clocks);
    result.insert("EventInfo".to_owned(), event_info_from_state_map(state));
    result.insert("Labels".to_owned(), JsonValue::Object(JsonObject::new()));
    result.insert("PenaltyCodes".to_owned(), JsonValue::Object(JsonObject::new()));
    let periods = try_periods_from_state_map(&strip_prefix(state, "Period."))?;
    result.insert("Periods".to_owned(), periods);
    result.insert("Rules".to_owned(), JsonValue::Object(JsonObject::new()));
    let first = try_team_from_state_map(&strip_prefix(state, "Team.1."))?;
    let second = try_team_from_state_map(&strip_prefix(state, "Team.2."))?;
    let ghost v1 = first;
    let ghost v2 = second;
    let mut teams: Vec<JsonValue> = Vec::new();
    teams.push(first);
    teams.push(second);
    proof {
        let empty = Seq::<JsonValue>::empty();
        crate::json::lemma_values_push(empty, v1);
        crate::json::lemma_values_push(empty.push(v1), v2);
        assert(crate::json::values_view(empty) =~= Seq::<SpecJson>::empty());
        assert(teams@ =~= empty.push(v1).push(v2));
        assert(crate::json::values_view(teams@) =~= seq![v1@, v2@]);
    }
    result.insert("Teams".to_owned(), JsonValue::Array(teams));
    Some(JsonValue::Object(result))
}


/// Whether a key names a game: it holds `ScoreBoard.Game` and has a third
/// '.'-separated piece, the game's id.
pub open spec fn names_game(k: Seq<char>) -> bool {
    contains_seq(k, "ScoreBoard.Game"@) && segment(k, 2) is Some
}

/// Whether every key that names a game names it with a UUID.
pub open spec fn game_ids_ok(m: Fields) -> bool {
    forall|k: Seq<char>| #[trigger] m.contains_key(k) && names_game(k) ==> canonical_id(IdKind::Uuid, segment(k, 2)->0) is Some
}

/// The canonical ids of the games that the keys name.
pub open spec fn game_keys(m: Fields) -> Set<Seq<char>> {
    Set::new(
        |g: Seq<char>|
            exists|k: Seq<char>| #[trigger] m.contains_key(k) && names_game(k) && canonical_id(IdKind::Uuid, segment(k, 2)->0) == Some(g),
    )
}

/// The ids of the games as the keys write them: the third '.'-separated
/// pieces of the keys that name games.
pub open spec fn game_texts(m: Fields) -> Set<Seq<char>> {
    Set::new(|g: Seq<char>| exists|k: Seq<char>| #[trigger] m.contains_key(k) && names_game(k) && segment(k, 2)->0 == g)
}

/// Whether every key that names a game names it by the hyphenated
/// lower-case form of a UUID.
pub open spec fn games_named_by_uuid_texts(m: Fields) -> bool {
    forall|k: Seq<char>| #[trigger] m.contains_key(k) && names_game(k) ==> is_uuid_text(segment(k, 2)->0)
}

/// The prefix of the entries of the game with id `g`.
pub open spec fn game_prefix(g: Seq<char>) -> Seq<char> {
    "ScoreBoard.Game."@ + g + seq!['.']
}

/// Whether the games can be read: every game is named by a UUID, and each
/// game can be read.
pub open spec fn games_ok(m: Fields) -> bool {
    &&& game_ids_ok(m)
    &&& forall|g: Seq<char>| #[trigger] game_keys(m).contains(g) ==> game_ok(stripped(m, game_prefix(g)))
}

/// The games: each under its id.
pub open spec fn games_tree(m: Fields) -> SpecJson {
    SpecJson::Object(Map::new(|g: Seq<char>| game_keys(m).contains(g), |g: Seq<char>| game_tree(stripped(m, game_prefix(g)))))
}

/// The distinct canonical ids of the games that the keys of `state` name;
/// `None` where one of them is not a UUID.
pub fn game_keys_of(state: &JsonObject) -> (r: Option<Vec<String>>)
    ensures
        r is Some <==> game_ids_ok(state@),
        r matches Some(list) ==> lists_set(list@, game_keys(state@)),
        games_named_by_uuid_texts(state@) ==> (r is Some && game_keys(state@) == game_texts(state@)),
{
    let marker = chars_of("ScoreBoard.Game");
    let mut out: Vec<String> = Vec::new();
    let n = state.entries.len();
    for i in 0..n
        invariant
            n == state.entries@.len(),
            marker@ == "ScoreBoard.Game"@,
            forall|j: int| 0 <= j < i && names_game((#[trigger] state.entries@[j]).0@) ==> canonical_id(IdKind::Uuid, segment(state.entries@[j].0@, 2)->0) is Some
                && listed(out@, canonical_id(IdKind::Uuid, segment(state.entries@[j].0@, 2)->0)->0),
            forall|a: int, b: int| 0 <= a < b < out@.len() ==> out@[a]@ != out@[b]@,
            forall|a: int| 0 <= a < out@.len() ==> game_keys(state@).contains(#[trigger] out@[a]@),
            forall|j: int| 0 <= j < i && names_game((#[trigger] state.entries@[j]).0@) && is_uuid_text(segment(state.entries@[j].0@, 2)->0)
                ==> canonical_id(IdKind::Uuid, segment(state.entries@[j].0@, 2)->0) == Some(segment(state.entries@[j].0@, 2)->0),
    {
        let key = &state.entries[i].0;
        let kc = chars_of(key.as_str());
        proof {
            lemma_members_contains(state.entries@, key@);
            assert(state@.contains_key(key@));
        }
        let ghost prev = out@;
        if contains_chars(&kc, &marker) {
            match segment_bounds(&kc, 2) {
                Some((a, b)) => {
                    let seg = substring(key.as_str(), a, b);
                    match canonical_id_text(&IdKind::Uuid, seg.as_str()) {
                        None => {
                            return None;
                        },
                        Some(t) => {
                            let ghost tv = t@;
                            if !list_has(&out, &t) {
                                out.push(t);
                                assert(out@[out@.len() - 1]@ == tv);
                            }
                            assert(listed(out@, tv));
                        },
                    }
                },
                None => {},
            }
        }
        proof {
            assert forall|j: int| 0 <= j < i + 1 && names_game((#[trigger] state.entries@[j]).0@) implies canonical_id(IdKind::Uuid, segment(state.entries@[j].0@, 2)->0) is Some
                && listed(out@, canonical_id(IdKind::Uuid, segment(state.entries@[j].0@, 2)->0)->0) by {
                if j < i {
                    let g = canonical_id(IdKind::Uuid, segment(state.entries@[j].0@, 2)->0)->0;
                    let a = choose|a: int| 0 <= a < prev.len() && #[trigger] prev[a]@ == g;
                    assert(out@[a] == prev[a]);
                }
            }
        }
    }
    proof {
        assert forall|k: Seq<char>| #[trigger] state@.contains_key(k) && names_game(k) implies canonical_id(IdKind::Uuid, segment(k, 2)->0) is Some by {
            lemma_members_contains(state.entries@, k);
            let j = choose|j: int| 0 <= j < state.entries@.len() && #[trigger] state.entries@[j].0@ == k;
            assert(names_game(state.entries@[j].0@));
        }
        assert forall|g: Seq<char>| game_keys(state@).contains(g) implies exists|a: int| 0 <= a < out@.len() && #[trigger] out@[a]@ == g by {
            let k = choose|k: Seq<char>| #[trigger] state@.contains_key(k) && names_game(k) && canonical_id(IdKind::Uuid, segment(k, 2)->0) == Some(g);
            lemma_members_contains(state.entries@, k);
            let j = choose|j: int| 0 <= j < state.entries@.len() && #[trigger] state.entries@[j].0@ == k;
            assert(names_game(state.entries@[j].0@));
            assert(listed(out@, g));
        }
        if games_named_by_uuid_texts(state@) {
            assert forall|g: Seq<char>| game_keys(state@).contains(g) <==> game_texts(state@).contains(g) by {
                if game_keys(state@).contains(g) {
                    let k = choose|k: Seq<char>| #[trigger] state@.contains_key(k) && names_game(k) && canonical_id(IdKind::Uuid, segment(k, 2)->0) == Some(g);
                    lemma_members_contains(state.entries@, k);
                    let j = choose|j: int| 0 <= j < state.entries@.len() && #[trigger] state.entries@[j].0@ == k;
                    assert(names_game(state.entries@[j].0@));
                }
                if game_texts(state@).contains(g) {
                    let k = choose|k: Seq<char>| #[trigger] state@.contains_key(k) && names_game(k) && segment(k, 2)->0 == g;
                    lemma_members_contains(state.entries@, k);
                    let j = choose|j: int| 0 <= j < state.entries@.len() && #[trigger] state.entries@[j].0@ == k;
                    assert(names_game(state.entries@[j].0@));
                    assert(canonical_id(IdKind::Uuid, g) == Some(g));
                }
            }
            assert(game_keys(state@) =~= game_texts(state@));
        }
    }
    Some(out)
}

/// The games, each under its canonical id; `None` where a key names a game
/// by no UUID, or a game cannot be read.
pub fn try_games_from_state_map(state: &JsonObject) -> (r: Option<JsonValue>)
    ensures
        r is Some <==> games_ok(state@),
        r matches Some(t) ==> t@ == games_tree(state@),
        games_named_by_uuid_texts(state@) ==> game_keys(state@) == game_texts(state@),
{
    let keys = game_keys_of(state)?;
    let games_state = strip_prefix(state, "ScoreBoard.Game.");
    let ghost m = state@;
    let ghost p = "ScoreBoard.Game."@;
    proof {
        assert forall|g: Seq<char>| #![auto] stripped(stripped(m, p), dotted(g)) == stripped(m, game_prefix(g)) by {
            lemma_strip_prefix_twice(m, p, dotted(g));
            assert(p + dotted(g) =~= game_prefix(g));
        }
    }
    let o = build_keyed(
        &games_state,
        &keys,
        try_game_from_state_map,
        Ghost(game_keys(state@)),
        Ghost(|s: Fields| game_ok(s)),
        Ghost(|s: Fields| game_tree(s)),
    );
    match o {
        Some(o) => {
            assert(o@ =~= games_tree(state@)->Object_0);
            Some(JsonValue::Object(o))
        },
        None => {
            assert(!games_ok(state@)) by {
                let g = choose|g: Seq<char>| #[trigger] game_keys(m).contains(g) && !game_ok(stripped(stripped(m, p), dotted(g)));
            }
            None
        },
    }
}

/// The reads that a game makes: those of its clocks; then, where they can be
/// taken apart, its event and the reads of its periods; then, where those
/// can be taken apart, the reads of each team in turn, as long as the teams
/// before can be taken apart; and last, where everything can, the game.
pub open spec fn game_reads(m: Fields, s: Seq<SpecRead>) -> bool {
    let c = stripped(m, "Clock."@);
    let p = stripped(m, "Period."@);
    let t1 = stripped(m, "Team.1."@);
    let t2 = stripped(m, "Team.2."@);
    exists|w: Seq<SpecRead>|
        #[trigger] clocks_reads(c, w) && if !clocks_ok(c) {
            s == w
        } else {
            let e = w.push((ReadKind::EventInfo, event_info_tree(m)));
            exists|x: Seq<SpecRead>|
                #[trigger] periods_reads(p, x) && if !periods_ok(p) {
                    s == e + x
                } else {
                    exists|y: Seq<SpecRead>|
                        #[trigger] team_reads(t1, y) && if !team_ok(t1) {
                            s == e + x + y
                        } else {
                            exists|z: Seq<SpecRead>|
                                #[trigger] team_reads(t2, z) && s == if team_ok(t2) {
                                    (e + x + y + z).push((ReadKind::Game, game_tree(m)))
                                } else {
                                    e + x + y + z
                                }
                        }
                }
        }
}

/// The reads that a game makes, in the order they are made.
pub fn game_reads_of(state: &JsonObject) -> (r: Vec<Read>)
    ensures
        game_reads(state@, reads_view(r@)),
{
    let clocks = strip_prefix(state, "Clock.");
    let mut reads = clocks_reads_of(&clocks);
    let ghost w = reads_view(reads@);
    if try_clocks_from_state_map(&clocks).is_none() {
        return reads;
    }
    push_read(&mut reads, ReadKind::EventInfo, event_info_from_state_map(state));
    let ghost e = reads_view(reads@);
    let periods = strip_prefix(state, "Period.");
    let more = periods_reads_of(&periods);
    let ghost x = reads_view(more@);
    join_reads(&mut reads, more);
    if try_periods_from_state_map(&periods).is_none() {
        return reads;
    }
    let first = strip_prefix(state, "Team.1.");
    let more = team_reads_of(&first);
    let ghost y = reads_view(more@);
    join_reads(&mut reads, more);
    if try_team_from_state_map(&first).is_none() {
        return reads;
    }
    let second = strip_prefix(state, "Team.2.");
    let more = team_reads_of(&second);
    let ghost z = reads_view(more@);
    join_reads(&mut reads, more);
    match try_game_from_state_map(state) {
        None => reads,
        Some(t) => {
            push_read(&mut reads, ReadKind::Game, t);
            reads
        },
    }
}

fn game_part(key: &String, state: &JsonObject) -> (t: (bool, Vec<Read>))
    ensures
        t.0 == game_ok(state@),
        game_reads(state@, reads_view(t.1@)),
{
    let reads = game_reads_of(state);
    (try_game_from_state_map(state).is_some(), reads)
}

/// The reads that the games make: none where a key names a game by no UUID;
/// otherwise those of each game, in some order, up to the first that cannot
/// be taken apart.
pub open spec fn games_reads(m: Fields, s: Seq<SpecRead>) -> bool {
    if !game_ids_ok(m) {
        s == Seq::<SpecRead>::empty()
    } else {
        listed_reads(
            stripped(m, "ScoreBoard.Game."@),
            game_keys(m),
            |k: Seq<char>, c: Fields, t: Seq<SpecRead>| game_reads(c, t),
            |c: Fields| game_ok(c),
            s,
        )
    }
}

/// The reads that the games of a game file make, in the order they are made.
pub fn games_reads_of(state: &JsonObject) -> (r: Vec<Read>)
    ensures
        games_reads(state@, reads_view(r@)),
{
    match game_keys_of(state) {
        None => no_reads(),
        Some(keys) => {
            let games_state = strip_prefix(state, "ScoreBoard.Game.");
            let (_, reads) = keyed_reads_of(
                &games_state,
                &keys,
                game_part,
                Ghost(|k: Seq<char>, c: Fields, t: Seq<SpecRead>| game_reads(c, t)),
                Ghost(|c: Fields| game_ok(c)),
            );
            reads
        },
    }
}

} // verus!
