//! What the entities of a game file hold, stated against the entries of the
//! state they are built from: each keeps its own entries, each part comes
//! from the entries under its own prefix, and the reads carry those values.

use vstd::prelude::*;

use crate::clocks::{clock_fields, clock_ok, clocks_ok, clocks_reads, clocks_tree};
use crate::game::{game_keys, games_tree};
use crate::ids::{id_keys, IdKind};
use crate::reads::{keyed_parts, keyed_reads, listed_reads};
use crate::state::{id_segments, keyed_ok, lists_set};
use crate::game::{game_ok, game_reads, game_tree};
use crate::game_file_state::file_reads;
use crate::jam::{
    fielding_ok, fielding_reads, fielding_tree, jam_ok, jam_reads, jam_tree, scoring_trips_ok,
    scoring_trips_reads, scoring_trips_tree, team_jam_ok, team_jam_reads, team_jam_tree,
};
use crate::json::SpecJson;
use crate::misc::event_info_tree;
use crate::period::{period_ok, period_reads, period_tree, periods_ok, periods_reads, periods_tree};
use crate::reads::{ReadKind, SpecRead};
use crate::state::{base, stripped, Fields};
use crate::team::{
    box_trip_tree, box_trips_ok, box_trips_reads, box_trips_tree, penalties_ok, penalties_reads,
    penalties_tree, skater_ok, skater_reads, skater_tree, skaters_ok, skaters_reads, skaters_tree,
    team_names_present, team_ok, team_reads, team_tree,
};
use crate::jam::{jams_ok, jams_reads, jams_tree};
use crate::timeout::{timeouts_ok, timeouts_reads, timeouts_tree};
use crate::version::version_tree;

verus! {

// ---------------------------------------------------------------------------
// Entries without a '.'
// ---------------------------------------------------------------------------

/// The entries of a leaf entity (a penalty, a timeout, a scoring trip, the
/// skater at a fielding position) are exactly its entries without a '.'.
pub proof fn lemma_leaf_holds_its_undotted_entries(m: Fields, k: Seq<char>)
    ensures
        base(m).contains_key(k) <==> (m.contains_key(k) && !k.contains('.')),
        base(m).contains_key(k) ==> base(m)[k] == m[k],
{
}

/// A game keeps each of its entries without a '.' under the same key, and
/// holds nothing else but the members it builds.
pub proof fn lemma_game_keeps_its_own_entries(m: Fields, k: Seq<char>)
    ensures
        m.contains_key(k) && !k.contains('.') && k != "Clocks"@ && k != "EventInfo"@ && k != "Labels"@ && k
            != "PenaltyCodes"@ && k != "Periods"@ && k != "Rules"@ && k != "Teams"@ ==> game_tree(m)->Object_0.contains_key(k)
            && game_tree(m)->Object_0[k] == m[k],
        game_tree(m)->Object_0.contains_key(k) ==> (m.contains_key(k) && !k.contains('.')) || k == "Clocks"@ || k
            == "EventInfo"@ || k == "Labels"@ || k == "PenaltyCodes"@ || k == "Periods"@ || k == "Rules"@ || k == "Teams"@,
{
}

/// A period keeps each of its entries without a '.' under the same key, and
/// holds nothing else but its jams and timeouts.
pub proof fn lemma_period_keeps_its_own_entries(m: Fields, k: Seq<char>)
    ensures
        m.contains_key(k) && !k.contains('.') && k != "Jams"@ && k != "Timeouts"@ ==> period_tree(m)->Object_0.contains_key(k)
            && period_tree(m)->Object_0[k] == m[k],
        period_tree(m)->Object_0.contains_key(k) ==> (m.contains_key(k) && !k.contains('.')) || k == "Jams"@ || k
            == "Timeouts"@,
{
}

/// A jam keeps each of its entries without a '.' under the same key, and
/// holds nothing else but its penalties and its team jams.
pub proof fn lemma_jam_keeps_its_own_entries(m: Fields, k: Seq<char>)
    ensures
        m.contains_key(k) && !k.contains('.') && k != "Penalty"@ && k != "TeamJam"@ ==> jam_tree(m)->Object_0.contains_key(k)
            && jam_tree(m)->Object_0[k] == m[k],
        jam_tree(m)->Object_0.contains_key(k) ==> (m.contains_key(k) && !k.contains('.')) || k == "Penalty"@ || k
            == "TeamJam"@,
{
}

/// The jam of one team keeps each of its entries without a '.' under the
/// same key, and holds nothing else but its fielding and scoring trips.
pub proof fn lemma_team_jam_keeps_its_own_entries(m: Fields, k: Seq<char>)
    ensures
        m.contains_key(k) && !k.contains('.') && k != "Fielding"@ && k != "ScoringTrips"@ ==> team_jam_tree(
            m,
        )->Object_0.contains_key(k) && team_jam_tree(m)->Object_0[k] == m[k],
        team_jam_tree(m)->Object_0.contains_key(k) ==> (m.contains_key(k) && !k.contains('.')) || k == "Fielding"@
            || k == "ScoringTrips"@,
{
}

/// A team keeps each of its entries without a '.' under the same key, and
/// holds nothing else but its colour, alternate names, box trips, timeouts
/// and skaters.
pub proof fn lemma_team_keeps_its_own_entries(m: Fields, k: Seq<char>)
    ensures
        m.contains_key(k) && !k.contains('.') && k != "AlternateName"@ && k != "BoxTrips"@ && k != "TimeOut"@ && k
            != "Skaters"@ ==> team_tree(m)->Object_0.contains_key(k) && team_tree(m)->Object_0[k] == m[k],
        team_tree(m)->Object_0.contains_key(k) ==> (m.contains_key(k) && !k.contains('.')) || k == "Color.overlay.bg"@
            || k == "AlternateName"@ || k == "BoxTrips"@ || k == "TimeOut"@ || k == "Skaters"@,
{
}

/// A skater keeps each of its entries without a '.' under the same key, and
/// holds nothing else but its fieldings and penalties.
pub proof fn lemma_skater_keeps_its_own_entries(m: Fields, k: Seq<char>)
    ensures
        m.contains_key(k) && !k.contains('.') && k != "Fielding"@ && k != "Penalties"@ ==> skater_tree(m)->Object_0.contains_key(k)
            && skater_tree(m)->Object_0[k] == m[k],
        skater_tree(m)->Object_0.contains_key(k) ==> (m.contains_key(k) && !k.contains('.')) || k == "Fielding"@ || k
            == "Penalties"@,
{
}

/// A box trip keeps each of its entries without a '.' under the same key,
/// and holds nothing else but its fieldings and penalties.
pub proof fn lemma_box_trip_keeps_its_own_entries(m: Fields, k: Seq<char>)
    ensures
        m.contains_key(k) && !k.contains('.') && k != "Fielding"@ && k != "Penalties"@ ==> box_trip_tree(m)->Object_0.contains_key(k)
            && box_trip_tree(m)->Object_0[k] == m[k],
        box_trip_tree(m)->Object_0.contains_key(k) ==> (m.contains_key(k) && !k.contains('.')) || k == "Fielding"@ || k
            == "Penalties"@,
{
}

// ---------------------------------------------------------------------------
// Parts from their prefixes
// ---------------------------------------------------------------------------

/// The entries under a prefix are the entries whose key is the prefix
/// followed by their own key.
pub proof fn lemma_stripped_entries(m: Fields, p: Seq<char>, k: Seq<char>)
    ensures
        stripped(m, p).contains_key(k) <==> m.contains_key(p + k),
        stripped(m, p).contains_key(k) ==> stripped(m, p)[k] == m[p + k],
{
}

/// The release is made of the entries under `ScoreBoard.Version.`: it holds
/// `k` exactly where the state holds `ScoreBoard.Version.k`, with its value.
pub proof fn lemma_release_entries(m: Fields, k: Seq<char>)
    ensures
        version_tree(m) is Object,
        version_tree(m)->Object_0.contains_key(k) <==> m.contains_key("ScoreBoard.Version."@ + k),
        version_tree(m)->Object_0.contains_key(k) ==> version_tree(m)->Object_0[k] == m["ScoreBoard.Version."@ + k],
{
}

/// A game's event is made of the entries under `EventInfo.`.
pub proof fn lemma_event_entries(m: Fields, k: Seq<char>)
    ensures
        event_info_tree(m) is Object,
        event_info_tree(m)->Object_0.contains_key(k) <==> m.contains_key("EventInfo."@ + k),
        event_info_tree(m)->Object_0.contains_key(k) ==> event_info_tree(m)->Object_0[k] == m["EventInfo."@ + k],
{
}

proof fn lemma_game_member_names()
    ensures
        "Clocks"@ != "EventInfo"@,
        "Clocks"@ != "Labels"@,
        "Clocks"@ != "PenaltyCodes"@,
        "Clocks"@ != "Periods"@,
        "Clocks"@ != "Rules"@,
        "Clocks"@ != "Teams"@,
        "EventInfo"@ != "Labels"@,
        "EventInfo"@ != "PenaltyCodes"@,
        "EventInfo"@ != "Periods"@,
        "EventInfo"@ != "Rules"@,
        "EventInfo"@ != "Teams"@,
        "Labels"@ != "PenaltyCodes"@,
        "Labels"@ != "Periods"@,
        "Labels"@ != "Rules"@,
        "Labels"@ != "Teams"@,
        "PenaltyCodes"@ != "Periods"@,
        "PenaltyCodes"@ != "Rules"@,
        "PenaltyCodes"@ != "Teams"@,
        "Periods"@ != "Rules"@,
        "Periods"@ != "Teams"@,
        "Rules"@ != "Teams"@,
{
    reveal_strlit("Clocks");
    reveal_strlit("EventInfo");
    reveal_strlit("Labels");
    reveal_strlit("PenaltyCodes");
    reveal_strlit("Periods");
    reveal_strlit("Rules");
    reveal_strlit("Teams");
    assert("Clocks"@.len() == 6 && "EventInfo"@.len() == 9 && "Labels"@.len() == 6);
    assert("PenaltyCodes"@.len() == 12 && "Periods"@.len() == 7 && "Rules"@.len() == 5 && "Teams"@.len() == 5);
    assert("Clocks"@[0] == 'C' && "Labels"@[0] == 'L' && "Rules"@[0] == 'R' && "Teams"@[0] == 'T');
}

/// A game's clocks, event, periods and two teams are built from the entries
/// under `Clock.`, `EventInfo.`, `Period.`, `Team.1.` and `Team.2.`, its
/// labels, penalty codes and rules are empty, and it can be taken apart
/// exactly when its clocks, periods and both teams can.
pub proof fn lemma_game_parts(m: Fields)
    ensures
        game_tree(m)->Object_0["Clocks"@] == clocks_tree(stripped(m, "Clock."@)),
        game_tree(m)->Object_0["EventInfo"@] == SpecJson::Object(stripped(m, "EventInfo."@)),
        game_tree(m)->Object_0["Labels"@] == SpecJson::Object(Map::empty()),
        game_tree(m)->Object_0["PenaltyCodes"@] == SpecJson::Object(Map::empty()),
        game_tree(m)->Object_0["Periods"@] == periods_tree(stripped(m, "Period."@)),
        game_tree(m)->Object_0["Rules"@] == SpecJson::Object(Map::empty()),
        game_tree(m)->Object_0["Teams"@] == SpecJson::Array(
            seq![team_tree(stripped(m, "Team.1."@)), team_tree(stripped(m, "Team.2."@))],
        ),
        game_ok(m) <==> clocks_ok(stripped(m, "Clock."@)) && periods_ok(stripped(m, "Period."@)) && team_ok(
            stripped(m, "Team.1."@),
        ) && team_ok(stripped(m, "Team.2."@)),
{
    lemma_game_member_names();
}

proof fn lemma_team_member_names()
    ensures
        "Color.overlay.bg"@ != "AlternateName"@,
        "Color.overlay.bg"@ != "BoxTrips"@,
        "Color.overlay.bg"@ != "TimeOut"@,
        "Color.overlay.bg"@ != "Skaters"@,
        "AlternateName"@ != "BoxTrips"@,
        "AlternateName"@ != "TimeOut"@,
        "AlternateName"@ != "Skaters"@,
        "BoxTrips"@ != "TimeOut"@,
        "BoxTrips"@ != "Skaters"@,
        "TimeOut"@ != "Skaters"@,
        "overlay"@ != "scoreboard"@,
{
    reveal_strlit("Color.overlay.bg");
    reveal_strlit("AlternateName");
    reveal_strlit("BoxTrips");
    reveal_strlit("TimeOut");
    reveal_strlit("Skaters");
    reveal_strlit("overlay");
    reveal_strlit("scoreboard");
    assert("Color.overlay.bg"@.len() == 16 && "AlternateName"@.len() == 13 && "BoxTrips"@.len() == 8);
    assert("TimeOut"@.len() == 7 && "Skaters"@.len() == 7 && "overlay"@.len() == 7 && "scoreboard"@.len() == 10);
    assert("TimeOut"@[0] == 'T' && "Skaters"@[0] == 'S');
}

/// A team's colour and alternate names are its entries `Color.overlay.bg`,
/// `AlternateName.overlay` and `AlternateName.scoreboard`; its box trips,
/// timeouts and skaters are built from the entries under `BoxTrip.`,
/// `TimeOut.` and `Skater.`; and it can be taken apart exactly when it holds
/// its colour and both names and its box trips and skaters can be.
pub proof fn lemma_team_parts(m: Fields)
    ensures
        team_tree(m)->Object_0["Color.overlay.bg"@] == m["Color.overlay.bg"@],
        team_tree(m)->Object_0["AlternateName"@]->Object_0["overlay"@] == m["AlternateName.overlay"@],
        team_tree(m)->Object_0["AlternateName"@]->Object_0["scoreboard"@] == m["AlternateName.scoreboard"@],
        team_tree(m)->Object_0["BoxTrips"@] == box_trips_tree(stripped(m, "BoxTrip."@)),
        team_tree(m)->Object_0["TimeOut"@] == SpecJson::Object(stripped(m, "TimeOut."@)),
        team_tree(m)->Object_0["Skaters"@] == skaters_tree(stripped(m, "Skater."@)),
        team_ok(m) <==> m.contains_key("Color.overlay.bg"@) && m.contains_key("AlternateName.overlay"@)
            && m.contains_key("AlternateName.scoreboard"@) && box_trips_ok(stripped(m, "BoxTrip."@)) && skaters_ok(
            stripped(m, "Skater."@),
        ),
{
    lemma_team_member_names();
}

/// A skater's fieldings are its entries under `Fielding.` without a further
/// '.', and its penalties are built from the entries under `Penalty.`.
pub proof fn lemma_skater_parts(m: Fields)
    ensures
        skater_tree(m)->Object_0["Fielding"@] == SpecJson::Object(base(stripped(m, "Fielding."@))),
        skater_tree(m)->Object_0["Penalties"@] == penalties_tree(stripped(m, "Penalty."@)),
        skater_ok(m) <==> penalties_ok(stripped(m, "Penalty."@)),
{
    reveal_strlit("Fielding");
    reveal_strlit("Penalties");
    assert("Fielding"@.len() == 8 && "Penalties"@.len() == 9);
}

/// A box trip's fieldings and penalties are its entries under `Fielding.`
/// and `Penalty.`.
pub proof fn lemma_box_trip_parts(m: Fields)
    ensures
        box_trip_tree(m)->Object_0["Fielding"@] == SpecJson::Object(stripped(m, "Fielding."@)),
        box_trip_tree(m)->Object_0["Penalties"@] == SpecJson::Object(stripped(m, "Penalty."@)),
{
    reveal_strlit("Fielding");
    reveal_strlit("Penalties");
    assert("Fielding"@.len() == 8 && "Penalties"@.len() == 9);
}

/// A period's jams and timeouts are built from the entries under `Jam.` and
/// `TimeOut.`, and it can be taken apart exactly when both can.
pub proof fn lemma_period_parts(m: Fields)
    ensures
        period_tree(m)->Object_0["Jams"@] == jams_tree(stripped(m, "Jam."@)),
        period_tree(m)->Object_0["Timeouts"@] == timeouts_tree(stripped(m, "TimeOut."@)),
        period_ok(m) <==> jams_ok(stripped(m, "Jam."@)) && timeouts_ok(stripped(m, "TimeOut."@)),
{
    reveal_strlit("Jams");
    reveal_strlit("Timeouts");
    assert("Jams"@.len() == 4 && "Timeouts"@.len() == 8);
}

/// A jam's penalties are its entries under `Penalty.`, and its team jams,
/// in order, are built from the entries under `TeamJam.1.` and `TeamJam.2.`;
/// it can be taken apart exactly when both team jams can.
pub proof fn lemma_jam_parts(m: Fields)
    ensures
        jam_tree(m)->Object_0["Penalty"@] == SpecJson::Object(stripped(m, "Penalty."@)),
        jam_tree(m)->Object_0["TeamJam"@] == SpecJson::Array(
            seq![team_jam_tree(stripped(m, "TeamJam.1."@)), team_jam_tree(stripped(m, "TeamJam.2."@))],
        ),
        jam_ok(m) <==> team_jam_ok(stripped(m, "TeamJam.1."@)) && team_jam_ok(stripped(m, "TeamJam.2."@)),
{
    reveal_strlit("Penalty");
    reveal_strlit("TeamJam");
    assert("Penalty"@.len() == 7 && "TeamJam"@.len() == 7 && "Penalty"@[0] == 'P' && "TeamJam"@[0] == 'T');
}

/// The jam of one team holds its fielding and its scoring trips, built from
/// the entries under `Fielding.` and `ScoringTrip.`.
pub proof fn lemma_team_jam_parts(m: Fields)
    ensures
        team_jam_tree(m)->Object_0["Fielding"@] == fielding_tree(stripped(m, "Fielding."@)),
        team_jam_tree(m)->Object_0["ScoringTrips"@] == scoring_trips_tree(stripped(m, "ScoringTrip."@)),
        team_jam_ok(m) <==> fielding_ok(stripped(m, "Fielding."@)) && scoring_trips_ok(stripped(m, "ScoringTrip."@)),
{
    reveal_strlit("Fielding");
    reveal_strlit("ScoringTrips");
    assert("Fielding"@.len() == 8 && "ScoringTrips"@.len() == 12);
}

// ---------------------------------------------------------------------------
// Reads
// ---------------------------------------------------------------------------

/// A game file is read release first: its first read is a `Version` read of
/// the entries under `ScoreBoard.Version.`, the same value as the release
/// it returns.
pub proof fn lemma_file_reads_release_first(st: Fields, s: Seq<SpecRead>)
    requires
        file_reads(st, s),
    ensures
        s.len() > 0,
        s[0] == (ReadKind::Version, SpecJson::Object(stripped(st, "ScoreBoard.Version."@))),
        s[0].1 == version_tree(st),
{
}

/// A game that can be taken apart is read last, as the game it builds.
pub proof fn lemma_game_read_last(m: Fields, s: Seq<SpecRead>)
    requires
        game_reads(m, s),
        game_ok(m),
    ensures
        s.len() > 0,
        s.last() == (ReadKind::Game, game_tree(m)),
{
    let c = stripped(m, "Clock."@);
    let p = stripped(m, "Period."@);
    let t1 = stripped(m, "Team.1."@);
    let t2 = stripped(m, "Team.2."@);
    let w = choose|w: Seq<SpecRead>| #[trigger] clocks_reads(c, w) && if !clocks_ok(c) {
        s == w
    } else {
        let e = w.push((ReadKind::EventInfo, event_info_tree(m)));
        exists|x: Seq<SpecRead>|
            #[trigger] periods_reads(p, x) && if !periods_ok(p) {
                s == e + x
            } else {
                exists|y: Seq<SpecRead>|
                    #[trigger] team_reads(t1, y) && if !team_ok(t1) {
                        s == e + x + y
                    } else {
                        exists|z: Seq<SpecRead>|
                            #[trigger] team_reads(t2, z) && s == if team_ok(t2) {
                                (e + x + y + z).push((ReadKind::Game, game_tree(m)))
                            } else {
                                e + x + y + z
                            }
                    }
            }
    };
    let e = w.push((ReadKind::EventInfo, event_info_tree(m)));
    let x = choose|x: Seq<SpecRead>| #[trigger] periods_reads(p, x) && if !periods_ok(p) {
        s == e + x
    } else {
        exists|y: Seq<SpecRead>|
            #[trigger] team_reads(t1, y) && if !team_ok(t1) {
                s == e + x + y
            } else {
                exists|z: Seq<SpecRead>|
                    #[trigger] team_reads(t2, z) && s == if team_ok(t2) {
                        (e + x + y + z).push((ReadKind::Game, game_tree(m)))
                    } else {
                        e + x + y + z
                    }
            }
    };
    let y = choose|y: Seq<SpecRead>| #[trigger] team_reads(t1, y) && if !team_ok(t1) {
        s == e + x + y
    } else {
        exists|z: Seq<SpecRead>|
            #[trigger] team_reads(t2, z) && s == if team_ok(t2) {
                (e + x + y + z).push((ReadKind::Game, game_tree(m)))
            } else {
                e + x + y + z
            }
    };
    let z = choose|z: Seq<SpecRead>| #[trigger] team_reads(t2, z) && s == if team_ok(t2) {
        (e + x + y + z).push((ReadKind::Game, game_tree(m)))
    } else {
        e + x + y + z
    };
}

/// A team that can be taken apart is read last, as the team it builds; one
/// without its colour or an alternate name makes no read at all.
pub proof fn lemma_team_read_last(m: Fields, s: Seq<SpecRead>)
    requires
        team_reads(m, s),
    ensures
        team_ok(m) ==> s.len() > 0 && s.last() == (ReadKind::Team, team_tree(m)),
        !team_names_present(m) ==> s.len() == 0,
{
    if team_ok(m) {
        let b = stripped(m, "BoxTrip."@);
        let k = stripped(m, "Skater."@);
        let x = choose|x: Seq<SpecRead>| #[trigger] box_trips_reads(b, x) && if !box_trips_ok(b) {
            s == x
        } else {
            exists|y: Seq<SpecRead>|
                #[trigger] skaters_reads(k, y) && s == if skaters_ok(k) {
                    (x + y).push((ReadKind::Team, team_tree(m)))
                } else {
                    x + y
                }
        };
        let y = choose|y: Seq<SpecRead>| #[trigger] skaters_reads(k, y) && s == if skaters_ok(k) {
            (x + y).push((ReadKind::Team, team_tree(m)))
        } else {
            x + y
        };
    }
}

/// A skater whose penalties can be taken apart is read last, as the skater
/// it builds.
pub proof fn lemma_skater_read_last(m: Fields, s: Seq<SpecRead>)
    requires
        skater_reads(m, s),
        skater_ok(m),
    ensures
        s.len() > 0,
        s.last() == (ReadKind::Skater, skater_tree(m)),
{
    let a = choose|a: Seq<SpecRead>| #[trigger] penalties_reads(stripped(m, "Penalty."@), a) && s == if penalties_ok(
        stripped(m, "Penalty."@),
    ) {
        a.push((ReadKind::Skater, skater_tree(m)))
    } else {
        a
    };
}

/// A period that can be taken apart is read last, as the period it builds.
pub proof fn lemma_period_read_last(m: Fields, s: Seq<SpecRead>)
    requires
        period_reads(m, s),
        period_ok(m),
    ensures
        s.len() > 0,
        s.last() == (ReadKind::Period, period_tree(m)),
{
    let j = stripped(m, "Jam."@);
    let t = stripped(m, "TimeOut."@);
    let x = choose|x: Seq<SpecRead>| #[trigger] jams_reads(j, x) && if !jams_ok(j) {
        s == x
    } else {
        exists|y: Seq<SpecRead>|
            #[trigger] timeouts_reads(t, y) && s == if timeouts_ok(t) {
                (x + y).push((ReadKind::Period, period_tree(m)))
            } else {
                x + y
            }
    };
    let y = choose|y: Seq<SpecRead>| #[trigger] timeouts_reads(t, y) && s == if timeouts_ok(t) {
        (x + y).push((ReadKind::Period, period_tree(m)))
    } else {
        x + y
    };
}

/// A jam that can be taken apart is read last, as the jam it builds.
pub proof fn lemma_jam_read_last(m: Fields, s: Seq<SpecRead>)
    requires
        jam_reads(m, s),
        jam_ok(m),
    ensures
        s.len() > 0,
        s.last() == (ReadKind::Jam, jam_tree(m)),
{
    let one = stripped(m, "TeamJam.1."@);
    let two = stripped(m, "TeamJam.2."@);
    let x = choose|x: Seq<SpecRead>| #[trigger] team_jam_reads(one, x) && if !team_jam_ok(one) {
        s == x
    } else {
        exists|y: Seq<SpecRead>|
            #[trigger] team_jam_reads(two, y) && s == if team_jam_ok(two) {
                (x + y).push((ReadKind::Jam, jam_tree(m)))
            } else {
                x + y
            }
    };
    let y = choose|y: Seq<SpecRead>| #[trigger] team_jam_reads(two, y) && s == if team_jam_ok(two) {
        (x + y).push((ReadKind::Jam, jam_tree(m)))
    } else {
        x + y
    };
}

/// The jam of one team that can be taken apart is read last, as the team
/// jam it builds.
pub proof fn lemma_team_jam_read_last(m: Fields, s: Seq<SpecRead>)
    requires
        team_jam_reads(m, s),
        team_jam_ok(m),
    ensures
        s.len() > 0,
        s.last() == (ReadKind::TeamJam, team_jam_tree(m)),
{
    let f = stripped(m, "Fielding."@);
    let t = stripped(m, "ScoringTrip."@);
    let x = choose|x: Seq<SpecRead>| #[trigger] fielding_reads(f, x) && if !fielding_ok(f) {
        s == x
    } else {
        exists|y: Seq<SpecRead>|
            #[trigger] scoring_trips_reads(t, y) && s == if scoring_trips_ok(t) {
                (x + y).push((ReadKind::TeamJam, team_jam_tree(m)))
            } else {
                x + y
            }
    };
    let y = choose|y: Seq<SpecRead>| #[trigger] scoring_trips_reads(t, y) && s == if scoring_trips_ok(t) {
        (x + y).push((ReadKind::TeamJam, team_jam_tree(m)))
    } else {
        x + y
    };
}

// ---------------------------------------------------------------------------
// Entities filed under their keys
// ---------------------------------------------------------------------------

/// The timeouts are filed under the canonical texts of their UUIDs, each
/// holding the entries under its key and a '.' that have no further '.'.
pub proof fn lemma_timeouts_filed(m: Fields, k: Seq<char>)
    ensures
        timeouts_tree(m)->Object_0.contains_key(k) <==> id_keys(m, IdKind::Uuid).contains(k),
        timeouts_tree(m)->Object_0.contains_key(k) ==> timeouts_tree(m)->Object_0[k] == SpecJson::Object(
            base(stripped(m, k + seq!['.'])),
        ),
{
    assert(crate::state::dotted(k) =~= k + seq!['.']);
}

/// The penalties are filed under the decimal texts of their numbers, each
/// holding the entries under its key and a '.' that have no further '.'.
pub proof fn lemma_penalties_filed(m: Fields, k: Seq<char>)
    ensures
        penalties_tree(m)->Object_0.contains_key(k) <==> id_keys(m, IdKind::Byte).contains(k),
        penalties_tree(m)->Object_0.contains_key(k) ==> penalties_tree(m)->Object_0[k] == SpecJson::Object(
            base(stripped(m, k + seq!['.'])),
        ),
{
    assert(crate::state::dotted(k) =~= k + seq!['.']);
}

/// The scoring trips are filed under the decimal texts of their numbers,
/// each holding the entries under its key and a '.' that have no further '.'.
pub proof fn lemma_scoring_trips_filed(m: Fields, k: Seq<char>)
    ensures
        scoring_trips_tree(m)->Object_0.contains_key(k) <==> id_keys(m, IdKind::Short).contains(k),
        scoring_trips_tree(m)->Object_0.contains_key(k) ==> scoring_trips_tree(m)->Object_0[k] == SpecJson::Object(
            base(stripped(m, k + seq!['.'])),
        ),
{
    assert(crate::state::dotted(k) =~= k + seq!['.']);
}

/// The fielding holds each position named before a '.', with the entries
/// under that name and a '.' that have no further '.'.
pub proof fn lemma_fielding_filed(m: Fields, k: Seq<char>)
    ensures
        fielding_tree(m)->Object_0.contains_key(k) <==> id_segments(m).contains(k),
        fielding_tree(m)->Object_0.contains_key(k) ==> fielding_tree(m)->Object_0[k] == SpecJson::Object(
            base(stripped(m, k + seq!['.'])),
        ),
{
    assert(crate::state::dotted(k) =~= k + seq!['.']);
}

/// The box trips, skaters, jams and periods are filed under the canonical
/// texts of their ids, each built from the entries under its key and a '.'.
pub proof fn lemma_keyed_entities_filed(m: Fields, k: Seq<char>)
    ensures
        box_trips_tree(m)->Object_0.contains_key(k) <==> id_keys(m, IdKind::Uuid).contains(k),
        box_trips_tree(m)->Object_0.contains_key(k) ==> box_trips_tree(m)->Object_0[k] == box_trip_tree(
            stripped(m, k + seq!['.']),
        ),
        skaters_tree(m)->Object_0.contains_key(k) <==> id_keys(m, IdKind::Uuid).contains(k),
        skaters_tree(m)->Object_0.contains_key(k) ==> skaters_tree(m)->Object_0[k] == skater_tree(
            stripped(m, k + seq!['.']),
        ),
        jams_tree(m)->Object_0.contains_key(k) <==> id_keys(m, IdKind::Short).contains(k),
        jams_tree(m)->Object_0.contains_key(k) ==> jams_tree(m)->Object_0[k] == jam_tree(stripped(m, k + seq!['.'])),
        periods_tree(m)->Object_0.contains_key(k) <==> id_keys(m, IdKind::Byte).contains(k),
        periods_tree(m)->Object_0.contains_key(k) ==> periods_tree(m)->Object_0[k] == period_tree(
            stripped(m, k + seq!['.']),
        ),
{
    assert(crate::state::dotted(k) =~= k + seq!['.']);
}

/// The clocks are filed under the kind that starts their keys, each holding
/// the entries under its kind and a '.', its "Id" split where it must be.
pub proof fn lemma_clocks_filed(m: Fields, k: Seq<char>)
    ensures
        clocks_tree(m)->Object_0.contains_key(k) <==> id_segments(m).contains(k),
        clocks_tree(m)->Object_0.contains_key(k) ==> clocks_tree(m)->Object_0[k] == SpecJson::Object(
            clock_fields(stripped(m, k + seq!['.'])),
        ),
{
    assert(crate::state::dotted(k) =~= k + seq!['.']);
}

/// The games are filed under the canonical texts of the UUIDs that name
/// them, each built from the entries under `ScoreBoard.Game.`, its id and a
/// '.'.
pub proof fn lemma_games_filed(m: Fields, g: Seq<char>)
    ensures
        games_tree(m)->Object_0.contains_key(g) <==> game_keys(m).contains(g),
        games_tree(m)->Object_0.contains_key(g) ==> games_tree(m)->Object_0[g] == game_tree(
            stripped(m, "ScoreBoard.Game."@ + g + seq!['.']),
        ),
{
    assert(crate::game::game_prefix(g) == "ScoreBoard.Game."@ + g + seq!['.']);
}

// ---------------------------------------------------------------------------
// Reads of entities filed under keys
// ---------------------------------------------------------------------------

/// Joining parts that all have `n` items: the `j`-th item of the `i`-th part
/// stands at `i * n + j`.
pub proof fn lemma_flatten_even<A>(parts: Seq<Seq<A>>, n: int)
    requires
        n >= 0,
        forall|i: int| 0 <= i < parts.len() ==> (#[trigger] parts[i]).len() == n,
    ensures
        parts.flatten().len() == parts.len() * n,
        forall|i: int, j: int| 0 <= i < parts.len() && 0 <= j < n ==> parts.flatten()[i * n + j] == #[trigger] parts[i][j],
    decreases parts.len(),
{
    if parts.len() > 0 {
        let rest = parts.drop_first();
        assert forall|i: int| 0 <= i < rest.len() implies (#[trigger] rest[i]).len() == n by {
            assert(rest[i] == parts[i + 1]);
        }
        lemma_flatten_even(rest, n);
        assert(parts.flatten() == parts[0] + rest.flatten());
        assert(parts.len() * n == n + rest.len() * n) by (nonlinear_arith)
            requires
                rest.len() == parts.len() - 1,
        ;
        assert forall|i: int, j: int| 0 <= i < parts.len() && 0 <= j < n implies parts.flatten()[i * n + j]
            == #[trigger] parts[i][j] by {
            if i > 0 {
                let q = (i - 1) * n + j;
                let rl = rest.len() as int;
                assert(i * n + j == n + q) by (nonlinear_arith)
                    requires
                        q == (i - 1) * n + j,
                ;
                assert(0 <= q < rl * n) by (nonlinear_arith)
                    requires
                        1 <= i <= rl,
                        n >= 0,
                        0 <= j < n,
                        q == (i - 1) * n + j,
                ;
                assert(rest[i - 1] == parts[i]);
                assert(rest.flatten()[q] == rest[i - 1][j]);
                assert(parts.flatten()[n + q] == rest.flatten()[q]);
            } else {
                assert(i * n + j == j) by (nonlinear_arith)
                    requires
                        i == 0,
                ;
            }
        }
    }
}

/// Where every entity makes exactly the one read that `f` gives for its key
/// and entries, the reads are those, one per key, in the order of the keys.
pub proof fn lemma_single_reads(
    m: Fields,
    l: Seq<String>,
    f: spec_fn(Seq<char>, Fields) -> SpecRead,
    s: Seq<SpecRead>,
)
    requires
        keyed_reads(
            m,
            l,
            |k: Seq<char>, c: Fields, t: Seq<SpecRead>| t == seq![f(k, c)],
            |c: Fields| true,
            s,
        ),
    ensures
        s.len() == l.len(),
        forall|i: int| 0 <= i < l.len() ==> s[i] == f(l[i]@, stripped(m, l[i]@ + seq!['.'])),
{
    let rel = |k: Seq<char>, c: Fields, t: Seq<SpecRead>| t == seq![f(k, c)];
    let ok = |c: Fields| true;
    let parts = choose|parts: Seq<Seq<SpecRead>>| #[trigger] keyed_parts(m, l, rel, ok, parts) && s == parts.flatten();
    assert forall|i: int| 0 <= i < parts.len() implies (#[trigger] parts[i]).len() == 1 by {
        assert(rel(l[i]@, stripped(m, crate::state::dotted(l[i]@)), parts[i]));
    }
    lemma_flatten_even(parts, 1);
    assert forall|i: int| 0 <= i < l.len() implies s[i] == f(l[i]@, stripped(m, l[i]@ + seq!['.'])) by {
        assert(rel(l[i]@, stripped(m, crate::state::dotted(l[i]@)), parts[i]));
        assert(crate::state::dotted(l[i]@) =~= l[i]@ + seq!['.']);
        assert(i * 1 + 0 == i);
        assert(parts[i][0] == f(l[i]@, stripped(m, crate::state::dotted(l[i]@))));
    }
}

/// The timeouts that can be taken apart make one `Timeout` read each, of
/// the entries under its key and a '.' without a further '.', in the order
/// of some listing of their keys.
pub proof fn lemma_timeouts_read_each(m: Fields, s: Seq<SpecRead>)
    requires
        timeouts_reads(m, s),
        timeouts_ok(m),
    ensures
        exists|l: Seq<String>|
            lists_set(l, id_keys(m, IdKind::Uuid)) && s.len() == l.len() && forall|i: int|
                0 <= i < l.len() ==> #[trigger] s[i] == (
                    ReadKind::Timeout,
                    SpecJson::Object(base(stripped(m, l[i]@ + seq!['.']))),
                ),
{
    let f = |k: Seq<char>, c: Fields| (ReadKind::Timeout, SpecJson::Object(base(c)));
    let rel = |k: Seq<char>, c: Fields, t: Seq<SpecRead>| t == seq![(ReadKind::Timeout, crate::state::base_tree(c))];
    let ok = |c: Fields| true;
    let l = choose|l: Seq<String>| lists_set(l, id_keys(m, IdKind::Uuid)) && #[trigger] keyed_reads(m, l, rel, ok, s);
    assert(rel == (|k: Seq<char>, c: Fields, t: Seq<SpecRead>| t == seq![f(k, c)]));
    lemma_single_reads(m, l, f, s);
}

/// The penalties that can be taken apart make one `Penalty` read each, of
/// the entries under its key and a '.' without a further '.'.
pub proof fn lemma_penalties_read_each(m: Fields, s: Seq<SpecRead>)
    requires
        penalties_reads(m, s),
        penalties_ok(m),
    ensures
        exists|l: Seq<String>|
            lists_set(l, id_keys(m, IdKind::Byte)) && s.len() == l.len() && forall|i: int|
                0 <= i < l.len() ==> #[trigger] s[i] == (
                    ReadKind::Penalty,
                    SpecJson::Object(base(stripped(m, l[i]@ + seq!['.']))),
                ),
{
    let f = |k: Seq<char>, c: Fields| (ReadKind::Penalty, SpecJson::Object(base(c)));
    let rel = |k: Seq<char>, c: Fields, t: Seq<SpecRead>| t == seq![(ReadKind::Penalty, crate::state::base_tree(c))];
    let ok = |c: Fields| true;
    let l = choose|l: Seq<String>| lists_set(l, id_keys(m, IdKind::Byte)) && #[trigger] keyed_reads(m, l, rel, ok, s);
    assert(rel == (|k: Seq<char>, c: Fields, t: Seq<SpecRead>| t == seq![f(k, c)]));
    lemma_single_reads(m, l, f, s);
}

/// The scoring trips that can be taken apart make one `ScoringTrip` read
/// each, of the entries under its key and a '.' without a further '.'.
pub proof fn lemma_scoring_trips_read_each(m: Fields, s: Seq<SpecRead>)
    requires
        scoring_trips_reads(m, s),
        scoring_trips_ok(m),
    ensures
        exists|l: Seq<String>|
            lists_set(l, id_keys(m, IdKind::Short)) && s.len() == l.len() && forall|i: int|
                0 <= i < l.len() ==> #[trigger] s[i] == (
                    ReadKind::ScoringTrip,
                    SpecJson::Object(base(stripped(m, l[i]@ + seq!['.']))),
                ),
{
    let f = |k: Seq<char>, c: Fields| (ReadKind::ScoringTrip, SpecJson::Object(base(c)));
    let rel = |k: Seq<char>, c: Fields, t: Seq<SpecRead>| t == seq![(ReadKind::ScoringTrip, crate::state::base_tree(c))];
    let ok = |c: Fields| true;
    let l = choose|l: Seq<String>| lists_set(l, id_keys(m, IdKind::Short)) && #[trigger] keyed_reads(m, l, rel, ok, s);
    assert(rel == (|k: Seq<char>, c: Fields, t: Seq<SpecRead>| t == seq![f(k, c)]));
    lemma_single_reads(m, l, f, s);
}

/// The box trips that can be taken apart make one `BoxTrip` read each, of
/// the box trip built from the entries under its key and a '.'.
pub proof fn lemma_box_trips_read_each(m: Fields, s: Seq<SpecRead>)
    requires
        box_trips_reads(m, s),
        box_trips_ok(m),
    ensures
        exists|l: Seq<String>|
            lists_set(l, id_keys(m, IdKind::Uuid)) && s.len() == l.len() && forall|i: int|
                0 <= i < l.len() ==> #[trigger] s[i] == (
                    ReadKind::BoxTrip,
                    box_trip_tree(stripped(m, l[i]@ + seq!['.'])),
                ),
{
    let f = |k: Seq<char>, c: Fields| (ReadKind::BoxTrip, box_trip_tree(c));
    let rel = |k: Seq<char>, c: Fields, t: Seq<SpecRead>| t == seq![(ReadKind::BoxTrip, box_trip_tree(c))];
    let ok = |c: Fields| true;
    let l = choose|l: Seq<String>| lists_set(l, id_keys(m, IdKind::Uuid)) && #[trigger] keyed_reads(m, l, rel, ok, s);
    assert(rel == (|k: Seq<char>, c: Fields, t: Seq<SpecRead>| t == seq![f(k, c)]));
    lemma_single_reads(m, l, f, s);
}

/// The fielding that can be taken apart makes two reads per position, in
/// the order of some listing of the positions: the name of the position,
/// then the entries under it and a '.' without a further '.'.
pub proof fn lemma_fielding_reads_each(m: Fields, s: Seq<SpecRead>)
    requires
        fielding_reads(m, s),
        fielding_ok(m),
    ensures
        exists|l: Seq<String>|
            lists_set(l, id_segments(m)) && s.len() == 2 * l.len() && forall|i: int|
                0 <= i < l.len() ==> #[trigger] s[2 * i] == (ReadKind::FieldingPosition, SpecJson::Str(l[i]@)) && s[2 * i
                    + 1] == (ReadKind::FieldingPositionSkater, SpecJson::Object(base(stripped(m, l[i]@ + seq!['.'])))),
{
    let rel = |k: Seq<char>, c: Fields, t: Seq<SpecRead>|
        t == seq![(ReadKind::FieldingPosition, SpecJson::Str(k)), (ReadKind::FieldingPositionSkater, crate::state::base_tree(c))];
    let ok = |c: Fields| true;
    let l = choose|l: Seq<String>| lists_set(l, id_segments(m)) && #[trigger] keyed_reads(m, l, rel, ok, s);
    let parts = choose|parts: Seq<Seq<SpecRead>>| #[trigger] keyed_parts(m, l, rel, ok, parts) && s == parts.flatten();
    assert forall|i: int| 0 <= i < parts.len() implies (#[trigger] parts[i]).len() == 2 by {
        assert(rel(l[i]@, stripped(m, crate::state::dotted(l[i]@)), parts[i]));
    }
    lemma_flatten_even(parts, 2);
    assert forall|i: int| 0 <= i < l.len() implies #[trigger] s[2 * i] == (ReadKind::FieldingPosition, SpecJson::Str(l[i]@))
        && s[2 * i + 1] == (ReadKind::FieldingPositionSkater, SpecJson::Object(base(stripped(m, l[i]@ + seq!['.'])))) by {
        assert(rel(l[i]@, stripped(m, crate::state::dotted(l[i]@)), parts[i]));
        assert(crate::state::dotted(l[i]@) =~= l[i]@ + seq!['.']);
        assert(i * 2 + 0 == 2 * i && i * 2 + 1 == 2 * i + 1);
        assert(parts[i][0] == parts.flatten()[i * 2 + 0]);
        assert(parts[i][1] == parts.flatten()[i * 2 + 1]);
    }
}

/// The clocks that can be taken apart make one `Clock` read each, of the
/// clock built from the entries under its kind and a '.', in the order of
/// some listing of the kinds.
pub proof fn lemma_clocks_read_each(m: Fields, s: Seq<SpecRead>)
    requires
        clocks_reads(m, s),
        clocks_ok(m),
    ensures
        exists|l: Seq<String>|
            lists_set(l, id_segments(m)) && s.len() == l.len() && forall|i: int|
                0 <= i < l.len() ==> #[trigger] s[i] == (
                    ReadKind::Clock,
                    SpecJson::Object(clock_fields(stripped(m, l[i]@ + seq!['.']))),
                ),
{
    let rel = |k: Seq<char>, c: Fields, t: Seq<SpecRead>| t == crate::clocks::clock_reads(c);
    let ok = |c: Fields| true;
    let l = choose|l: Seq<String>| lists_set(l, id_segments(m)) && #[trigger] keyed_reads(m, l, rel, ok, s);
    let parts = choose|parts: Seq<Seq<SpecRead>>| #[trigger] keyed_parts(m, l, rel, ok, parts) && s == parts.flatten();
    assert forall|i: int| 0 <= i < parts.len() implies (#[trigger] parts[i]).len() == 1 by {
        assert(rel(l[i]@, stripped(m, crate::state::dotted(l[i]@)), parts[i]));
        assert(id_segments(m).contains(l[i]@));
        assert(clock_ok(stripped(m, crate::state::dotted(l[i]@))));
    }
    lemma_flatten_even(parts, 1);
    assert forall|i: int| 0 <= i < l.len() implies #[trigger] s[i] == (
        ReadKind::Clock,
        SpecJson::Object(clock_fields(stripped(m, l[i]@ + seq!['.']))),
    ) by {
        assert(rel(l[i]@, stripped(m, crate::state::dotted(l[i]@)), parts[i]));
        assert(id_segments(m).contains(l[i]@));
        assert(clock_ok(stripped(m, crate::state::dotted(l[i]@))));
        assert(crate::state::dotted(l[i]@) =~= l[i]@ + seq!['.']);
        assert(i * 1 + 0 == i);
        assert(parts[i][0] == parts.flatten()[i * 1 + 0]);
    }
}

/// A clock keeps every entry other than "Id" and "ClockType" as it is; an
/// "Id" that no other key sorts before is kept as it is too, and one that
/// some key sorts before is split at its first '_' into "Id" and
/// "ClockType".
pub proof fn lemma_clock_keeps_its_entries(m: Fields, k: Seq<char>)
    ensures
        k != "Id"@ && k != "ClockType"@ ==> (clock_fields(m).contains_key(k) <==> m.contains_key(k)),
        k != "Id"@ && k != "ClockType"@ && m.contains_key(k) ==> clock_fields(m)[k] == m[k],
        m.contains_key("Id"@) && !(exists|j: Seq<char>| #[trigger] m.contains_key(j) && crate::text::lex_lt(j, "Id"@))
            ==> clock_fields(m) == m,
        clock_ok(m) && m.contains_key("Id"@) && (exists|j: Seq<char>| #[trigger] m.contains_key(j) && crate::text::lex_lt(j, "Id"@))
            ==> clock_fields(m)["Id"@] == SpecJson::Str(crate::text::before_char(m["Id"@]->Str_0, '_'))
            && clock_fields(m)["ClockType"@] == SpecJson::Str(crate::text::after_char(m["Id"@]->Str_0, '_')),
{
    reveal_strlit("Id");
    reveal_strlit("ClockType");
    assert("Id"@.len() == 2 && "ClockType"@.len() == 9);
}

} // verus!
