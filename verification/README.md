# packsight

Reads a roller-derby scoreboard game file and writes the games it holds as a
nested JSON document.

A game file holds a flat `state`: a JSON object whose keys are paths such as
`ScoreBoard.Game(<uuid>).Period(1).Jam(2).Number`. The library rewrites the
keys into dotted form (`(` becomes `.`, `)` goes; where two keys are rewritten
alike, the greater one wins), then builds, level by level, the games with their
clocks, periods, jams, team jams, teams, skaters, penalties, box trips and
timeouts, each filed under its canonical id.

Layout:

- `src/`: the library, verified with Verus. Every function states in its
  contract the exact tree it builds over a mathematical model of JSON
  (`json::SpecJson`), and, for each `try_*` function, exactly when it gives
  `None`.
  Each level also lists, in the order they are made, the typed reads of
  its parts (`reads`): a part is read into its typed form as soon as it is
  built, and a state that cannot be taken apart ends the list, so that a
  caller that makes the reads in turn meets the first failing read or the
  point where the state cannot be taken apart, whichever comes first.
- `tests/`: tests of the library on concrete states.
- `app/`: the command-line program: it reads the file, hands its text to the
  library (which parses it with `serde_json` behind a trusted wrapper), makes
  the listed reads with `serde`, stopping at the first error, reads the games
  into typed structures, and writes the output.
  Usage: `packsight <game file> <output file>`.
