# broccoli plugins

The rules of the plugins of an online judge, verified with Verus, and the print
client of a contest site.

* `src/checkers`: how an output is compared with the expected one, as whole texts
  and as streams of bytes; how the stages of a checker are planned and its result
  is read, for the built-in checkers and for testlib.
* `src/languages`: how the files of a submission are compiled and run.
* `src/icpc`: judging until the first failure, penalties, the standings and their
  freeze, and what others may see of a submission.
* `src/ioi`: subtasks and their scores, judging in groups, tokens, official scores,
  the scoreboard, and what feedback is given.
* `src/print`: the queue of print jobs, its stations, and the routes of the service.
* `src/limit.rs`: the cap on submissions to a problem.
* `src/client`: what a print station does: claims, reports, highlighting, layout.
* `src/judging.rs`, `src/summary.rs`, `src/visibility.rs`: what both kinds of contest
  share.
* `src/sql.rs`, `src/http.rs`, `src/text.rs`, `src/textmap.rs`, `src/pairs.rs`,
  `src/ids.rs`, `src/utf8.rs`, `src/letters.rs`: statements, requests, texts, maps.
* `app`: the print client itself, with its network, printers, files and drawing; and,
  in `app/plugins`, what a judging server hands to the library: settings and requests
  read from JSON, and arithmetic on scores.

Scores are never computed in the library, as they are floating-point numbers. Where
a rule needs arithmetic on them, the caller hands in a function, and the contract
says what it is applied to. Scores that were stored are counted in hundredths of a
point.

Outside crates are called through a few functions whose contracts are believed, not
proved: `serde_json` (lists of texts), `unicode-width` (the columns of a character),
`syntect` (syntaxes, themes and tokens) and `chrono` (local time).
