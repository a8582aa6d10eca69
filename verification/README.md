# Chronicle

A campaign engine: briefing → petitions → set-piece → debrief → lineage.
Stories live in a separate pack (`chronicle-stories`); this crate is the player.

The library (`src/`) is written in Verus and verified: every public function carries a
contract over a mathematical model of its data, and `src/laws.rs` proves the properties of
the engine as a whole (a choice's relics are a union, only a chapter marked
`cheval_si_chevaux` grants `cheval`, `lint` passes exactly when every `next` names a
chapter, the carnet never exceeds its cap, chapters only move forward, a saved lineage read
back hands on what the chapter ended with, …).

| Module | Role |
|---|---|
| `engine`, `rules` | the chapter mode machine and its model |
| `dsl` | Markdown with a YAML fence → chapter; campaign assembly, order, lint, resume |
| `persist`, `session` | the lineage between chapters; the decisions of a play session |
| `screen`, `frame` | what a screen shows and what its keys ask for |
| `strset`, `strmap`, `text` | ordered sets and maps of texts, and text helpers |

`app/` is the program around it: the command line, file access, YAML and JSON decoding,
and the terminal.

Keys: j/k, Enter, n notes, ? help, q quit. Saves: `instance/chronicle/<chronicle>/lineage.json`.
