# macclean

A terminal app that surfaces what is eating your disk, classifies each Item by
Safety Class with the evidence behind it, and reclaims space only after a Confirm.

The library under `src/` holds everything that is decided and everything that is
shown, written in Verus with proved contracts. The program under `app/` holds what
touches the machine: it walks directories, reads files, runs commands, reads the
TOML of the user's Rules, and draws the library's lines on a terminal.

| Module | What it holds |
|---|---|
| `model` | Safety Classes, Items, Scans, and what may be reclaimed |
| `path`, `text`, `double`, `order` | paths as bytes, text, rounding in double precision, stable sorting |
| `ruleset`, `glob`, `classify` | the Rules, and which of them is the first to match a path |
| `tree`, `fold`, `walk`, `findings`, `nesting` | what a walked tree surfaces, the one-pass fold that finds it, and what every Scan promises |
| `measure`, `scan` | sizes on disk, how a walk is put together, and how sizes are written |
| `dedup`, `fingerprint` | Redundant Copies and the content fingerprints that tell them |
| `reclaim`, `job` | how an Item is reclaimed, and a running Reclaim |
| `groups`, `state`, `browse`, `guarantees` | what the app shows, what each key does to it, and what no key can do |
| `screen`, `bars`, `overview`, `modal` | every line on the screen |
| `update`, `cli` | the update check and the command line |

A proof function whose name starts with `law_` states a promise of the library in
its contract.
