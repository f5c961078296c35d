# shaken

The core of a Twitch chat bot, written in Verus: every function in `src/` carries a
contract that Verus proves.

- `src/` is the library. It parses what Twitch sends (IRC tags, emote ranges, commands),
  builds what the bot answers (`Response::build`), fills in response templates, and runs
  the bot's games and polls: the investment game, the idle credits game, polls and
  votes, user commands, `!speak`, `!song`, `!crate`, `!uptime` and the rest. Public proof
  functions named `law_*` state properties that hold across calls (a vote counts once,
  a transfer keeps the credits it moves, a template fills every placeholder, the queue
  is first in first out, the ranking sort is stable).
- Calls into outside crates (chrono for dates, rand for random amounts, hashbrown for
  sets and maps) go through small trusted wrappers whose contracts say what the crate
  documents.
- `app/` is ordinary Rust around the library: HTTP requests (curl, ureq), the SQLite
  stores (rusqlite), the JSON files (serde_json, directories), chance rolls with
  floating-point probabilities, and timers. It fetches what a command needs, asks the
  library, and stores what the library answers.
- `tests/` runs the library on concrete inputs.
