# zeno

The engine of a terminal coding assistant, written and verified in Verus.

`src/` is the library. It does no input or output: it holds conversations, decides
what happens next in a query, and says what is shown.

- `text`, `json`, `paths`, `time`: texts, JSON documents, paths and instants, with
  the models that all contracts speak of.
- `api`: what goes to a model and comes back from it.
- `engine`: conversations and their compaction, the memory of a session, costs,
  queries as state machines (`engine::query`), sub-agents, sessions and their index,
  and the upkeep of skills.
- `gateway`: from events of the engine to commands of the user interface, and from
  what the user types to commands and queries.
- `hooks`: functions of the user's configuration, in Lua: which of them are called for
  an event, what they are told, and what they ask for.
- `images`, `skills`, `terminal`: pictures that a prompt names, the registry of
  skills, and the pace of the terminal.

A query, a tool call and a sub-agent are run step by step: a function of the library
takes the state and what just happened, and returns what is to be shown and what is
to be done next. `app/` does it: it opens streams, runs tools, waits, reads and writes
files, and hands back what came of it.

What holds of the library as a whole stands beside the functions, as public proof
functions whose names begin with `law_`.

Calls into other crates stand behind functions whose contracts are believed, not
proved; the doc comment of each says what is claimed.
