# oxide-code

The sessions and the slash commands of a terminal coding assistant, as a library whose behaviour is
stated in contracts and proved with Verus.

- `src/session/` — a session and its file: the entries, the chain of messages that a file holds,
  the repair of a transcript that was cut off, batched writing, titles, listing and resuming.
- `src/slash/` — the commands that are typed behind a slash: parsing, completion, ranking,
  dispatch, and the overlays that they open.
- `src/tui/` — what overlays share: keys, answers, layout, lists with a cursor.
- `src/model.rs`, `src/config.rs` — the models that can be chosen, and the settings in force.
- `src/text.rs`, `src/width.rs`, `src/order.rs`, `src/home.rs`, `src/ident.rs` — text helpers.
- `tests/` — the library on concrete values, with the outside crates linked.
- `app/` — what surrounds the library: files, processes, tasks and the terminal.

The roster that is offered and the short names stand in `src/model.rs`, each model by what follows
the name of its family. That name, what the known models can do, and the file that a peer assistant
keeps its notes in are data: the program reads them from a JSON file (`app/catalog.rs`) and hands
them to the library as a `Catalog` and a `Peer`.

Laws that span several functions are public proof functions named `law_…`, next to the functions
that they speak of.
