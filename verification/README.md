# omarchycastd

The daemon behind an Omarchy launcher overlay: it answers search queries over
a Unix socket with ranked rows from several providers (applications, a
calculator, date questions, notes, Omarchy menu entries and themes, plugin
commands, web search) and performs the activation of a chosen row.

## Layout

- `src/` is the library, written in Verus. Every function in it is verified
  against its `requires`/`ensures`; calls into outside crates and into parts
  of std that vstd does not specify go through small trusted wrappers, each
  documented with what its contract claims.
  - `text`, `limits`, `sorted`: text helpers, display bounds, a sorted map.
  - `search`: rows, queries, the `Provider` trait, the registry, ranking
    (`rank`), fuzzy scoring (`score`) and launch counts (`store`).
  - `config`: settings and their sanitising.
  - `ipc`, `daemon`: the socket protocol's framing and limits, and what each
    request is answered with.
  - `hypr`, `files`: Hyprland config text and the decisions of safe file I/O.
  - `providers/*`: each provider's parsing, matching and activation.
- `tests/` runs the library on concrete values.
- `app/` is the program around the library: `main`, the socket, file and
  process I/O, file watching, the SQLite store, serde copies of the library's
  types, and the calculator's evaluation through fend.
