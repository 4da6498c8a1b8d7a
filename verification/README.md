# nixvis

An explorer for the Nix package set: a package index with forward and
reverse dependency edges, search, dependency trees, graph projections,
NixOS / Home-Manager option search, a keyboard-driven terminal UI and a
local web API.

## Layout

- `src/` — the library, verified with Verus. It holds the index and its
  validation, breadth-first walks and graph projections, search, the
  string table and sort orders, the database row mapping, the cache and
  loader decisions, the key handling of the terminal application as a
  state machine (`AppCore`), and every text, split and row the views show.
  Each public function states its result in `ensures` over spec functions;
  the laws that span several functions are public proof functions named
  `law_*`.
- `app/` — the program around it: argument handling, the terminal event
  loop and drawing (ratatui, crossterm), the file cache and SQLite
  database, the `nix` subprocess and the search.nixos.org client, the
  floating-point graph layout, and the axum web server. It hands plain
  values to the library and carries out the effects the library returns.
- `tests/` — tests of the library on concrete values.

Data files (`data/nix-index.json`, the option lists) and the web assets
are read at run time from `$NIXVIS_DATA` / `./data` and `$NIXVIS_WEB` /
`./web`.
