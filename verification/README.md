# Rogue Creator

A roguelike engine whose games are described by JSON files and script
snippets. The crate `rogue_creator` holds the engine's logic, verified with
Verus; `app/` is the terminal program around it.

## Layout

- `src/json.rs`, `src/global.rs`: the JSON configuration (hub, entity, level
  and layout files), parsed from their text with serde_json, its checks, and
  the game configuration built from it.
- `src/tile.rs`, `src/level.rs`, `src/entity.rs`, `src/layout.rs`: tile sets,
  level kinds and instances with their tile maps, entities, key bindings.
- `src/state.rs`: the runtime state: levels and entities by identifier, the
  active level and entity, map drawing on the active level.
- `src/textrender/`: what is drawn where: the level map, the print box, text
  boxes.
- `src/packages/`: the engine packages that scripts import; each call's
  arguments are read and turned into what the call asks of the engine.
- `src/script/`: package reference resolution, variable scopes, identifiers
  and integer literals of the script language.
- `app/`: reading files, running scripts, the terminal and the main loop,
  and the floating-point part of the `math` package.

Laws of the library are the public proof functions whose names begin with
`law_`.
