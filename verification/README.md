# rustibia

The rules of the Rustibia game client, written in Verus and proved against
their contracts: the map and its draw order, floor occlusion, the explored-map
store behind the minimap, sprite animation, effects, floating text, chat
routing and history, the action bar with its dialogs and saved file, spells and
cooldowns, and the small rules around items and dialogs.

- `src/` is the verified library. Each public function states what it returns
  or changes; the `lemma_*` proof functions state the properties that span
  several calls (a read of what a write stored, the order keys draw in, that a
  walk through an animation's phases stays valid, ...).
- `tests/` runs the library on concrete values.
- `app/` is the program around it: finding the data directory, reading and
  writing files, the serde shape of the saved action bar, and the few rules
  that are written in floating point.
