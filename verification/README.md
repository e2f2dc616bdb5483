# opr

Army lists of One Page Rules games, as Army Forge serves them, with their
behaviour proved by Verus.

- `src/` is the library. `army` groups the units of a list (a unit that joins
  another stands in its group, heroes first, with the group's full cost);
  `grouping` states that grouping over selection ids and proves its laws;
  `unit` computes a unit's full cost and hero status and the names under which
  units are shown; `unit_upgrade_option` holds the costs of an upgrade option;
  `game_system` names the game systems and builds Army Forge's URLs; `tts` holds
  the army lists of the TTS endpoint; `text` and `order` hold string building
  and the hero-first order.
- `app/` reads and writes the JSON of Army Forge with serde, around the library,
  and installs test data.
- `tests/` runs the library on concrete lists.
