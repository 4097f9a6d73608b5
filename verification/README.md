# la2world_editor

The data layer of a Lineage 2 client data editor (Grand Crusade, protocol 110):
the conversions between the records of the client's `.dat` files and the
entities the editor shows, the text tables the records refer to, and the
decisions of the quest step editor, all proved with Verus.

Layout:

- `src/ids.rs`, `src/entity.rs`, `src/quest.rs`, `src/skill.rs`, `src/recipe.rs`,
  `src/weapon.rs`: the entities and their dat records, and the conversions
  between them (a weapon is built from its `weapongrp.dat` record with the item
  name, base-info, additional-info and stat records of its id).
- `src/string_table.rs`: the name tables (`l2gamedataname.dat`, case-insensitive;
  the skill name table, exact), and the laws of their lookups.
- `src/changed_map.rs`: the entity maps that remember whether they were written.
- `src/skill_dat.rs`: writing skills as records; `src/skill_load.rs`: reading them
  back; `src/skill_layout.rs`: the records as the final text tables number them;
  `src/skill_reread.rs`: reading those records, level by level and route by route;
  `src/skill_round_trip.rs`: what reading gives back of a write;
  `src/skill_save_load.rs`: what loading gives back of the saved skill files.
- `src/loader.rs`: the loader of a client folder: loading every kind of record
  (weapons among them), saving, and the save-then-load laws of quests and recipes.
- `src/holder.rs`: the data handed to the editor; `src/steps_editor.rs`: the quest
  steps editor as a state machine; `src/text.rs`, `src/vec_util.rs`: helpers.
- `app/main.rs`: a command-line front that finds the dat files of a folder.
- `tests/`: tests on concrete values, one or more for each law.
