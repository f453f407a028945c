# modpack_recipes

A library for browsing the items of a Minecraft modpack and for reading and
writing vanilla crafting recipes, verified with Verus.

- `src/` is the verified library: texture resolution through model parent
  chains (`model_resolver`), finding the textures that draw an item
  (`texture_renderer`), items of mod jars and of the Minecraft jar (`fabric`),
  KubeJS startup scripts and overrides (`kubejs`), lang files (`lang`), merging and ordering loaded
  mods (`mod_loader`), reading recipe files (`recipe`), exporting recipes
  (`vanilla_json`), application state (`commands`), and the properties that
  relate these functions (`laws`).
- `app/` is a small command-line front end: it reads jars, directories and
  JSON files, draws isometric block icons, and prints JSON.
- `tests/` runs the library on concrete values.
