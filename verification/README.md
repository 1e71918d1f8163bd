# baras

A verified library for reading and analysing Star Wars: The Old Republic
combat logs, written in Verus.

- `src/` is the library. Every function carries a contract that Verus proves:
  the log line parser (`parser`, `reader`, `text`), the encounter builder
  (`encounter`), the session and its combat state machine (`session`,
  `combat_state`), shield attribution (`shielding`), raid-frame slots
  (`raid_registry`), effect and timer definitions (`definitions`,
  `tracking`), rotation cycles (`rotation`), the notes overlay's Markdown
  subset and what it draws (`notes`), the timer editor (`timer_list`,
  `timer_form`, `trigger_edit`, `id_list`, `boss_search`), which overlay
  windows to start and stop and how their modes switch (`overlay_control`),
  the settings panel's rules (`settings_edit`), query text (`query`), the
  Parsely.io upload and its reply (`parsely`), and small decisions of the
  desktop app (`monitor`, `color`, `app_state`, `types`).
  Calls into other crates (`memchr`, `chrono`, `encoding_rs`, `flate2`)
  and into the few parts of
  `std` that Verus does not know sit behind small trusted wrappers whose
  contracts state what the documentation of the called function promises.
- `tests/` runs the library on concrete inputs.
- `app/` is the command-line program and everything around the library that
  reads files, talks to processes, (de)serializes configuration, or
  computes with floating-point times.
