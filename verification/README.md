# bobba_launcher

The logic of Bobba Launcher, a desktop launcher for the Habbo AIR clients
Classic, AirPlus and Bobba Client, written in Verus and proved against its
contracts.

- `src/` is the verified library: login ticket parsing (`ticket`), the hotel
  list (`hotels`), client identities and status (`clients`), settings and
  recorded versions (`settings`), install locations, zip entry rules, AIR
  descriptor rewriting and release metadata (`install`), the install steps
  (`pipeline`), launch arguments (`launch`), launcher self-update decisions
  (`updater`), the `chrono` date parsing it relies on (`timestamps`) and the
  character-level text operations all of these are built from (`text`).
- `app/` is the Tauri program around it: window, tray, commands, network,
  files and processes.
- `tests/` runs the library on concrete values.
