# tf2_demo_player

Tools for Team Fortress 2 demo files: managing demos and their bookmarks,
replay entries, profiles of detector settings, and cheat detectors that read
a demo tick by tick.

The library under `src/` is written in Verus: every function carries a
contract, and Verus proves that the code meets it.

- `demo_strip` removes console commands from a demo's packet stream;
  `demo_header` reads the header a demo is listed with.
- `demo`, `steam_library`, `profiles` cover bookmarks, replay entries, the
  Steam library list and detector profiles.
- `triggerbot`, `firewindow`, `double_tap`, `bunnyhop`, `invalid_equip`,
  `jankguard` hold the detectors' decisions. `backstab` holds the
  auto-backstab detector's timing decisions (readiness windows, reaction
  ticks, preswings, the end-of-demo count), `silent_aim` the silent-aim
  detector's gating and suspicion count, `nospread` its end-of-demo filter;
  the angle and distance measurements those detectors also make are floating
  point and stay with the caller. `prng`, `weapons`, `equip_regions`,
  `player` hold the game facts the detectors use.
- `config` checks detector settings against what each detector declares.
- `search`, `detections`, `detail`, `report` turn findings into lists and
  text.

`app/` is the command-line front end: it reads files and demos (with
`tf_demo_parser`), hands plain values to the library and prints what comes
back. `tests/` exercise the library on concrete values.
