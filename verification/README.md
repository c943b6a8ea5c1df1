# middleclick-scroll

The decision logic of a Windows tray tool that turns middle-button drags on a
TrackPoint into scrolling, verified with Verus.

- `src/` is the verified library:
  - `text.rs`: character-level string helpers (search, trimming, decimal numbers).
  - `names.rs`: device names from device interface paths and from what the system reports.
  - `config.rs`: the settings and the per-device table. The table is a `Vec` of
    (path, setting) pairs in which no path occurs twice, seen as a map from path to
    setting; it stands where a `BTreeMap<String, _>` would, because Verus proves little
    about maps keyed by `String`. Its order is irrelevant: the settings file is written
    from it through a `BTreeMap`.
  - `engine.rs`: the press / drag / release state machine and device registration.
  - `input.rs`: classification of low-level hook events and the hook's responses.
  - `menu.rs`: tray menu items, labels and commands.
  - `laws.rs`: properties that relate several operations.
- `app/` is the Win32 program around it: raw input, the low-level mouse hook, the
  tray icon, the settings file, and the floating-point wheel accumulation.
- `tests/` exercises the library on concrete values.
