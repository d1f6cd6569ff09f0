# automouse

Mouse automation for Windows (auto-clicking or holding a button, started and
stopped by a global F-key), with its logic verified in Verus.

- `src/` is the verified library: the settings model and presets
  (`settings`, `presets`), the configuration file format and its round-trip
  law (`config`, `config_laws`, `text`), the hand-over of settings to the
  workers (`shared`), and the decisions of the clicking worker (`clicker`),
  the hotkey worker (`hotkey`) and the window (`display`).
- `app/` is the Windows program around it: the egui window, the two worker
  threads, input injection, hotkey registration and the configuration file
  under `%APPDATA%`.
- `tests/` exercises the library on concrete values.
