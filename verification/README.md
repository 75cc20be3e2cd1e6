# gnome-brightness

Controls the brightness (and input source) of external monitors over DDC/CI
through `ddcutil`, from a small GTK 4 / libadwaita window and a tray icon.

- `src/` is the library, verified with Verus: the parsers of ddcutil's
  output (`ddc`, over the `str` model in `text`), the monitor model
  (`monitor`), the settings and their nicknames (`config`), the slider,
  average and theme decisions of the main window (`window`), the per-display
  write debouncing (`debounce`), the preferences choosers (`preferences`),
  the tray events (`tray`), the autostart desktop entry (`autostart`) and the
  command-line flags (`cli`).
- `app/` is the program around it: running ddcutil, the settings file (TOML),
  the GTK widgets, the tray icon, translations and daemonizing.
- `tests/` runs the library on concrete inputs.
