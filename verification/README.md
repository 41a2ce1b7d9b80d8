# mon_mapper

Recognises the monitors attached to an X server by their EDID, fits a stored
profile to them, and lays them out from left to right.

- `src/` is the library, verified with Verus. It decides: which profile entry an
  attached monitor is (`displays`, `assignment`), in which order monitors stand
  (`ordering`), which `xrandr` arguments describe the layout (`monitor`,
  `displays`, `screen`), which changes to ask of the server and when (`plan`,
  `apply`), which preset, configuration file and log level are meant (`config`,
  `log_level`), and what an EDID identifies a monitor by (`descriptors`).
- `app/` is the program around it: arguments, files, environment, logging and
  the connection to the server.
- `tests/` runs the library on concrete values.

Two calls leave the library: `edid::parse`, and `tracing::Level`'s parser. What
is claimed of them stands at `descriptors::parse_edid` and
`log_level::parse_level`.
