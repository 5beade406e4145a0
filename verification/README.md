# pigeon

A desktop notification daemon (`org.freedesktop.Notifications`) whose core is
written and proved in Verus.

- `src/` is the verified library: the template lexer and renderer, colour
  parsing and gradients, configuration profiles, rules and overrides, the
  notification queue and its lifecycle decisions, hint normalisation,
  settings edited into the configuration text, image file decoding, telling
  configuration file changes apart, card and progress-bar geometry, stacking
  layout, emoji runs, thumbnail placement, WAV parsing and sound cooldowns.
  Each public function states its result in its contract; the laws that span
  several functions are public proof functions next to them.
- `app/` is the program around it: command line, D-Bus service, Wayland
  layer surfaces, font shaping, file watching, audio output, reading and
  writing files, and the serde form of the configuration. It hands the
  library plain values and acts on what comes back.
- `tests/` runs the library on concrete inputs.
