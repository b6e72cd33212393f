# legion_kb_rgb

Colour and effect logic for a four-zone RGB keyboard, with machine-checked contracts.

- `src/` is the verified library: the effects and their parameters (`enums`), zone
  colours and profiles (`profile`), the ripple effect's wave propagation and key
  tracking (`ripple`), screen-slice averaging for the ambient light (`ambient`),
  window and custom-effect decisions of the interface (`gui`), reading the desktop
  accent colour (`util`), settings and the temperature effect's colour choice.
- `app/` holds what touches the system or computes in floating point: JSON storage,
  sensor and screen readings, and the per-frame colours of the real-valued effects.
- `tests/` runs the library on concrete values.
