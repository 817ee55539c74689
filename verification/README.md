# meca_hid

Verified driver logic for the MECA EVO sim racing peripherals (load cell pedals, handbrake,
sequential shifter).

- `src/` — the library, verified with Verus: little-endian report codec (`codec`), the 9-point
  response curve with calibration, deadzones and interpolation (`curve`), the input report
  decoders of each device (`pedals`, `handbrake`, `shifter`), feature report framing
  (`transport`), USB identifiers (`ids`), the reconnecting reader's decisions (`poll`) and the
  control panel's navigation entries (`nav`).
- `app/` — the control panel: USB access through `hidapi`, the `iced` user interface and the
  `tokio` reader loops that carry out the library's decisions.
- `tests/` — tests of the library on concrete values.
