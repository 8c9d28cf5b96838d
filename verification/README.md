# ble_bridge

The verified core of a Bluetooth Low Energy bridge for Flutter and Android.

- `src/` (Verus): the command channel (`command`), the registry of known
  peripherals (`registry`), the decisions of a scan session (`scan`), the
  service filter (`filter`), the decoding of strings that arrive from the
  foreign side and the small integer helpers (`wire`).
- `app/` (plain Rust): the tokio runtime, the btleplug event loop, the
  Flutter bridge glue and the JNI entry points. It feeds events into the
  library and carries out the actions it returns.
- `tests/`: tests of the library on concrete values.
