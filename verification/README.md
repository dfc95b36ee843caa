# bluetooth-monitor

A live dashboard for Bluetooth devices on Linux (BlueZ), with per-bud
battery readings for true-wireless earbuds and a tray icon.

- `src/` is the verified library (Verus): the vendor advertisement decoders
  (Apple Proximity Pairing, Xiaomi/Redmi, Samsung), the Xiaomi serial frame
  parser and probe report, the `sdptool` record reader, the device-list
  order, the backend loop's state (refresh interval, discovery, nearby
  list) and signal history, the RFCOMM channel search, the device-row and
  header decisions, the dashboard statistics, the
  tray tooltip and menu, the settings rules and the icon rasteriser. Every
  public function carries a contract; the `law_*` proof functions state the
  properties that hold across calls.
- `app/` is the program around it: BlueZ and RFCOMM I/O (bluer, tokio), the
  egui window, the tray service (ksni) and the configuration file.
- `tests/` exercises the library on concrete values.

Fonts and icons are read at run time from an `assets/` directory next to
the executable (or from `BT_MONITOR_ASSETS`).
