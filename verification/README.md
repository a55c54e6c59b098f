# publish-mqtt

A Homie device model for MQTT, and the member names of the BlueZ
`org.bluez.Adapter1` D-Bus interface.

- `src/` is the verified library:
  - `homie`: data types, properties, nodes, the device's life cycle
    (`NotStarted` → `Init` → `Ready`), and the retained messages that each
    operation publishes, with proofs of the laws that hold of them (node IDs
    stay distinct, removing a node undoes adding it, every message is retained
    and lies under the device's base topic).
  - `text`: topics, comma-separated lists and decimal numbers.
  - `bluez`: the interface, method and property names of a BlueZ adapter.
- `app/` sends the library's messages over a `rumqttc` event loop with
  `tokio`, runs the statistics task, and implements the D-Bus adapter client
  with `dbus`.
- `tests/` exercises the library.
