# kernelpilot

A per-application PipeWire mixer. The library (`src/`) is verified with
Verus; the desktop window and the PipeWire threads (`app/`) are ordinary
Rust built on GPUI and the `pipewire` crate.

- `models`: the graph the mixer keeps (nodes, ports, links), the events that
  change it and the commands it sends. Volumes are thousandths of full scale.
- `queries`, `groups`: what the window shows, among it the application
  cards that merge an application's playback and capture streams.
- `engine`, `listing`, `commands`: how registry objects become events, how
  `pw-cli` listings are read, which ports get linked, and what each command
  runs.
- `controls`, `routing`: volume steps, mute, labels, routing menus, and
  routing to a whole sink or to one of its ports.
- `routes`: the links the user made, restored when their device comes back
  and taken away when the mixer closes.
- `laws`: properties of the library as a whole.
