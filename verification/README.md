# gratttool

A BLE GATT command-line tool with gatttool's syntax and output, over the
BlueZ D-Bus API, with an enumerate table view, ASCII output modes and
BD address changing.

The logic is a Verus library (`src/`), verified against its contracts:

- `text`: character-level helpers (parsing integers, trimming, splitting,
  hex printing) with their specifications.
- `handle_table`: the ATT handle table, kept sorted by handle; UUID
  normalisation and matching.
- `gatt`: the discovery listings, read/write targets, subscription targets,
  the enumerate rows and the device information rows.
- `output`, `style`, `tables`: the output lines, Catppuccin colouring and
  the three tables (enumerate, device information, scan results), with
  wrapping that keeps every byte; `table_lines` shows the enumerate table
  is made of lines that are all equally wide.
- `interactive`: the interactive shell as a state machine from a command
  line to the lines it prints and the Bluetooth action it asks for.
- `cli`, `connection`, `error`, `monitor`, `scan`, `bdaddr`: command-line
  decisions, address parsing, errors, HCI monitor packets, scan results and
  the BD address commands.

`app/` holds the program around it: clap parsing, the BlueZ connection,
the readline loop, sockets and printing.
