# spe6103

Control software for the OWON SPE6103 bench supply (60 V, 10 A, 300 W): setting
and reading the supply over its serial line, presets, a measurement log, and a
small web server for watching and operating it from the local network.

`src/` is the core, verified with Verus. It decides everything that matters and
does no input or output of its own:

- `limits`, `double`: what the supply can deliver, checked exactly on the bit
  patterns of the numbers, so that nothing beyond it is ever sent.
- `scpi`, `psu`, `scan`: the dialogue with the supply. A transaction hands out
  its steps one by one, and no command before the device has said that it is an
  SPE6103.
- `presets`, `csvlog`: the list of presets, and log files of limited size.
- `http`, `json`, `page`, `access`, `server`: requests and replies, what clients
  may do at each level, and the start and stop of the server.
- `text`, `numeral`: the operations on text that the rest is stated over.
- `outside`, `unicode`: the calls into `serde_json`, `qrcode` and the standard
  library that are trusted.

What holds of the whole is stated by the proof functions whose names begin with
`law_`.

`app/` is the desktop application around it: serial ports, files, sockets,
threads and the window. `tests/` runs the core, and holds it against the floating
point and the text functions of the machine.
