# rid_pocket

A pocket receiver for ASTM F3411 drone Remote ID broadcast over Wi-Fi
beacons, and the host tool that reads its USB stream. The library holds the
logic of both sides, verified by Verus; its functions carry contracts,
except the fuzz entry points, whose only promise is that they cannot
panic:

- `message`, `encode`, `units`, `pack`, `beacon`: Remote ID messages, message
  packs and the beacon element that carries them, decoded and encoded.
- `cobs`, `proto`: the framed USB protocol (COBS, CRC-32, HELLO / OBS /
  STATUS / LOG frames).
- `radio`, `obs`, `tracks`, `buttons`, `status`, `wire`, `ui`, `lines`: the
  receiver's decisions: which frames become observations, the track table,
  channel hopping, button debouncing, frame numbering, the device log, and
  the text and selection of the display, and the console line of a frame
  (`console`).
- `host`: the host side of the stream: deframing, sequence tracking and
  counts.
- `fuzz`: entry points that run every decoder on arbitrary input.

`app/` is the host program `rid-host`: command line, serial port and file
I/O, and JSON Lines output. `tests/` runs the library on concrete values.
