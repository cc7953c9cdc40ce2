# nkscan

Control of Nikon Coolscan film scanners, with the parts that decide and compute verified by
Verus.

- `src/scsi/`: SCSI commands as bytes, and the link that carries them. The history of a link
  is a sequence of events; contracts speak of it.
- `src/scanners/ls50/`: the LS-50. `protocol.rs` says what driving it does on the link,
  `scan.rs` does it, and `laws.rs` states what holds of every run.
- `src/scanners/ls9000ed/`: the geometry and the image stream of the LS-9000.
- `src/scanners/decode.rs`: frames, and the interface that both decoders share.
- `src/cli/`: flag values, file names and the dispatch to a device.
- `src/text.rs`: numbers and padded fields as text.
- `app/`: the program around the library: arguments, USB, TIFF files, logging.
- `tests/`: the library against scripted devices.
