# it2mpc

Converts Impulse Tracker (`.IT`) modules into Akai MPC projects: every instrument (or
sample) becomes a pad, its sample is written as a WAV file, and the drum program (`.xpm`),
sequence list (`.xal`) and project (`.xpj`) are generated around them.

The library under `src/` is verified with Verus:

- `reader`, `it`: the module format: header, instruments, envelopes and samples, with the
  exact error each malformed file gets.
- `pcm`: uncompressed and IT 2.14 / 2.15 compressed sample decoding.
- `wav`: WAV files with the `atem` loop metadata that MPC software reads.
- `mpc`: pad settings and the three XML files.
- `names`, `project`: unique, file-system-safe WAV names and the plan of a conversion.
- `info`: the `--info` summary.

`app/` holds the command line: argument parsing, reading the input and writing the files.
