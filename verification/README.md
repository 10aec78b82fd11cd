# dupdupninja

A duplicate and near-duplicate media finder. A scan walks a folder or a
drive, records every file with its content digests (BLAKE3, SHA-256) and its
perceptual image hashes (mean, gradient, DCT) in a standalone SQLite
"fileset", and the fileset is then queried for exact duplicates (equal
digests) and similar files (hashes within a Hamming distance).

## Layout

- `src/` is the library, verified with Verus. It holds the decisions of a
  scan, the encodings of the fileset's columns, the grouping of exact and
  similar files, the command-line and terminal-interface state, the web
  interface's table of jobs, the values of the C interface, and the parsing of
  mount tables and tool output. Contracts are stated over `Seq`, `Set` and
  `Map` models; the laws the library keeps are public proof functions.
- `app/` is the program around it: the `dupdupninja` command (`scan`,
  `matches`, `web`), the SQLite store, the directory walk and the calls of
  `ffprobe` and `ffmpeg`, the terminal screens, the HTTP server, and the C
  entry points.
- `tests/` runs the library on concrete values.
