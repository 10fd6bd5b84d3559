# media_core

The core of a self-hosted media manager: it reads movie and episode file
names, decides where files belong in a library and what they are called,
plans transcoding and streaming, tidies library folders and frames the
metadata written beside the files.

The library in `src/` is written in Verus: each public function states in
its contract what it returns, and the contracts are proved.  Properties
that span several functions (laws) are public proof functions, such as
`paths::lemma_relative_round_trip`, `scan::lemma_free_name_is_free` and
`cleanup::lemma_one_copy_stays`.

Layout:

- `src/text.rs`, `src/pattern.rs`: the character model and the word
  patterns (years, resolutions, season markers, release noise) that the
  grammars are built from.
- `src/parser.rs`, `src/titles.rs`, `src/shows.rs`: file name and folder
  grammars, title cleaning, matching and merging shows.
- `src/paths.rs`, `src/renamer.rs`, `src/scan.rs`, `src/cleanup.rs`:
  library paths, naming, scan decisions and folder cleanup.
- `src/mediainfo.rs`, `src/ffmpeg.rs`, `src/streaming.rs`,
  `src/segment_files.rs`, `src/server.rs`: probing, encoder arguments,
  stream sessions and the requests of the HTTP server.
- `src/nfo.rs`, `src/exporter.rs`, `src/notifications.rs`,
  `src/maintenance.rs`, `src/analysis.rs`, `src/subtitle_search.rs`,
  `src/watchdog.rs`, `src/webhook.rs`, `src/catalog.rs`, `src/hash.rs`,
  `src/models.rs`, `src/config.rs`: metadata documents, exports,
  reports, listing queries and the remaining decisions.
- `app/`: the file system, process and serialisation side (reading and
  writing files, running `ffmpeg` and `ffprobe`, XML and JSON).
- `tests/`: tests of the library on concrete values.
