# culler_core

The engine of a photo-library culler: it records what a folder walk finds,
content-hashes exact-duplicate candidates, groups duplicates with a keeper
first, clusters near duplicates by perceptual hash and bursts by time and
similarity, and serves the library grid, all over a SQLite database.

The library under `src/` is written in Verus and verified. Its contracts
state what each step computes. Everything the library hands to SQLite is
recorded in two ghost logs that the contracts describe: the data-changing
statements (text and parameters), and the queries with the rows each one
returned. A reader's contract says which query it ran and what it returns
for those rows (the row decoders are exact); recording a walk, storing
hashes and replacing clusters each state exactly which statements they
issued inside one transaction, and that a failure ends in a rollback;
opening a database states the pragmas and the migrations it ran for the
stored schema version. What SQLite returns for a query is not modelled: the
contracts hold for whatever rows came back. Proof functions state the
properties the pipeline promises: duplicate groups are keeper-first, ordered
by reclaimable bytes and share their hash; near-duplicate and burst
clusters are the connected components of their link relations; events
partition the photos; a rescan that reads back, under each found path, a
live row with that size and mtime issues no statement for those files, and
every live row under the root that the walk did not find is marked missing;
the initial schema runs once on a fresh database and nothing runs on an
up-to-date one.

Layout:

- `src/db/`: the schema and its migrations, the statements the engine
  runs, typed reads of their rows, the record rules of a walk, duplicate
  grouping and size-first candidate grouping.
- `src/cluster/`: Hamming-distance banding, union-find, connected
  components of a link relation, near duplicates, gap events, bursts.
- `src/scan/`: which paths are images, the hashing plan, BLAKE3 hashes,
  and the analysis stage's bookkeeping.
- `src/analyze/`: Hamming distance, the dHash of a decoded image, EXIF date
  and camera naming.
- `src/api.rs`, `src/cli.rs`: the shell interface records and the
  command-line argument rules.
- `app/`: the command-line program: file-system walks and reads, image
  decoding, perceptual hashes and quality scores (floating point), burst
  similarity, and the scan driver that feeds the library.
- `tests/`: tests of the library through its public interface.
