# seyfr

Peer-to-peer file transfer over iroh, with its decision logic verified in Verus.

- `src/` — the library, verified:
  - `errors.rs`: the error taxonomy, its codes and messages;
  - `text.rs`: decimal numbers, trimming, reading downloader progress events;
  - `ticket.rs`: the tickets a sender writes and what a receiver reads from them (iroh-blobs);
  - `store.rs`: what each event of an import into the blob store means;
  - `hashseq.rs`: the root blob of a transfer (metadata hash, then file hashes);
  - `paths.rs`: file names, extensions and MIME types, and what a path lookup means for a send;
  - `walker.rs`: which files of a folder are shared, in path order;
  - `metadata.rs`: the metadata format and what the sender builds and reports;
  - `progress.rs`: the progress callback interface and its events;
  - `receive.rs`: download events, pairing items with hashes, and the receiver's reports.
- `app/` — the command-line program: disk, blob store, network, JSON, console output.
- `tests/` — tests of the library.
