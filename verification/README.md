# russtly

The core of RuSStly, a desktop podcast client, written in Verus. The
library's own functions carry contracts that Verus proves; the few small
functions that call into `std`, `chrono` or `rss` (marked
`#[verifier::external_body]`) carry contracts that are trusted, not proved,
and each says in its doc comment which outside function it calls.

- `src/text.rs`: characters of strings, white-space trimming, decimal
  numbers (printing and parsing), splitting on a separator.
- `src/feed.rs`: reading an RSS document through the `rss` crate, turning
  items with an audio enclosure into episodes, parsing `itunes:duration`.
- `src/opml.rs`: writing subscriptions as OPML and reading feed addresses
  back, with a proof that an export re-imports to the same addresses.
- `src/app.rs`: what the user interface shows: HTML stripped to text,
  durations and dates, status lines, data and download locations, episode
  filters and counts.
- `src/sync.rs`, `src/paths.rs`: safe file names and the destination of an
  episode copied to a folder.
- `src/mtp.rs`: choosing a storage on a media device, folder names, summing
  up uploads, and the state of the device folder browser.
- `src/playback.rs`: spans of time and the bookkeeping of the player
  (seek offsets, positions, skip targets).

`app/` is the program around the library: the egui window, the SQLite
database, HTTP downloads, audio output and the media-device connection.
`tests/` runs the library on concrete values.
