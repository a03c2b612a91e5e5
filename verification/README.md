# scdownload

A command line downloader of SoundCloud tracks, playlists, albums, an artist's
tracks and the tracks a user liked, whose logic is a Verus-verified library.

Usage: `scdownload <track/album/playlist/artist/liked> <url, id or username>` with the optional
`--temp-dir="path"`, `--download-dir="path"`, `--thread-count=number`,
`--original-cover-size false|true` and `--disable-cache false|true`.

Layout:

- `src/` — the verified library:
  - `text.rs`: searching, splitting, joining and replacing in text, decimal numbers;
  - `pattern.rs`: the regular expressions the downloader searches pages with, and the
    trusted calls into the `regex` crate;
  - `cli.rs`: checking and reading the command line, and the addresses it leads to;
  - `track.rs`: a track's page, its cache folder and metadata line, segment and output
    file names, the tag text;
  - `audio.rs`: the steps that find and fetch a track's stream;
  - `playlist.rs`: the requests that resolve a playlist's track ids;
  - `logging.rs`, `schedule.rs`: log levels and how many downloads run at once.
- `app/` — the program: network requests (`reqwest`), files, the audio tool
  (`ffmpeg-sidecar`), ID3 tags (`id3`), threads and printing.
- `tests/` — tests of the library.
