//! The logic of a downloader of tracks, playlists and artists' tracks from SoundCloud:
//! reading the command line, reading pages and stream descriptions, naming and
//! joining the downloaded segments, and the cache, each function with its contract.

pub mod text;
pub mod pattern;
pub mod cli;
pub mod track;
pub mod audio;
pub mod playlist;
pub mod logging;
pub mod schedule;
