//! Core of an internet-radio server.
//!
//! The verified heart is a single-producer broadcast bus with no replay and
//! automatic reclamation (`bus`), an ID3v2 tag codec with a proved
//! round-trip (`id3`), an MPEG audio frame codec with exact integer frame
//! sizes and durations (`mp3`, `song`), and the producer that paces frame
//! batches out to listeners (`runner`).  Around them stand the byte-level
//! transport framing and HTTP responses (`output`, `m3u`), the media store
//! layout and downloader commands (`getter`), and the playlist seeding and
//! scraper session state (`playlist`, `lastfm`).

pub mod bus;
pub mod getter;
pub mod id3;
pub mod lastfm;
pub mod m3u;
pub mod mp3;
pub mod output;
pub mod playlist;
pub mod runner;
pub mod song;
