use std::collections::VecDeque;

use radiocast::getter::{Error, Ext, Fs, YoutubeDl};
use radiocast::output::{
    frames_to_bytes, message_to_bytes, metadata_to_bytes, now_response, queue_preview,
    raw_payload, route, skip_curr_response, skip_next, Message, Route,
};
use radiocast::playlist::{seed_insert, SongMetadata};
use radiocast::runner::{batches_of, skip_requested, Control, Runner, BATCH_SIZE};
use radiocast::song::Mp3;

fn meta(title: &str, artist: &str) -> SongMetadata {
    SongMetadata {
        title: String::from(title),
        artist: String::from(artist),
        youtube_url: None,
    }
}

fn frame_bytes() -> Vec<u8> {
    let mut f = vec![0xff, 0xfb, 0x90, 0x00];
    f.extend(std::iter::repeat(0u8).take(413));
    f
}

fn track(title: &str, artist: &str, frames: usize) -> radiocast::song::Song {
    let mut data = Vec::new();
    for _ in 0..frames {
        data.extend(frame_bytes());
    }
    Mp3::load(meta(title, artist), data).unwrap()
}

#[test]
fn skip_propagation_s6() {
    let mut playlist = VecDeque::new();
    playlist.push_back(track("One", "A", 3));
    playlist.push_back(track("Two", "B", 2));
    let mut runner = Runner::new(playlist);
    let rx = runner.subscribe();

    // the producer starts the first track and publishes its announcement
    let song = runner.begin_track().unwrap();
    assert_eq!(song.metadata.title, "One");
    match &*rx.try_recv(&mut runner.sender).unwrap().unwrap().message() {
        Message::Next(m) => assert_eq!(m.title, "One"),
        Message::Frames(_) => panic!("expected a track change"),
    }

    // one batch goes out
    let frames = Mp3::frames(&song);
    let mut batches = batches_of(frames);
    let first = batches.remove(0);
    runner.emit_batch(first);
    match &*rx.try_recv(&mut runner.sender).unwrap().unwrap().message() {
        Message::Frames(f) => assert_eq!(f.len(), 3),
        Message::Next(_) => panic!("expected frames"),
    }

    // a skip command arrives during the pacing wait: the producer abandons
    // the rest of the track and appends it to the queue tail
    assert!(skip_requested(Some(Control::SkipCurr)));
    runner.finish_track(song);
    assert_eq!(runner.playlist.back().unwrap().metadata.title, "One");

    // the next publish is the next track's announcement, and its frames
    // belong to that track
    let song2 = runner.begin_track().unwrap();
    assert_eq!(song2.metadata.title, "Two");
    match &*rx.try_recv(&mut runner.sender).unwrap().unwrap().message() {
        Message::Next(m) => assert_eq!(m.title, "Two"),
        Message::Frames(_) => panic!("expected a track change"),
    }
    let frames2 = Mp3::frames(&song2);
    let n2 = frames2.len();
    for b in batches_of(frames2) {
        runner.emit_batch(b);
    }
    match &*rx.try_recv(&mut runner.sender).unwrap().unwrap().message() {
        Message::Frames(f) => assert_eq!(f.len(), n2),
        Message::Next(_) => panic!("expected frames"),
    }
}

#[test]
fn current_cache_follows_producer() {
    let mut playlist = VecDeque::new();
    playlist.push_back(track("One", "A", 2));
    let mut runner = Runner::new(playlist);
    assert!(runner.current.song.is_none());
    assert!(runner.current.chunk.is_none());
    let song = runner.begin_track().unwrap();
    assert_eq!(runner.current.song.as_ref().unwrap().title, "One");
    let frames = Mp3::frames(&song);
    let ticks = runner.emit_batch(frames);
    assert_eq!(ticks, 2 * 1152 * (radiocast::mp3::TICKS_PER_SECOND / 44_100));
    assert_eq!(runner.current.chunk.as_ref().unwrap().len(), 2);
    // an empty playlist ends the loop
    let mut empty = Runner::new(VecDeque::new());
    assert!(empty.begin_track().is_none());
}

#[test]
fn batching_rule() {
    let song = track("One", "A", 300);
    let frames = Mp3::frames(&song);
    let batches = batches_of(frames);
    assert_eq!(batches.len(), 3);
    assert_eq!(batches[0].len(), BATCH_SIZE);
    assert_eq!(batches[1].len(), BATCH_SIZE);
    assert_eq!(batches[2].len(), 300 - 2 * BATCH_SIZE);
    assert!(batches_of(Vec::new()).is_empty());
    assert!(!skip_requested(None));
}

#[test]
fn stream_metadata_framing() {
    let m = meta("Hi", "ab");
    let b = metadata_to_bytes(&m).unwrap();
    assert_eq!(
        b,
        vec![0, 2, b'H', b'i', 0, 2, b'a', b'b']
    );
    let msg = Message::Next(m);
    assert_eq!(message_to_bytes(&msg).unwrap(), b);
    // the raw transport drops track changes
    assert!(raw_payload(&msg).is_none());
}

#[test]
fn stream_frame_bytes() {
    let song = track("One", "A", 2);
    let frames = Mp3::frames(&song);
    let bytes = frames_to_bytes(&frames);
    assert_eq!(bytes.len(), 2 * 417);
    assert_eq!(&bytes[0..4], &[0xff, 0xfb, 0x90, 0x00]);
    assert_eq!(&bytes[417..421], &[0xff, 0xfb, 0x90, 0x00]);
    let msg = Message::Frames(frames);
    assert_eq!(message_to_bytes(&msg).unwrap(), bytes);
    assert_eq!(raw_payload(&msg).unwrap(), bytes);
}

#[test]
fn route_table() {
    assert_eq!(route("/"), Route::App);
    assert_eq!(route("/queue"), Route::Queue);
    assert_eq!(route("/stream"), Route::Stream);
    assert_eq!(route("/skip/next"), Route::SkipNext);
    assert_eq!(route("/skip/curr"), Route::SkipCurr);
    assert_eq!(route("/now"), Route::Now);
    assert_eq!(route("/nope"), Route::NotFound);
    assert_eq!(route(""), Route::NotFound);
}

#[test]
fn now_and_queue_responses() {
    let (code, body) = now_response(&None);
    assert_eq!(code, 400);
    assert_eq!(body, b"not playing");
    let (code, body) = now_response(&Some(meta("Hi", "ab")));
    assert_eq!(code, 200);
    assert_eq!(body, b"Hi\nab");

    let mut q = VecDeque::new();
    for i in 0..7 {
        q.push_back(track(&format!("t{}", i), "a", 1));
    }
    let body = queue_preview(&q);
    assert_eq!(body, b"a\nt0\na\nt1\na\nt2\na\nt3\na\nt4\n");

    let (code, body) = skip_next(&mut q);
    assert_eq!((code, body.as_slice()), (200, b"OK".as_slice()));
    assert_eq!(q.len(), 6);
    q.clear();
    let (code, body) = skip_next(&mut q);
    assert_eq!((code, body.as_slice()), (400, b"Empty".as_slice()));

    let (code, body) = skip_curr_response();
    assert_eq!((code, body.as_slice()), (200, b"OK".as_slice()));
}

#[test]
fn seeding_rule() {
    let mut q = VecDeque::new();
    seed_insert(&mut q, meta("a", "x"), 0); // 0: back
    seed_insert(&mut q, meta("b", "x"), 1); // 1: front
    seed_insert(&mut q, meta("c", "x"), 2); // 2: back
    let titles: Vec<&str> = q.iter().map(|m| m.title.as_str()).collect();
    assert_eq!(titles, vec!["b", "a", "c"]);
}

#[test]
fn media_paths_and_getter_args() {
    let fs = Fs::new(String::from("media"), Ext::Mp3);
    let m = meta("Song", "Artist");
    assert_eq!(fs.path(&m), "media/Artist/Song.mp3");
    assert_eq!(fs.path_with_ext(&m, "dl"), "media/Artist/Song.dl");

    let dl = YoutubeDl {
        executable: String::from("/usr/bin/yt-dlp"),
        ffmpeg: String::from("/usr/bin/ffmpeg"),
        fs: None,
    };
    assert_eq!(dl.can_get(&m), Some(false));
    let mut hinted = meta("Song", "Artist");
    hinted.youtube_url = Some(String::from("https://example.com/v"));
    assert_eq!(dl.can_get(&hinted), Some(true));
    let args = dl.download_args(&hinted, "media/Artist/Song.dl");
    assert_eq!(
        args,
        vec!["https://example.com/v", "-f", "bestaudio", "-o", "media/Artist/Song.dl"]
    );
    let targs = dl.transcode_args("media/Artist/Song.dl", "media/Artist/Song.mp3");
    assert_eq!(targs, vec!["-i", "media/Artist/Song.dl", "media/Artist/Song.mp3"]);
    let sargs = dl.download_stdout_args(&hinted);
    assert_eq!(sargs, vec!["https://example.com/v", "-f", "bestaudio", "-o", "-"]);

    assert_eq!(Error::success(Ok(true), Error::Download), Ok(()));
    assert_eq!(Error::success(Ok(false), Error::Download), Err(Error::Download));
    assert_eq!(Error::success(Ok(false), Error::Transcode), Err(Error::Transcode));
    assert_eq!(Error::success(Err(Error::Io), Error::Download), Err(Error::Io));
}
