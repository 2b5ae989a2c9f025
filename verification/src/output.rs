//! Byte-level framing of bus messages for the two transports, the HTTP
//! route table, and the bodies of the small control responses.

use std::collections::VecDeque;
use vstd::prelude::*;

use crate::mp3::{lemma_frames_push, spec_frames_bytes, Frame};
use crate::playlist::SongMetadata;
use crate::song::Song;

verus! {

use vstd::string::StrSliceExecFns;
use vstd::string::StringSliceAdditionalSpecFns;
use vstd::utf8::encode_utf8;

/// One message on the broadcast bus: the start of a new track, or a batch
/// of its audio frames.
#[derive(Debug)]
pub enum Message {
    Next(SongMetadata),
    Frames(Vec<Frame>),
}

/// Big-endian bytes of a 16-bit length.
pub open spec fn spec_be16(n: int) -> Seq<u8> {
    seq![(n / 256) as u8, (n % 256) as u8]
}

/// Metadata framing used inside the HTTP stream body: length-prefixed
/// title bytes, then length-prefixed artist bytes.
pub open spec fn spec_meta_bytes(tb: Seq<u8>, ab: Seq<u8>) -> Seq<u8> {
    spec_be16(tb.len() as int) + tb + spec_be16(ab.len() as int) + ab
}

/// Serializes track metadata for the stream body; `None` when a field's
/// UTF-8 form does not fit its 16-bit length prefix.
pub fn metadata_to_bytes(song: &SongMetadata) -> (r: Option<Vec<u8>>)
    ensures
        match r {
            Some(v) => {
                &&& encode_utf8(song.title@).len() <= 65535
                &&& encode_utf8(song.artist@).len() <= 65535
                &&& v@ == spec_meta_bytes(encode_utf8(song.title@), encode_utf8(song.artist@))
            },
            None => encode_utf8(song.title@).len() > 65535 || encode_utf8(song.artist@).len()
                > 65535,
        },
{
    let mut tb = song.title.as_str().as_bytes_vec();
    let mut ab = song.artist.as_str().as_bytes_vec();
    if tb.len() > 65535 || ab.len() > 65535 {
        return None;
    }
    let mut out: Vec<u8> = Vec::new();
    let tl = tb.len();
    out.push((tl / 256) as u8);
    out.push((tl % 256) as u8);
    out.append(&mut tb);
    let al = ab.len();
    out.push((al / 256) as u8);
    out.push((al % 256) as u8);
    out.append(&mut ab);
    proof {
        assert(out@ =~= spec_meta_bytes(encode_utf8(song.title@), encode_utf8(song.artist@)));
    }
    Some(out)
}

/// Concatenates the raw bytes of a batch of frames, each frame's header
/// followed by its payload.
pub fn frames_to_bytes(frames: &Vec<Frame>) -> (r: Vec<u8>)
    ensures
        r@ == spec_frames_bytes(frames@),
{
    let mut out: Vec<u8> = Vec::new();
    proof {
        assert(spec_frames_bytes(frames@.take(0)) =~= Seq::<u8>::empty());
        assert(frames@.take(0) =~= Seq::<Frame>::empty());
    }
    let mut i: usize = 0;
    while i < frames.len()
        invariant
            i <= frames@.len(),
            out@ == spec_frames_bytes(frames@.take(i as int)),
        decreases frames@.len() - i,
    {
        let h = frames[i].header.as_array();
        out.push(h[0]);
        out.push(h[1]);
        out.push(h[2]);
        out.push(h[3]);
        let mut j: usize = 0;
        let ghost mid = out@;
        while j < frames[i].data.len()
            invariant
                j <= frames@[i as int].data@.len(),
                i < frames@.len(),
                out@ == mid + frames@[i as int].data@.subrange(0, j as int),
            decreases frames@[i as int].data@.len() - j,
        {
            out.push(frames[i].data[j]);
            j += 1;
        }
        proof {
            lemma_frames_push(frames@.take(i as int), frames@[i as int]);
            assert(frames@.take(i as int).push(frames@[i as int]) =~= frames@.take(i + 1));
            assert(out@ =~= spec_frames_bytes(frames@.take(i + 1)));
        }
        i += 1;
    }
    proof {
        assert(frames@.take(frames@.len() as int) =~= frames@);
    }
    out
}

/// The bytes a message contributes to the HTTP stream body: framed
/// metadata for a track change, raw frame bytes for audio.
pub fn message_to_bytes(msg: &Message) -> (r: Option<Vec<u8>>)
    ensures
        match msg {
            Message::Next(m) => (match r {
                Some(v) => v@ == spec_meta_bytes(encode_utf8(m.title@), encode_utf8(m.artist@)),
                None => encode_utf8(m.title@).len() > 65535 || encode_utf8(m.artist@).len()
                    > 65535,
            }),
            Message::Frames(f) => r matches Some(v) && v@ == spec_frames_bytes(f@),
        },
{
    match msg {
        Message::Next(m) => metadata_to_bytes(m),
        Message::Frames(f) => Some(frames_to_bytes(f)),
    }
}

/// The bytes a message contributes to the raw TCP stream: frame bytes
/// only — metadata is never sent mid-stream on that transport.
pub fn raw_payload(msg: &Message) -> (r: Option<Vec<u8>>)
    ensures
        match msg {
            Message::Next(_) => r is None,
            Message::Frames(f) => r matches Some(v) && v@ == spec_frames_bytes(f@),
        },
{
    match msg {
        Message::Next(_) => None,
        Message::Frames(f) => Some(frames_to_bytes(f)),
    }
}


/// The routes the HTTP server serves.
#[derive(Debug, Clone, Copy, PartialEq, Eq, Structural)]
pub enum Route {
    App,
    Queue,
    Stream,
    SkipNext,
    SkipCurr,
    Now,
    NotFound,
}

/// The route a request path selects, decided on the path's UTF-8 bytes.
pub open spec fn spec_route(b: Seq<u8>) -> Route {
    if b == "/"@.map_values(|c: char| c as u8) {
        Route::App
    } else if b == "/queue"@.map_values(|c: char| c as u8) {
        Route::Queue
    } else if b == "/stream"@.map_values(|c: char| c as u8) {
        Route::Stream
    } else if b == "/skip/next"@.map_values(|c: char| c as u8) {
        Route::SkipNext
    } else if b == "/skip/curr"@.map_values(|c: char| c as u8) {
        Route::SkipCurr
    } else if b == "/now"@.map_values(|c: char| c as u8) {
        Route::Now
    } else {
        Route::NotFound
    }
}

/// Two byte vectors hold the same bytes.
pub(crate) fn bytes_eq(a: &Vec<u8>, b: &Vec<u8>) -> (r: bool)
    ensures
        r == (a@ == b@),
{
    if a.len() != b.len() {
        proof {
            assert(a@ != b@);
        }
        return false;
    }
    let mut i: usize = 0;
    while i < a.len()
        invariant
            i <= a@.len(),
            a@.len() == b@.len(),
            forall|k: int| 0 <= k < i ==> a@[k] == b@[k],
        decreases a@.len() - i,
    {
        if a[i] != b[i] {
            proof {
                assert(a@[i as int] != b@[i as int]);
            }
            return false;
        }
        i += 1;
    }
    proof {
        assert(a@ =~= b@);
    }
    true
}

/// Dispatches a request path to its route.
pub fn route(path: &str) -> (r: Route)
    ensures
        r == spec_route(path.spec_bytes()),
{
    let pb = path.as_bytes_vec();
    proof {
        reveal_strlit("/");
        reveal_strlit("/queue");
        reveal_strlit("/stream");
        reveal_strlit("/skip/next");
        reveal_strlit("/skip/curr");
        reveal_strlit("/now");
    }
    let c0 = "/".as_bytes_vec();
    proof {
        lemma_ascii_bytes("/");
    }
    if bytes_eq(&pb, &c0) {
        return Route::App;
    }
    let c1 = "/queue".as_bytes_vec();
    proof {
        lemma_ascii_bytes("/queue");
    }
    if bytes_eq(&pb, &c1) {
        return Route::Queue;
    }
    let c2 = "/stream".as_bytes_vec();
    proof {
        lemma_ascii_bytes("/stream");
    }
    if bytes_eq(&pb, &c2) {
        return Route::Stream;
    }
    let c3 = "/skip/next".as_bytes_vec();
    proof {
        lemma_ascii_bytes("/skip/next");
    }
    if bytes_eq(&pb, &c3) {
        return Route::SkipNext;
    }
    let c4 = "/skip/curr".as_bytes_vec();
    proof {
        lemma_ascii_bytes("/skip/curr");
    }
    if bytes_eq(&pb, &c4) {
        return Route::SkipCurr;
    }
    let c5 = "/now".as_bytes_vec();
    proof {
        lemma_ascii_bytes("/now");
    }
    if bytes_eq(&pb, &c5) {
        return Route::Now;
    }
    Route::NotFound
}

/// For an ASCII string, its UTF-8 bytes are its characters, byte for byte.
proof fn lemma_ascii_bytes(s: &str)
    requires
        vstd::string::is_ascii(s),
    ensures
        s.spec_bytes() == s@.map_values(|c: char| c as u8),
{
    broadcast use vstd::string::is_ascii_spec_bytes;

    assert(s.spec_bytes() =~= s@.map_values(|c: char| c as u8));
}


/// Body of the now-playing response: title, a newline, artist.
pub open spec fn spec_now_body(m: SongMetadata) -> Seq<u8> {
    encode_utf8(m.title@) + seq![0x0au8] + encode_utf8(m.artist@)
}

/// The now-playing response: 200 with "title\nartist" while a track
/// plays, 400 with "not playing" otherwise.
pub fn now_response(current: &Option<SongMetadata>) -> (r: (u16, Vec<u8>))
    ensures
        match current {
            Some(m) => r.0 == 200 && r.1@ == spec_now_body(*m),
            None => r.0 == 400 && r.1@ == "not playing".spec_bytes(),
        },
{
    match current {
        Some(m) => {
            let mut out = m.title.as_str().as_bytes_vec();
            out.push(0x0a);
            let mut ab = m.artist.as_str().as_bytes_vec();
            out.append(&mut ab);
            proof {
                assert(out@ =~= spec_now_body(*m));
            }
            (200, out)
        },
        None => (400, "not playing".as_bytes_vec()),
    }
}

/// One line pair of the queue preview: artist, newline, title, newline.
pub open spec fn spec_queue_line(m: SongMetadata) -> Seq<u8> {
    encode_utf8(m.artist@) + seq![0x0au8] + encode_utf8(m.title@) + seq![0x0au8]
}

/// The queue-preview body for the tracks at indices `from` to `to`.
pub open spec fn spec_preview(q: Seq<Song>, from: int, to: int) -> Seq<u8>
    decreases to - from,
{
    if from >= to {
        Seq::empty()
    } else {
        spec_queue_line(q[from].metadata) + spec_preview(q, from + 1, to)
    }
}

/// Extending the preview range by one appends that track's line.
proof fn lemma_preview_snoc(q: Seq<Song>, from: int, to: int)
    requires
        from <= to,
    ensures
        spec_preview(q, from, to + 1) == spec_preview(q, from, to) + spec_queue_line(
            q[to].metadata,
        ),
    decreases to - from,
{
    if from >= to {
        assert(spec_preview(q, from + 1, from + 1) =~= Seq::<u8>::empty());
        assert(spec_preview(q, from, to + 1) =~= spec_preview(q, from, to) + spec_queue_line(
            q[to].metadata,
        ));
    } else {
        lemma_preview_snoc(q, from + 1, to);
        assert(spec_preview(q, from, to + 1) =~= spec_preview(q, from, to) + spec_queue_line(
            q[to].metadata,
        ));
    }
}

/// The queue-preview body: one "artist\ntitle\n" pair for each of the
/// first five queued tracks.
pub fn queue_preview(playlist: &VecDeque<Song>) -> (r: Vec<u8>)
    ensures
        r@ == spec_preview(playlist@, 0, if playlist@.len() < 5 { playlist@.len() as int } else { 5 }),
{
    let count = if playlist.len() < 5 {
        playlist.len()
    } else {
        5
    };
    let mut out: Vec<u8> = Vec::new();
    let mut i: usize = 0;
    while i < count
        invariant
            i <= count,
            count <= playlist@.len(),
            count == if playlist@.len() < 5 { playlist@.len() as int } else { 5 },
            out@ == spec_preview(playlist@, 0, i as int),
        decreases count - i,
    {
        let ghost before = out@;
        let mut ab = playlist[i].metadata.artist.as_str().as_bytes_vec();
        out.append(&mut ab);
        out.push(0x0a);
        let mut tb = playlist[i].metadata.title.as_str().as_bytes_vec();
        out.append(&mut tb);
        out.push(0x0a);
        proof {
            assert(out@ =~= before + spec_queue_line(playlist@[i as int].metadata));
            lemma_preview_snoc(playlist@, 0, i as int);
        }
        i += 1;
    }
    out
}

/// The response to a skip-current-track request; the command itself goes
/// to the producer on the control channel.
pub fn skip_curr_response() -> (r: (u16, Vec<u8>))
    ensures
        r.0 == 200,
        r.1@ == "OK".spec_bytes(),
{
    (200, "OK".as_bytes_vec())
}

/// Serves a skip-to-next-track request: pops the queue head and reports
/// 200 "OK", or 400 "Empty" when nothing is queued.
pub fn skip_next(playlist: &mut VecDeque<Song>) -> (r: (u16, Vec<u8>))
    ensures
        old(playlist)@.len() == 0 ==> r.0 == 400 && r.1@ == "Empty".spec_bytes()
            && final(playlist)@ == old(playlist)@,
        old(playlist)@.len() > 0 ==> r.0 == 200 && r.1@ == "OK".spec_bytes() && final(playlist)@
            == old(playlist)@.subrange(1, old(playlist)@.len() as int),
{
    match playlist.pop_front() {
        Some(_) => (200, "OK".as_bytes_vec()),
        None => (400, "Empty".as_bytes_vec()),
    }
}

} // verus!
