//! The producer: pulls tracks off the playlist, publishes a track-change
//! message and then the track's frames in fixed-size batches on the
//! broadcast bus, keeps the current-state cache in step, and requeues each
//! track when it ends or is skipped.  The caller drives the loop and does
//! the waiting; every decision and every published value is made here.

use std::collections::VecDeque;
use vstd::prelude::*;

use crate::bus::{Receiver, Sender};
use crate::mp3::{frame_wf, sum_ticks, Frame};
use crate::output::Message;
use crate::playlist::SongMetadata;
use crate::song::Song;

verus! {

/// Number of frames published per batch.
pub const BATCH_SIZE: usize = 128;

/// A command for the producer, delivered on the control channel.
#[derive(Debug, Clone, Copy, PartialEq, Eq, Structural)]
pub enum Control {
    SkipCurr,
}

/// The producer abandons the current track exactly when a skip command
/// arrived while it was pacing a batch.
pub fn skip_requested(ctrl: Option<Control>) -> (r: bool)
    ensures
        r == (ctrl is Some),
{
    match ctrl {
        Some(Control::SkipCurr) => true,
        None => false,
    }
}

/// Snapshot of the playing state that new listeners prime their streams
/// from: the current track's metadata, the most recently published batch,
/// and a receiver positioned just past the most recent publish.
pub struct Current {
    pub song: Option<SongMetadata>,
    pub chunk: Option<Vec<Frame>>,
    pub tail: Receiver,
}

impl Current {
    /// An empty snapshot around the given subscription.
    pub fn new(tail: Receiver) -> (r: Current)
        ensures
            r.song is None,
            r.chunk is None,
            r.tail == tail,
    {
        Current { song: None, chunk: None, tail }
    }
}

/// An exact copy of a byte vector.
fn copy_bytes(v: &Vec<u8>) -> (r: Vec<u8>)
    ensures
        r@ == v@,
{
    let mut out: Vec<u8> = Vec::new();
    let mut i: usize = 0;
    while i < v.len()
        invariant
            i <= v@.len(),
            out@ == v@.subrange(0, i as int),
        decreases v@.len() - i,
    {
        out.push(v[i]);
        i += 1;
    }
    proof {
        assert(out@ =~= v@);
    }
    out
}

/// A copy of a batch of frames, frame for frame and byte for byte.
fn copy_frames(fs: &Vec<Frame>) -> (r: Vec<Frame>)
    ensures
        r@.len() == fs@.len(),
        forall|i: int|
            0 <= i < fs@.len() ==> (#[trigger] r@[i]).header == fs@[i].header && r@[i].data@
                == fs@[i].data@,
{
    let mut out: Vec<Frame> = Vec::new();
    let mut i: usize = 0;
    while i < fs.len()
        invariant
            i <= fs@.len(),
            out@.len() == i,
            forall|k: int|
                0 <= k < i ==> (#[trigger] out@[k]).header == fs@[k].header && out@[k].data@
                    == fs@[k].data@,
        decreases fs@.len() - i,
    {
        let f = Frame { header: fs[i].header, data: copy_bytes(&fs[i].data) };
        out.push(f);
        i += 1;
    }
    out
}

/// The frames of a sequence of batches, concatenated in order.
pub open spec fn spec_flatten(bs: Seq<Vec<Frame>>) -> Seq<Frame>
    decreases bs.len(),
{
    if bs.len() == 0 {
        Seq::empty()
    } else {
        bs[0]@ + spec_flatten(bs.skip(1))
    }
}

/// Appending a batch appends its frames.
proof fn lemma_flatten_push(bs: Seq<Vec<Frame>>, b: Vec<Frame>)
    ensures
        spec_flatten(bs.push(b)) == spec_flatten(bs) + b@,
    decreases bs.len(),
{
    if bs.len() == 0 {
        assert(bs.push(b).skip(1) =~= Seq::<Vec<Frame>>::empty());
        assert(spec_flatten(Seq::<Vec<Frame>>::empty()) == Seq::<Frame>::empty());
        assert(spec_flatten(bs.push(b)) =~= spec_flatten(bs) + b@);
    } else {
        assert(bs.push(b).skip(1) =~= bs.skip(1).push(b));
        lemma_flatten_push(bs.skip(1), b);
        assert(spec_flatten(bs.push(b)) =~= spec_flatten(bs) + b@);
    }
}

/// Splits a track's frames into publication batches: every batch holds
/// `BATCH_SIZE` frames except possibly the last, no batch is empty, and
/// together they are exactly the input in order.
pub fn batches_of(frames: Vec<Frame>) -> (r: Vec<Vec<Frame>>)
    ensures
        spec_flatten(r@) == frames@,
        forall|i: int| 0 <= i < r@.len() ==> 1 <= (#[trigger] r@[i])@.len() <= BATCH_SIZE,
        forall|i: int| 0 <= i < r@.len() - 1 ==> (#[trigger] r@[i])@.len() == BATCH_SIZE,
{
    let mut rest = frames;
    let mut out: Vec<Vec<Frame>> = Vec::new();
    let mut cur: Vec<Frame> = Vec::new();
    proof {
        assert(spec_flatten(Seq::<Vec<Frame>>::empty()) == Seq::<Frame>::empty());
        assert(spec_flatten(out@) + cur@ + rest@ =~= frames@);
    }
    while rest.len() > 0
        invariant
            spec_flatten(out@) + cur@ + rest@ == frames@,
            cur@.len() < BATCH_SIZE,
            forall|i: int| 0 <= i < out@.len() ==> (#[trigger] out@[i])@.len() == BATCH_SIZE,
        decreases rest@.len(),
    {
        let f = rest.remove(0);
        cur.push(f);
        proof {
            assert(spec_flatten(out@) + cur@ + rest@ =~= frames@);
        }
        if cur.len() == BATCH_SIZE {
            let ghost out_before = out@;
            out.push(cur);
            cur = Vec::new();
            proof {
                lemma_flatten_push(out_before, out@.last());
                assert(spec_flatten(out@) + cur@ + rest@ =~= frames@);
            }
        }
    }
    if cur.len() > 0 {
        let ghost out_before = out@;
        proof {
            lemma_flatten_push(out_before, cur);
        }
        out.push(cur);
        proof {
            assert(spec_flatten(out@) + rest@ =~= spec_flatten(out@));
            assert(spec_flatten(out@) =~= frames@);
        }
    } else {
        proof {
            assert(spec_flatten(out@) =~= frames@);
        }
    }
    out
}

/// The producer's whole state: the playlist it cycles through, the bus it
/// publishes on, and the current-state cache.
pub struct Runner {
    pub playlist: VecDeque<Song>,
    pub sender: Sender<Message>,
    pub current: Current,
}

impl Runner {
    /// The bus is sound and the cache's subscription template sits exactly
    /// at the most recent publish, so a listener primed from the cache and
    /// attached there sees neither a gap nor a duplicate.
    pub open spec fn wf(self) -> bool {
        &&& self.sender.wf()
        &&& self.sender.is_subscriber(self.current.tail)
        &&& self.sender.pending(self.current.tail).len() == 0
    }

    /// A producer over the given playlist, with a fresh bus and an empty
    /// cache.
    pub fn new(playlist: VecDeque<Song>) -> (r: Runner)
        ensures
            r.wf(),
            r.playlist@ == playlist@,
            r.sender.history().len() == 0,
            r.current.song is None,
            r.current.chunk is None,
    {
        let mut sender: Sender<Message> = Sender::new();
        let tail = sender.subscribe();
        Runner { playlist, sender, current: Current::new(tail) }
    }

    /// Registers a new listener, positioned to observe exactly the
    /// messages published after this call.
    pub fn subscribe(&mut self) -> (rx: Receiver)
        requires
            old(self).wf(),
            old(self).sender.num_receivers() < usize::MAX,
        ensures
            final(self).wf(),
            final(self).sender.is_subscriber(rx),
            final(self).sender.pending(rx).len() == 0,
            final(self).sender.history() == old(self).sender.history(),
            final(self).playlist == old(self).playlist,
            final(self).current.song == old(self).current.song,
            final(self).current.chunk == old(self).current.chunk,
    {
        self.sender.subscribe()
    }

    /// Starts the next track: pops it from the playlist, records its
    /// metadata in the cache, and only then publishes the track-change
    /// message.  Returns the track for the caller to stream, or `None`
    /// when the playlist is empty.
    pub fn begin_track(&mut self) -> (r: Option<Song>)
        requires
            old(self).wf(),
            old(self).sender.history().len() < usize::MAX,
        ensures
            final(self).wf(),
            match r {
                None => {
                    &&& old(self).playlist@.len() == 0
                    &&& final(self).playlist@ == old(self).playlist@
                    &&& final(self).sender.history() == old(self).sender.history()
                    &&& final(self).current.song == old(self).current.song
                    &&& final(self).current.chunk == old(self).current.chunk
                },
                Some(song) => {
                    &&& old(self).playlist@.len() > 0
                    &&& song == old(self).playlist@[0]
                    &&& final(self).playlist@ == old(self).playlist@.subrange(
                        1,
                        old(self).playlist@.len() as int,
                    )
                    &&& final(self).sender.history().len() == old(self).sender.history().len() + 1
                    &&& final(self).sender.history().subrange(
                        0,
                        old(self).sender.history().len() as int,
                    ) == old(self).sender.history()
                    &&& match final(self).sender.history().last() {
                        Message::Next(m) => m.title@ == song.metadata.title@ && m.artist@
                            == song.metadata.artist@ && (m.youtube_url is Some
                            <==> song.metadata.youtube_url is Some) && (song.metadata.youtube_url
                            is Some ==> m.youtube_url->0@ == song.metadata.youtube_url->0@),
                        Message::Frames(_) => false,
                    }
                    &&& match final(self).current.song {
                        Some(m) => m.title@ == song.metadata.title@ && m.artist@
                            == song.metadata.artist@ && (m.youtube_url is Some
                            <==> song.metadata.youtube_url is Some) && (song.metadata.youtube_url
                            is Some ==> m.youtube_url->0@ == song.metadata.youtube_url->0@),
                        None => false,
                    }
                    &&& final(self).current.chunk == old(self).current.chunk
                    &&& forall|r2: Receiver|
                        old(self).sender.is_subscriber(r2) && r2.slot()
                            != old(self).current.tail.slot() ==> final(self).sender.pending(r2)
                            == old(self).sender.pending(r2).push(
                            final(self).sender.history().last(),
                        )
                },
            },
    {
        match self.playlist.pop_front() {
            None => None,
            Some(song) => {
                self.current.song = Some(song.metadata.duplicate());
                let announced = song.metadata.duplicate();
                match self.sender.send(Message::Next(announced)) {
                    Ok(_) => {},
                    Err(_) => {
                        proof {
                            assert(false);
                        }
                    },
                }
                match self.current.tail.try_recv(&mut self.sender) {
                    Ok(_) => {},
                    Err(_) => {
                        proof {
                            assert(false);
                        }
                    },
                }
                Some(song)
            },
        }
    }

    /// Publishes one batch of frames: records it in the cache, then sends
    /// it on the bus, and returns the batch's exact audio duration in
    /// ticks, for which the caller paces before the next batch.
    pub fn emit_batch(&mut self, batch: Vec<Frame>) -> (t: u64)
        requires
            old(self).wf(),
            old(self).sender.history().len() < usize::MAX,
            batch@.len() <= BATCH_SIZE,
            forall|i: int| 0 <= i < batch@.len() ==> frame_wf(#[trigger] batch@[i]),
        ensures
            final(self).wf(),
            t == sum_ticks(batch@),
            final(self).sender.history() == old(self).sender.history().push(
                Message::Frames(batch),
            ),
            final(self).playlist == old(self).playlist,
            final(self).current.song == old(self).current.song,
            match final(self).current.chunk {
                Some(c) => c@.len() == batch@.len() && forall|i: int|
                    0 <= i < batch@.len() ==> (#[trigger] c@[i]).header == batch@[i].header
                        && c@[i].data@ == batch@[i].data@,
                None => false,
            },
            forall|r2: Receiver|
                old(self).sender.is_subscriber(r2) && r2.slot() != old(self).current.tail.slot()
                    ==> final(self).sender.pending(r2) == old(self).sender.pending(r2).push(
                    Message::Frames(batch),
                ),
    {
        let ghost batch0 = batch@;
        let mut t: u64 = 0;
        let mut i: usize = 0;
        proof {
            assert(batch@.take(0) =~= Seq::<Frame>::empty());
        }
        while i < batch.len()
            invariant
                i <= batch@.len(),
                batch@ == batch0,
                batch@.len() <= BATCH_SIZE,
                forall|k: int| 0 <= k < batch@.len() ==> frame_wf(#[trigger] batch@[k]),
                t == sum_ticks(batch@.take(i as int)),
                t <= 2_032_128 * i,
            decreases batch@.len() - i,
        {
            proof {
                crate::mp3::lemma_frames_push(batch@.take(i as int), batch@[i as int]);
                assert(batch@.take(i as int).push(batch@[i as int]) =~= batch@.take(i + 1));
            }
            let d = batch[i].header.duration_ticks();
            t = t + d;
            i += 1;
        }
        proof {
            assert(batch@.take(batch@.len() as int) =~= batch@);
        }
        let copy = copy_frames(&batch);
        self.current.chunk = Some(copy);
        match self.sender.send(Message::Frames(batch)) {
            Ok(_) => {},
            Err(_) => {
                proof {
                    assert(false);
                }
            },
        }
        match self.current.tail.try_recv(&mut self.sender) {
            Ok(_) => {},
            Err(_) => {
                proof {
                    assert(false);
                }
            },
        }
        t
    }

    /// Retires a listener whose connection has ended, so its cursor no
    /// longer holds message nodes back; the next publish reclaims whatever
    /// only it had yet to observe.
    pub fn unsubscribe(&mut self, rx: Receiver)
        requires
            old(self).wf(),
            old(self).sender.is_subscriber(rx),
            rx.slot() != old(self).current.tail.slot(),
        ensures
            final(self).wf(),
            final(self).sender.history() == old(self).sender.history(),
            final(self).playlist == old(self).playlist,
            final(self).current.song == old(self).current.song,
            final(self).current.chunk == old(self).current.chunk,
            forall|r2: Receiver| r2.slot() == rx.slot() ==> !final(self).sender.is_subscriber(r2),
    {
        self.sender.unsubscribe(rx);
    }

    /// Returns a finished or skipped track to the back of the playlist, so
    /// the queue cycles forever.
    pub fn finish_track(&mut self, song: Song)
        requires
            old(self).wf(),
        ensures
            final(self).wf(),
            final(self).playlist@ == old(self).playlist@.push(song),
            final(self).sender.history() == old(self).sender.history(),
            final(self).current.song == old(self).current.song,
            final(self).current.chunk == old(self).current.chunk,
    {
        self.playlist.push_back(song);
    }
}

} // verus!
