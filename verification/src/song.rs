//! A loaded track: its metadata, raw bytes, and exact total duration,
//! computed by the MPEG codec when the track is loaded.

use vstd::prelude::*;

use crate::id3;
use crate::mp3::{
    find_sync, frames_parseable, parse_frames, region_ticks, spec_frames_bytes, sum_sizes,
    sum_ticks, total_ticks, AudioError, Frame, frame_wf,
};
use crate::playlist::SongMetadata;

verus! {

/// The MPEG audio codec marker.
#[derive(Debug)]
pub struct Mp3;

/// Index where the audio frames of a track's bytes begin: past the leading
/// ID3v2 tag, at the first 0xFF byte.
pub open spec fn spec_audio_start(s: Seq<u8>) -> int {
    crate::mp3::spec_sync_pos(s, id3::spec_tag_len(s) as nat) as int
}

/// The byte region of a track that holds its audio frames.
pub open spec fn spec_audio_region(s: Seq<u8>) -> Seq<u8> {
    s.subrange(spec_audio_start(s), s.len() as int)
}

/// A track ready to play.
#[derive(Debug)]
pub struct Song {
    pub metadata: SongMetadata,
    pub data: Vec<u8>,
    /// Total duration in ticks of 1 / `TICKS_PER_SECOND` second: the exact
    /// sum of the durations of the track's frames.
    pub duration_ticks: u128,
    pub codec: Mp3,
}

impl Song {
    /// The track's bytes hold a whole ID3v2 tag (if any), its audio region
    /// splits into valid frames, and the stored duration is that region's
    /// total duration.
    pub open spec fn wf(self) -> bool {
        &&& id3::spec_tag_len(self.data@) <= self.data@.len()
        &&& frames_parseable(spec_audio_region(self.data@))
        &&& self.duration_ticks == region_ticks(spec_audio_region(self.data@))
    }
}

impl Mp3 {
    /// Loads a track from its raw bytes: skips the ID3v2 tag, scans to the
    /// first sync byte, checks that the rest splits into valid MPEG frames,
    /// and sums their exact durations.  Fails exactly when the declared tag
    /// runs past the data or the audio region does not split into frames.
    pub fn load(metadata: SongMetadata, data: Vec<u8>) -> (r: Result<Song, AudioError>)
        ensures
            r is Ok <==> (id3::spec_tag_len(data@) <= data@.len() && frames_parseable(
                spec_audio_region(data@),
            )),
            match r {
                Ok(song) => {
                    &&& song.metadata == metadata
                    &&& song.data@ == data@
                    &&& song.wf()
                    &&& song.duration_ticks == region_ticks(spec_audio_region(data@))
                },
                Err(e) => e == AudioError::Malformed,
            },
    {
        let skip = id3::tag_len(&data);
        if skip > data.len() {
            return Err(AudioError::Malformed);
        }
        let start = find_sync(&data, skip);
        proof {
            assert(spec_audio_region(data@) =~= data@.subrange(start as int, data@.len() as int));
        }
        match parse_frames(&data, start) {
            Ok((frames, _trailing)) => {
                let t = total_ticks(&frames);
                Ok(Song { metadata, data, duration_ticks: t, codec: Mp3 })
            },
            Err(_) => Err(AudioError::Malformed),
        }
    }

    /// Cuts a loaded track's audio region into its frames, in order.  The
    /// frames tile the region exactly — their sizes plus the audio start
    /// reach to at most three bytes short of the end of the data (frame
    /// boundary property) — and their durations sum to the region's total.
    pub fn frames(song: &Song) -> (fs: Vec<Frame>)
        requires
            song.wf(),
        ensures
            forall|i: int| 0 <= i < fs@.len() ==> frame_wf(#[trigger] fs@[i]),
            sum_ticks(fs@) == region_ticks(spec_audio_region(song.data@)),
            spec_audio_start(song.data@) + sum_sizes(fs@) <= song.data@.len()
                <= spec_audio_start(song.data@) + sum_sizes(fs@) + 3,
            spec_frames_bytes(fs@) == song.data@.subrange(
                spec_audio_start(song.data@),
                spec_audio_start(song.data@) + sum_sizes(fs@),
            ),
    {
        let skip = id3::tag_len(&song.data);
        let start = find_sync(&song.data, skip);
        proof {
            assert(spec_audio_region(song.data@) =~= song.data@.subrange(
                start as int,
                song.data@.len() as int,
            ));
        }
        match parse_frames(&song.data, start) {
            Ok((fs, trailing)) => {
                proof {
                    assert(song.data@.subrange(
                        start as int,
                        song.data@.len() - trailing,
                    ) =~= song.data@.subrange(start as int, start + sum_sizes(fs@)));
                }
                fs
            },
            Err(_) => {
                proof {
                    assert(false);
                }
                Vec::new()
            },
        }
    }
}

/// Duration additivity: a well-formed track's total duration equals the sum
/// of the durations of the frames iterated from it.
pub proof fn lemma_duration_additivity(song: Song, fs: Seq<Frame>)
    requires
        song.wf(),
        sum_ticks(fs) == region_ticks(spec_audio_region(song.data@)),
    ensures
        song.duration_ticks == sum_ticks(fs),
{
}

} // verus!
