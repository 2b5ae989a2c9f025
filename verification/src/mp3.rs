//! MPEG audio frame codec: bit-field decoding of 4-byte frame headers,
//! the MPEG bitrate / sample-rate / samples-per-frame lookup tables, exact
//! frame sizes, exact per-frame durations in integer ticks, and a verified
//! scanner that cuts a byte region into frames.

use vstd::prelude::*;

verus! {

use vstd::arithmetic::div_mod::{lemma_div_is_ordered, lemma_div_is_ordered_by_denominator};

/// Ticks per second for exact frame durations: the least common multiple of
/// every MPEG sample rate, so each frame's duration in seconds,
/// `samples / rate`, is a whole number of ticks.
pub const TICKS_PER_SECOND: u64 = 14_112_000;

/// MPEG version read from a frame header.
#[derive(Debug, Clone, Copy, PartialEq, Eq, Structural)]
pub enum Version {
    V1,
    V2,
    V2_5,
}

/// MPEG layer read from a frame header.
#[derive(Debug, Clone, Copy, PartialEq, Eq, Structural)]
pub enum Layer {
    L1,
    L2,
    L3,
}

/// The MPEG bitrate table, in kb/s, for a version/layer pair and a bitrate
/// index between 1 and 14.
pub open spec fn spec_bitrate_kbps(ver: Version, layer: Layer, idx: u8) -> i64 {
    match (ver, layer) {
        (Version::V1, Layer::L1) => { if idx == 1 { 32 } else if idx == 2 { 64 } else if idx == 3 { 96 } else if idx == 4 { 128 } else if idx == 5 { 160 } else if idx == 6 { 192 } else if idx == 7 { 224 } else if idx == 8 { 256 } else if idx == 9 { 288 } else if idx == 10 { 320 } else if idx == 11 { 352 } else if idx == 12 { 384 } else if idx == 13 { 416 } else { 448 } },
        (Version::V1, Layer::L2) => { if idx == 1 { 32 } else if idx == 2 { 48 } else if idx == 3 { 56 } else if idx == 4 { 64 } else if idx == 5 { 80 } else if idx == 6 { 96 } else if idx == 7 { 112 } else if idx == 8 { 128 } else if idx == 9 { 160 } else if idx == 10 { 192 } else if idx == 11 { 224 } else if idx == 12 { 256 } else if idx == 13 { 320 } else { 384 } },
        (Version::V1, Layer::L3) => { if idx == 1 { 32 } else if idx == 2 { 40 } else if idx == 3 { 48 } else if idx == 4 { 56 } else if idx == 5 { 64 } else if idx == 6 { 80 } else if idx == 7 { 96 } else if idx == 8 { 112 } else if idx == 9 { 128 } else if idx == 10 { 160 } else if idx == 11 { 192 } else if idx == 12 { 224 } else if idx == 13 { 256 } else { 320 } },
        (Version::V2, Layer::L1) | (Version::V2_5, Layer::L1) => { if idx == 1 { 32 } else if idx == 2 { 48 } else if idx == 3 { 56 } else if idx == 4 { 64 } else if idx == 5 { 80 } else if idx == 6 { 96 } else if idx == 7 { 112 } else if idx == 8 { 128 } else if idx == 9 { 144 } else if idx == 10 { 160 } else if idx == 11 { 176 } else if idx == 12 { 192 } else if idx == 13 { 224 } else { 256 } },
        (Version::V2, Layer::L2) | (Version::V2_5, Layer::L2) | (Version::V2, Layer::L3) | (Version::V2_5, Layer::L3) => { if idx == 1 { 8 } else if idx == 2 { 16 } else if idx == 3 { 24 } else if idx == 4 { 32 } else if idx == 5 { 40 } else if idx == 6 { 48 } else if idx == 7 { 56 } else if idx == 8 { 64 } else if idx == 9 { 80 } else if idx == 10 { 96 } else if idx == 11 { 112 } else if idx == 12 { 128 } else if idx == 13 { 144 } else { 160 } },
    }
}

/// The MPEG sample-rate table, in Hz, for a sample index between 0 and 2.
pub open spec fn spec_sample_rate_hz(ver: Version, idx: u8) -> i64 {
    match ver {
        Version::V1 => { if idx == 0 { 44100 } else if idx == 1 { 48000 } else { 32000 } },
        Version::V2 => { if idx == 0 { 22050 } else if idx == 1 { 24000 } else { 16000 } },
        Version::V2_5 => { if idx == 0 { 11025 } else if idx == 1 { 12000 } else { 8000 } },
    }
}

/// Samples per frame for a version/layer pair.
pub open spec fn spec_samples(ver: Version, layer: Layer) -> i64 {
    match (ver, layer) {
        (Version::V1, Layer::L1) => 384,
        (Version::V1, Layer::L2) | (Version::V1, Layer::L3) => 1152,
        (Version::V2, Layer::L1) | (Version::V2_5, Layer::L1) => 384,
        (Version::V2, Layer::L2) | (Version::V2_5, Layer::L2) => 1152,
        (Version::V2, Layer::L3) | (Version::V2_5, Layer::L3) => 576,
    }
}

/// Bitrate in kb/s for the given version, layer and bitrate index.
pub fn get_bitrate(ver: Version, layer: Layer, bitrate_idx: u8) -> (r: i64)
    requires
        1 <= bitrate_idx <= 14,
    ensures
        r == spec_bitrate_kbps(ver, layer, bitrate_idx),
        8 <= r <= 448,
        layer == Layer::L1 ==> r >= 32,
{
    match (ver, layer) {
        (Version::V1, Layer::L1) => {
            match bitrate_idx {
                1 => 32,
                2 => 64,
                3 => 96,
                4 => 128,
                5 => 160,
                6 => 192,
                7 => 224,
                8 => 256,
                9 => 288,
                10 => 320,
                11 => 352,
                12 => 384,
                13 => 416,
                _ => 448,
            }
        },
        (Version::V1, Layer::L2) => {
            match bitrate_idx {
                1 => 32,
                2 => 48,
                3 => 56,
                4 => 64,
                5 => 80,
                6 => 96,
                7 => 112,
                8 => 128,
                9 => 160,
                10 => 192,
                11 => 224,
                12 => 256,
                13 => 320,
                _ => 384,
            }
        },
        (Version::V1, Layer::L3) => {
            match bitrate_idx {
                1 => 32,
                2 => 40,
                3 => 48,
                4 => 56,
                5 => 64,
                6 => 80,
                7 => 96,
                8 => 112,
                9 => 128,
                10 => 160,
                11 => 192,
                12 => 224,
                13 => 256,
                _ => 320,
            }
        },
        (Version::V2, Layer::L1) | (Version::V2_5, Layer::L1) => {
            match bitrate_idx {
                1 => 32,
                2 => 48,
                3 => 56,
                4 => 64,
                5 => 80,
                6 => 96,
                7 => 112,
                8 => 128,
                9 => 144,
                10 => 160,
                11 => 176,
                12 => 192,
                13 => 224,
                _ => 256,
            }
        },
        (Version::V2, Layer::L2) | (Version::V2_5, Layer::L2) | (Version::V2, Layer::L3) | (Version::V2_5, Layer::L3) => {
            match bitrate_idx {
                1 => 8,
                2 => 16,
                3 => 24,
                4 => 32,
                5 => 40,
                6 => 48,
                7 => 56,
                8 => 64,
                9 => 80,
                10 => 96,
                11 => 112,
                12 => 128,
                13 => 144,
                _ => 160,
            }
        },
    }
}

/// Sample rate in Hz for the given version and sample index.
pub fn get_sample_rate(ver: Version, sample_idx: u8) -> (r: i64)
    requires
        sample_idx <= 2,
    ensures
        r == spec_sample_rate_hz(ver, sample_idx),
        8000 <= r <= 48000,
{
    match ver {
        Version::V1 => {
            match sample_idx {
                0 => 44100,
                1 => 48000,
                _ => 32000,
            }
        },
        Version::V2 => {
            match sample_idx {
                0 => 22050,
                1 => 24000,
                _ => 16000,
            }
        },
        Version::V2_5 => {
            match sample_idx {
                0 => 11025,
                1 => 12000,
                _ => 8000,
            }
        },
    }
}

/// Samples per frame for the given version and layer.
pub fn get_samples_per_frame(version: Version, layer: Layer) -> (r: i64)
    ensures
        r == spec_samples(version, layer),
        384 <= r <= 1152,
{
    match (version, layer) {
        (Version::V1, Layer::L1) => 384,
        (Version::V1, Layer::L2) | (Version::V1, Layer::L3) => 1152,
        (Version::V2, Layer::L1) | (Version::V2_5, Layer::L1) => 384,
        (Version::V2, Layer::L2) | (Version::V2_5, Layer::L2) => 1152,
        (Version::V2, Layer::L3) | (Version::V2_5, Layer::L3) => 576,
    }
}


/// Sync word: the first byte is 0xFF and the top three bits of the second
/// byte are set.
pub open spec fn spec_sync(b0: u8, b1: u8) -> bool {
    b0 == 0xff && (b1 & 0xe0) == 0xe0
}

/// The two version bits of the second header byte (1 is reserved).
pub open spec fn spec_version_bits(b1: u8) -> u8 {
    (b1 >> 3) & 3
}

/// The two layer bits of the second header byte (0 is reserved).
pub open spec fn spec_layer_bits(b1: u8) -> u8 {
    (b1 >> 1) & 3
}

/// Version encoded by the second header byte; meaningful when the version
/// bits are not the reserved value 1.
pub open spec fn spec_version_of(b1: u8) -> Version {
    if spec_version_bits(b1) == 3 {
        Version::V1
    } else if spec_version_bits(b1) == 2 {
        Version::V2
    } else {
        Version::V2_5
    }
}

/// Layer encoded by the second header byte; meaningful when the layer bits
/// are not the reserved value 0.
pub open spec fn spec_layer_of(b1: u8) -> Layer {
    if spec_layer_bits(b1) == 3 {
        Layer::L1
    } else if spec_layer_bits(b1) == 2 {
        Layer::L2
    } else {
        Layer::L3
    }
}

/// Bitrate index: the top four bits of the third header byte.
pub open spec fn spec_bitrate_idx(b2: u8) -> u8 {
    b2 >> 4
}

/// Sample-rate index: bits 2 and 3 of the third header byte.
pub open spec fn spec_sample_idx(b2: u8) -> u8 {
    (b2 >> 2) & 3
}

/// Padding bit of the third header byte.
pub open spec fn spec_padding(b2: u8) -> bool {
    b2 & 2 == 2
}

/// A header is valid when its sync word is present and none of its fields
/// holds a reserved value.
pub open spec fn spec_hdr_valid(b0: u8, b1: u8, b2: u8) -> bool {
    &&& spec_sync(b0, b1)
    &&& spec_version_bits(b1) != 1
    &&& spec_layer_bits(b1) != 0
    &&& 1 <= spec_bitrate_idx(b2) <= 14
    &&& spec_sample_idx(b2) <= 2
}

/// Bitrate in bits per second encoded by a header.
pub open spec fn spec_bps(b1: u8, b2: u8) -> int {
    spec_bitrate_kbps(spec_version_of(b1), spec_layer_of(b1), spec_bitrate_idx(b2)) * 1000
}

/// Sample rate in Hz encoded by a header.
pub open spec fn spec_rate(b1: u8, b2: u8) -> int {
    spec_sample_rate_hz(spec_version_of(b1), spec_sample_idx(b2)) as int
}

/// Whole frame size in bytes, header included, encoded by a header.
pub open spec fn spec_frame_size(b1: u8, b2: u8) -> int {
    let pad: int = if spec_padding(b2) { 1 } else { 0 };
    if spec_layer_of(b1) == Layer::L1 {
        4 * (12 * spec_bps(b1, b2) / spec_rate(b1, b2) + pad)
    } else {
        144 * spec_bps(b1, b2) / spec_rate(b1, b2) + pad
    }
}

/// Frame duration in ticks: samples per frame times ticks per sample.  The
/// sample rate divides `TICKS_PER_SECOND` exactly, so this equals
/// `samples / rate` seconds exactly.
pub open spec fn spec_ticks(b1: u8, b2: u8) -> int {
    spec_samples(spec_version_of(b1), spec_layer_of(b1)) * (TICKS_PER_SECOND as int / spec_rate(
        b1,
        b2,
    ))
}

/// A 4-byte MPEG audio frame header.
///
/// Byte 0 and the top of byte 1 hold the sync word; byte 1 also holds the
/// version and layer bits; byte 2 holds the bitrate index, sample-rate index
/// and padding bit.
#[derive(Debug, Clone, Copy)]
pub struct Header([u8; 4]);

impl Header {
    /// The four raw header bytes.
    pub closed spec fn bytes(self) -> Seq<u8> {
        self.0@
    }

    /// All bit fields hold non-reserved values.
    pub open spec fn spec_valid(self) -> bool {
        spec_hdr_valid(self.bytes()[0], self.bytes()[1], self.bytes()[2])
    }

    /// Wraps four raw bytes.
    pub fn new(b: [u8; 4]) -> (h: Self)
        ensures
            h.bytes() == b@,
    {
        Header(b)
    }

    /// The four raw header bytes.
    pub fn as_array(&self) -> (r: [u8; 4])
        ensures
            r@ == self.bytes(),
    {
        self.0
    }

    /// The sync word is present.
    pub fn sync(&self) -> (r: bool)
        ensures
            r == spec_sync(self.bytes()[0], self.bytes()[1]),
    {
        self.0[0] == 0xff && self.0[1] & 0xe0 == 0xe0
    }

    /// Full validity test: sync word present and no field reserved.
    pub fn valid(&self) -> (r: bool)
        ensures
            r == self.spec_valid(),
    {
        let b1 = self.0[1];
        let b2 = self.0[2];
        self.sync() && (b1 >> 3) & 3 != 1 && (b1 >> 1) & 3 != 0 && (b2 >> 4) >= 1 && (b2 >> 4)
            <= 14 && (b2 >> 2) & 3 <= 2
    }

    /// The MPEG version.
    pub fn version(&self) -> (v: Version)
        requires
            spec_version_bits(self.bytes()[1]) != 1,
        ensures
            v == spec_version_of(self.bytes()[1]),
    {
        let bits = (self.0[1] >> 3) & 3;
        if bits == 3 {
            Version::V1
        } else if bits == 2 {
            Version::V2
        } else {
            Version::V2_5
        }
    }

    /// The MPEG layer.
    pub fn layer(&self) -> (l: Layer)
        requires
            spec_layer_bits(self.bytes()[1]) != 0,
        ensures
            l == spec_layer_of(self.bytes()[1]),
    {
        let bits = (self.0[1] >> 1) & 3;
        if bits == 3 {
            Layer::L1
        } else if bits == 2 {
            Layer::L2
        } else {
            Layer::L3
        }
    }

    /// Bitrate in bits per second.
    pub fn bitrate(&self) -> (r: i64)
        requires
            self.spec_valid(),
        ensures
            r == spec_bps(self.bytes()[1], self.bytes()[2]),
            8000 <= r <= 448000,
            spec_layer_of(self.bytes()[1]) == Layer::L1 ==> r >= 32000,
    {
        get_bitrate(self.version(), self.layer(), self.0[2] >> 4) * 1000
    }

    /// Sample rate in Hz.
    pub fn sample_rate(&self) -> (r: i64)
        requires
            self.spec_valid(),
        ensures
            r == spec_rate(self.bytes()[1], self.bytes()[2]),
            8000 <= r <= 48000,
    {
        get_sample_rate(self.version(), (self.0[2] >> 2) & 3)
    }

    /// The padding bit.
    pub fn padding(&self) -> (r: bool)
        ensures
            r == spec_padding(self.bytes()[2]),
    {
        self.0[2] & 2 == 2
    }

    /// Samples per frame.
    pub fn samples(&self) -> (r: i64)
        requires
            self.spec_valid(),
        ensures
            r == spec_samples(spec_version_of(self.bytes()[1]), spec_layer_of(self.bytes()[1])),
            384 <= r <= 1152,
    {
        get_samples_per_frame(self.version(), self.layer())
    }

    /// Whole frame size in bytes, header included.
    pub fn frame_size(&self) -> (r: i64)
        requires
            self.spec_valid(),
        ensures
            r == spec_frame_size(self.bytes()[1], self.bytes()[2]),
            24 <= r <= 8068,
    {
        let br = self.bitrate();
        let sr = self.sample_rate();
        let pad: i64 = if self.padding() {
            1
        } else {
            0
        };
        proof {
            lemma_div_is_ordered(144int * 8000, 144int * br, sr as int);
            lemma_div_is_ordered(144int * br, 144int * 448000, sr as int);
            lemma_div_is_ordered_by_denominator(144int * 8000, 8000int, sr as int);
            lemma_div_is_ordered_by_denominator(144int * 8000, sr as int, 48000int);
            lemma_div_is_ordered_by_denominator(144int * 448000, 8000int, sr as int);
            lemma_div_is_ordered(12int * 8000, 12int * br, sr as int);
            if spec_layer_of(self.bytes()[1]) == Layer::L1 {
                lemma_div_is_ordered(12int * 32000, 12int * br, sr as int);
                lemma_div_is_ordered_by_denominator(12int * 32000, sr as int, 48000int);
            }
            lemma_div_is_ordered(12int * br, 12int * 448000, sr as int);
            lemma_div_is_ordered_by_denominator(12int * 8000, 8000int, sr as int);
            lemma_div_is_ordered_by_denominator(12int * 8000, sr as int, 48000int);
            lemma_div_is_ordered_by_denominator(12int * 448000, 8000int, sr as int);
        }
        if self.layer() == Layer::L1 {
            4 * (12 * br / sr + pad)
        } else {
            144 * br / sr + pad
        }
    }

    /// Frame duration in ticks of 1 / `TICKS_PER_SECOND` second.
    pub fn duration_ticks(&self) -> (r: u64)
        requires
            self.spec_valid(),
        ensures
            r == spec_ticks(self.bytes()[1], self.bytes()[2]),
            r <= 2_032_128,
    {
        let samples = self.samples() as u64;
        let rate = self.sample_rate() as u64;
        let q = TICKS_PER_SECOND / rate;
        proof {
            lemma_div_is_ordered_by_denominator(TICKS_PER_SECOND as int, 8000int, rate as int);
            assert(q <= 1764);
            assert(samples as int * q as int <= 2_032_128) by (nonlinear_arith)
                requires
                    0 <= samples as int <= 1152,
                    0 <= q as int <= 1764,
            ;
        }
        samples * q
    }
}


/// One MPEG audio frame: the 4-byte header and its payload.
#[derive(Debug, Clone)]
pub struct Frame {
    pub header: Header,
    pub data: Vec<u8>,
}

/// A frame is well formed when its header is valid and the payload length
/// makes header plus payload exactly the frame size the header encodes.
pub open spec fn frame_wf(f: Frame) -> bool {
    &&& f.header.spec_valid()
    &&& 4 + f.data@.len() == spec_frame_size(f.header.bytes()[1], f.header.bytes()[2])
}

/// The bytes of one frame: header followed by payload.
pub open spec fn spec_frame_bytes(f: Frame) -> Seq<u8> {
    f.header.bytes() + f.data@
}

/// The bytes of a sequence of frames, concatenated in order.
pub open spec fn spec_frames_bytes(fs: Seq<Frame>) -> Seq<u8>
    decreases fs.len(),
{
    if fs.len() == 0 {
        Seq::empty()
    } else {
        spec_frame_bytes(fs[0]) + spec_frames_bytes(fs.skip(1))
    }
}

/// Total size in bytes of a sequence of frames.
pub open spec fn sum_sizes(fs: Seq<Frame>) -> int
    decreases fs.len(),
{
    if fs.len() == 0 {
        0
    } else {
        spec_frame_size(fs[0].header.bytes()[1], fs[0].header.bytes()[2]) + sum_sizes(fs.skip(1))
    }
}

/// Total duration in ticks of a sequence of frames.
pub open spec fn sum_ticks(fs: Seq<Frame>) -> int
    decreases fs.len(),
{
    if fs.len() == 0 {
        0
    } else {
        spec_ticks(fs[0].header.bytes()[1], fs[0].header.bytes()[2]) + sum_ticks(fs.skip(1))
    }
}

/// Appending a frame adds its size, its duration and its bytes at the end.
pub proof fn lemma_frames_push(s: Seq<Frame>, f: Frame)
    ensures
        sum_sizes(s.push(f)) == sum_sizes(s) + spec_frame_size(
            f.header.bytes()[1],
            f.header.bytes()[2],
        ),
        sum_ticks(s.push(f)) == sum_ticks(s) + spec_ticks(f.header.bytes()[1], f.header.bytes()[2]),
        spec_frames_bytes(s.push(f)) == spec_frames_bytes(s) + spec_frame_bytes(f),
    decreases s.len(),
{
    if s.len() == 0 {
        assert(s.push(f).skip(1) =~= Seq::<Frame>::empty());
        assert(sum_sizes(Seq::<Frame>::empty()) == 0);
        assert(sum_ticks(Seq::<Frame>::empty()) == 0);
        assert(spec_frames_bytes(Seq::<Frame>::empty()) == Seq::<u8>::empty());
        assert(spec_frames_bytes(s.push(f)) =~= spec_frames_bytes(s) + spec_frame_bytes(f));
    } else {
        assert(s.push(f).skip(1) =~= s.skip(1).push(f));
        lemma_frames_push(s.skip(1), f);
        assert(spec_frames_bytes(s.push(f)) =~= spec_frames_bytes(s) + spec_frame_bytes(f));
    }
}

/// A byte region splits into whole frames, possibly followed by at most
/// three bytes of trailing garbage: either fewer than four bytes remain, or
/// a valid header starts the region, its whole frame fits, and the rest
/// splits likewise.
pub open spec fn frames_parseable(s: Seq<u8>) -> bool
    decreases s.len(),
{
    if s.len() < 4 {
        true
    } else if !spec_hdr_valid(s[0], s[1], s[2]) {
        false
    } else if !(4 <= spec_frame_size(s[1], s[2]) <= s.len()) {
        false
    } else {
        frames_parseable(s.skip(spec_frame_size(s[1], s[2])))
    }
}

/// Total duration in ticks of the frames a byte region splits into
/// (unspecified tail contributes nothing once the region stops parsing).
pub open spec fn region_ticks(s: Seq<u8>) -> int
    decreases s.len(),
{
    if s.len() < 4 {
        0
    } else if !spec_hdr_valid(s[0], s[1], s[2]) {
        0
    } else if !(4 <= spec_frame_size(s[1], s[2]) <= s.len()) {
        0
    } else {
        spec_ticks(s[1], s[2]) + region_ticks(s.skip(spec_frame_size(s[1], s[2])))
    }
}

/// Index of the first 0xFF byte at or after `from`, or the sequence length
/// when there is none.
pub open spec fn spec_sync_pos(s: Seq<u8>, from: nat) -> nat
    decreases s.len() - from,
{
    if from >= s.len() {
        s.len()
    } else if s[from as int] == 0xff {
        from
    } else {
        spec_sync_pos(s, from + 1)
    }
}

/// Parsing failed: the data does not split into whole, valid frames.
#[derive(Debug, Clone, Copy, PartialEq, Eq, Structural)]
pub enum AudioError {
    Malformed,
}

/// Scans forward from `from` to the first 0xFF byte, where frame data
/// begins.
pub fn find_sync(data: &Vec<u8>, from: usize) -> (i: usize)
    requires
        from <= data@.len(),
    ensures
        i == spec_sync_pos(data@, from as nat),
        from <= i <= data@.len(),
        i < data@.len() ==> data@[i as int] == 0xff,
        forall|j: int| from <= j < i ==> data@[j] != 0xff,
{
    let mut i = from;
    while i < data.len()
        invariant
            from <= i <= data@.len(),
            spec_sync_pos(data@, from as nat) == spec_sync_pos(data@, i as nat),
            forall|j: int| from <= j < i ==> data@[j] != 0xff,
        decreases data@.len() - i,
    {
        if data[i] == 0xff {
            return i;
        }
        i += 1;
    }
    i
}

/// Cuts the region of `data` from `start` on into MPEG frames.  Succeeds
/// exactly when the region splits into whole valid frames followed by at
/// most three bytes; returns the frames and how many trailing bytes were
/// left over, so that `start` plus the frame sizes plus the trailing bytes
/// is the data length (frame boundary property).
pub fn parse_frames(data: &Vec<u8>, start: usize) -> (r: Result<(Vec<Frame>, usize), AudioError>)
    requires
        start <= data@.len(),
    ensures
        r is Ok <==> frames_parseable(data@.subrange(start as int, data@.len() as int)),
        match r {
            Ok((frames, trailing)) => {
                &&& trailing <= 3
                &&& start + sum_sizes(frames@) + trailing == data@.len()
                &&& forall|i: int| 0 <= i < frames@.len() ==> frame_wf(#[trigger] frames@[i])
                &&& spec_frames_bytes(frames@) == data@.subrange(
                    start as int,
                    data@.len() - trailing,
                )
                &&& sum_ticks(frames@) == region_ticks(
                    data@.subrange(start as int, data@.len() as int),
                )
            },
            Err(e) => e == AudioError::Malformed,
        },
{
    let ghost whole = data@.subrange(start as int, data@.len() as int);
    let mut frames: Vec<Frame> = Vec::new();
    let mut pos: usize = start;
    let n = data.len();
    while n - pos >= 4
        invariant
            start <= pos <= n,
            n == data@.len(),
            forall|i: int| 0 <= i < frames@.len() ==> frame_wf(#[trigger] frames@[i]),
            sum_sizes(frames@) == pos - start,
            spec_frames_bytes(frames@) == data@.subrange(start as int, pos as int),
            frames_parseable(whole) <==> frames_parseable(data@.subrange(pos as int, n as int)),
            sum_ticks(frames@) + region_ticks(data@.subrange(pos as int, n as int))
                == region_ticks(whole),
            whole == data@.subrange(start as int, data@.len() as int),
        decreases n - pos,
    {
        let ghost rest = data@.subrange(pos as int, n as int);
        let h = Header::new([data[pos], data[pos + 1], data[pos + 2], data[pos + 3]]);
        proof {
            assert(h.bytes()[0] == rest[0] && h.bytes()[1] == rest[1] && h.bytes()[2] == rest[2]);
        }
        if !h.valid() {
            return Err(AudioError::Malformed);
        }
        let sz = h.frame_size() as usize;
        if n - pos < sz {
            return Err(AudioError::Malformed);
        }
        let mut payload: Vec<u8> = Vec::new();
        let mut j: usize = pos + 4;
        while j < pos + sz
            invariant
                pos + 4 <= j <= pos + sz,
                sz <= n - pos,
                n == data@.len(),
                payload@ == data@.subrange(pos + 4, j as int),
            decreases pos + sz - j,
        {
            payload.push(data[j]);
            j += 1;
        }
        let f = Frame { header: h, data: payload };
        proof {
            lemma_frames_push(frames@, f);
            assert(spec_frame_bytes(f) =~= data@.subrange(pos as int, pos + sz));
            assert(spec_frames_bytes(frames@.push(f)) =~= data@.subrange(
                start as int,
                pos + sz,
            ));
            assert(rest.skip(sz as int) =~= data@.subrange(pos + sz, n as int));
        }
        frames.push(f);
        pos = pos + sz;
    }
    let trailing = n - pos;
    proof {
        assert(data@.subrange(pos as int, n as int).len() < 4);
        assert(spec_frames_bytes(frames@) == data@.subrange(start as int, n - trailing));
    }
    Ok((frames, trailing))
}

/// Sums the durations of well-formed frames, in ticks.
pub fn total_ticks(frames: &Vec<Frame>) -> (t: u128)
    requires
        forall|i: int| 0 <= i < frames@.len() ==> frame_wf(#[trigger] frames@[i]),
    ensures
        t == sum_ticks(frames@),
{
    let mut t: u128 = 0;
    let mut i: usize = 0;
    while i < frames.len()
        invariant
            i <= frames@.len(),
            forall|k: int| 0 <= k < frames@.len() ==> frame_wf(#[trigger] frames@[k]),
            t == sum_ticks(frames@.take(i as int)),
            t <= 2_032_128 * (i as int),
        decreases frames@.len() - i,
    {
        proof {
            lemma_frames_push(frames@.take(i as int), frames@[i as int]);
            assert(frames@.take(i as int).push(frames@[i as int]) =~= frames@.take(i + 1));
        }
        let d = frames[i].header.duration_ticks();
        t = t + d as u128;
        i += 1;
    }
    proof {
        assert(frames@.take(frames@.len() as int) =~= frames@);
    }
    t
}

} // verus!
