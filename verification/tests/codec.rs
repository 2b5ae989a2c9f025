use radiocast::id3::{tag_len, u28, Id3, Id3Error, Text};
use radiocast::mp3::{
    get_bitrate, get_sample_rate, get_samples_per_frame, parse_frames, AudioError, Header, Layer,
    Version, TICKS_PER_SECOND,
};
use radiocast::playlist::SongMetadata;
use radiocast::song::Mp3;

fn meta(title: &str, artist: &str) -> SongMetadata {
    SongMetadata {
        title: String::from(title),
        artist: String::from(artist),
        youtube_url: None,
    }
}

/// A V1 Layer III 44.1 kHz 128 kb/s frame: 417 bytes in all.
fn frame_bytes() -> Vec<u8> {
    let mut f = vec![0xff, 0xfb, 0x90, 0x00];
    f.extend(std::iter::repeat(0u8).take(413));
    f
}

/// The tag of scenario S4: one TIT2 frame holding "Hi" in UTF-16BE.
fn s4_tag() -> Vec<u8> {
    let mut v = vec![0x49, 0x44, 0x33, 0x04, 0x00, 0x00, 0x00, 0x00, 0x00, 0x11];
    v.extend([0x54, 0x49, 0x54, 0x32, 0, 0, 0, 7, 0, 0]);
    v.extend([0x02, 0x00, 0x48, 0x00, 0x69, 0x00, 0x00]);
    v
}

#[test]
fn syncsafe_round_trip_value() {
    let enc = u28::from([0x00, 0x00, 0x00, 0x11]);
    assert_eq!(enc.value(), 17);
    assert_eq!(enc.into(), [0x00, 0x00, 0x00, 0x11]);
    // only the low seven bits of each byte participate
    let wild = u28::from([0xff, 0xff, 0xff, 0xff]);
    assert_eq!(wild.value(), 0x0fff_ffff);
}

#[test]
fn id3_round_trip_s4() {
    let bytes = s4_tag();
    let tag = Id3::read(&bytes).unwrap().unwrap();
    let title = tag.title().expect("tag has a title");
    assert_eq!(title.content().as_slice(), &[0x00, 0x48, 0x00, 0x69, 0x00, 0x00]);
    assert!(tag.artist().is_none());
    assert_eq!(tag.as_bytes(), bytes);
}

#[test]
fn id3_round_trip_preserves_logical_value() {
    // a Latin-1 title frame: re-serialization normalizes it to UTF-16BE,
    // and re-parsing yields the same logical value
    let mut bytes = vec![0x49, 0x44, 0x33, 0x03, 0x00, 0x00, 0x00, 0x00, 0x00, 0x0e];
    bytes.extend([0x54, 0x49, 0x54, 0x32, 0, 0, 0, 4, 0, 0]);
    bytes.extend([0x00, b'H', b'i', 0x00]);
    let tag = Id3::read(&bytes).unwrap().unwrap();
    let t1: Vec<u8> = tag.title().unwrap().content().clone();
    assert_eq!(t1, vec![0x00, b'H', 0x00, b'i', 0x00, 0x00]);
    let ser = tag.as_bytes();
    let tag2 = Id3::read(&ser).unwrap().unwrap();
    assert_eq!(tag2.title().unwrap().content(), &t1);
    assert_eq!(tag2.as_bytes(), ser);
}

#[test]
fn id3_no_tag_and_malformed() {
    assert!(Id3::read(&vec![0u8; 4]).unwrap().is_none());
    assert!(Id3::read(&frame_bytes()).unwrap().is_none());
    // bad major version
    let mut bad = s4_tag();
    bad[3] = 9;
    assert_eq!(Id3::read(&bad).unwrap_err(), Id3Error::Malformed);
    // declared size runs past the data
    let mut short = s4_tag();
    short[9] = 0x7f;
    assert_eq!(Id3::read(&short).unwrap_err(), Id3Error::Malformed);
}

#[test]
fn text_from_str_encodes_utf16be() {
    let t = Text::from_str("Hi");
    assert_eq!(t.content().as_slice(), &[0x00, 0x48, 0x00, 0x69, 0x00, 0x00]);
    let empty = Text::from_str("");
    assert_eq!(empty.content().as_slice(), &[0x00, 0x00]);
    // a character beyond the basic plane becomes a surrogate pair
    let clef = Text::from_str("\u{1D11E}");
    assert_eq!(clef.content().as_slice(), &[0xd8, 0x34, 0xdd, 0x1e, 0x00, 0x00]);
}

#[test]
fn text_decode_encodings() {
    // UTF-16BE passes through without its encoding byte
    let be = Text::decode(&vec![0x02, 0x00, 0x48, 0x00, 0x69, 0x00, 0x00]).unwrap();
    assert_eq!(be.content().as_slice(), &[0x00, 0x48, 0x00, 0x69, 0x00, 0x00]);
    // UTF-16 with a little-endian byte-order mark is swapped pairwise
    let le = Text::decode(&vec![0x01, 0xff, 0xfe, 0x48, 0x00, 0x69, 0x00, 0x00, 0x00]).unwrap();
    assert_eq!(le.content().as_slice(), &[0x00, 0x48, 0x00, 0x69, 0x00, 0x00]);
    // UTF-8 re-encodes
    let utf8 = Text::decode(&vec![0x03, b'H', b'i', 0x00]).unwrap();
    assert_eq!(utf8.content().as_slice(), &[0x00, 0x48, 0x00, 0x69, 0x00, 0x00]);
    // unknown encoding byte
    assert_eq!(
        Text::decode(&vec![0x07, 0x00]).unwrap_err(),
        Id3Error::Malformed
    );
    // missing byte-order mark
    assert_eq!(
        Text::decode(&vec![0x01, 0x48, 0x00]).unwrap_err(),
        Id3Error::Malformed
    );
}

#[test]
fn header_fields_v1_l3() {
    let h = Header::new([0xff, 0xfb, 0x90, 0x00]);
    assert!(h.sync());
    assert!(h.valid());
    assert!(matches!(h.version(), Version::V1));
    assert!(matches!(h.layer(), Layer::L3));
    assert_eq!(h.bitrate(), 128_000);
    assert_eq!(h.sample_rate(), 44_100);
    assert!(!h.padding());
    assert_eq!(h.samples(), 1152);
    assert_eq!(h.frame_size(), 417);
}

#[test]
fn lookup_tables_exact_values() {
    assert_eq!(get_bitrate(Version::V1, Layer::L1, 14), 448);
    assert_eq!(get_bitrate(Version::V1, Layer::L3, 9), 128);
    assert_eq!(get_bitrate(Version::V2, Layer::L2, 1), 8);
    assert_eq!(get_bitrate(Version::V2_5, Layer::L1, 2), 48);
    assert_eq!(get_sample_rate(Version::V1, 0), 44_100);
    assert_eq!(get_sample_rate(Version::V2, 1), 24_000);
    assert_eq!(get_sample_rate(Version::V2_5, 2), 8_000);
    assert_eq!(get_samples_per_frame(Version::V1, Layer::L1), 384);
    assert_eq!(get_samples_per_frame(Version::V1, Layer::L3), 1152);
    assert_eq!(get_samples_per_frame(Version::V2, Layer::L3), 576);
}

#[test]
fn durations_s5() {
    // one V1 Layer III 44.1 kHz frame lasts 1152 / 44100 s, about 26.1 ms
    let h = Header::new([0xff, 0xfb, 0x90, 0x00]);
    let ticks = h.duration_ticks();
    assert_eq!(ticks, 1152 * (TICKS_PER_SECOND / 44_100));
    let secs = ticks as f64 / TICKS_PER_SECOND as f64;
    assert!((secs - 0.0261).abs() < 0.0001);

    // a 100-frame file reports the exact sum, about 2.612 s
    let mut data = Vec::new();
    for _ in 0..100 {
        data.extend(frame_bytes());
    }
    let song = Mp3::load(meta("a", "b"), data).unwrap();
    assert_eq!(song.duration_ticks, 100 * ticks as u128);
    let total = song.duration_ticks as f64 / TICKS_PER_SECOND as f64;
    assert!((total - 2.612).abs() < 0.001);
}

#[test]
fn frame_boundary_accounting() {
    // tag + 3 frames + 2 bytes of trailing garbage
    let mut data = s4_tag();
    let tag = data.len();
    for _ in 0..3 {
        data.extend(frame_bytes());
    }
    data.extend([0x00, 0x00]);
    assert_eq!(tag_len(&data), tag);
    let song = Mp3::load(meta("a", "b"), data.clone()).unwrap();
    let frames = Mp3::frames(&song);
    assert_eq!(frames.len(), 3);
    let sum: usize = frames.iter().map(|f| 4 + f.data.len()).sum();
    assert_eq!(tag + sum + 2, data.len());
}

#[test]
fn malformed_audio_rejected() {
    // sync word missing four bytes in
    let mut data = frame_bytes();
    data.extend([0x12, 0x34, 0x56, 0x78, 0x9a]);
    assert_eq!(
        Mp3::load(meta("a", "b"), data).unwrap_err(),
        AudioError::Malformed
    );
    // frame truncated mid-payload
    let mut short = frame_bytes();
    short.truncate(100);
    assert_eq!(parse_frames(&short, 0).unwrap_err(), AudioError::Malformed);
    // fewer than four leftover bytes are tolerated
    let mut ok = frame_bytes();
    ok.extend([0xab, 0xcd]);
    let (frames, trailing) = parse_frames(&ok, 0).unwrap();
    assert_eq!(frames.len(), 1);
    assert_eq!(trailing, 2);
}

#[test]
fn empty_and_tag_only_files() {
    // an empty file holds zero frames and zero duration
    let song = Mp3::load(meta("a", "b"), Vec::new()).unwrap();
    assert_eq!(song.duration_ticks, 0);
    assert!(Mp3::frames(&song).is_empty());
    // a file that is only a tag plays nothing
    let song = Mp3::load(meta("a", "b"), s4_tag()).unwrap();
    assert_eq!(song.duration_ticks, 0);
}

#[test]
fn writer_domain_check() {
    // a parsed plain tag is in the writer's domain and round-trips
    let tag = Id3::read(&s4_tag()).unwrap().unwrap();
    assert!(tag.check_wf());
    assert_eq!(tag.as_bytes(), s4_tag());
}

#[test]
fn id3_extended_header_is_skipped() {
    // version 3, extended-header flag set: a 6-byte extended header (its
    // length field included) precedes the one TIT2 frame
    let mut bytes = vec![0x49, 0x44, 0x33, 0x03, 0x00, 0x40, 0x00, 0x00, 0x00, 0x17];
    bytes.extend([0x00, 0x00, 0x00, 0x06, 0xaa, 0xbb]);
    bytes.extend([0x54, 0x49, 0x54, 0x32, 0, 0, 0, 7, 0, 0]);
    bytes.extend([0x02, 0x00, 0x48, 0x00, 0x69, 0x00, 0x00]);
    let tag = Id3::read(&bytes).unwrap().unwrap();
    assert_eq!(
        tag.title().unwrap().content().as_slice(),
        &[0x00, 0x48, 0x00, 0x69, 0x00, 0x00]
    );
    // an extended header longer than the tag is malformed
    let mut bad = bytes.clone();
    bad[13] = 0xff;
    assert_eq!(Id3::read(&bad).unwrap_err(), Id3Error::Malformed);
    // a tag carrying the flag is outside the writer's domain
    assert!(!tag.check_wf());
}

#[test]
fn unknown_frames_survive_round_trips() {
    // a private frame is preserved opaquely
    let mut bytes = vec![0x49, 0x44, 0x33, 0x04, 0x00, 0x00, 0x00, 0x00, 0x00, 0x0d];
    bytes.extend([0x50, 0x52, 0x49, 0x56, 0, 0, 0, 3, 0, 0]);
    bytes.extend([0xde, 0xad, 0x00]);
    let tag = Id3::read(&bytes).unwrap().unwrap();
    assert!(tag.title().is_none());
    assert_eq!(tag.as_bytes(), bytes);
}
