//! ID3v2 tag codec: syncsafe integers, text values, frames, and whole tags,
//! parsed from and serialized to plain byte vectors.

use vstd::prelude::*;

verus! {

use vstd::string::StrSliceExecFns;

/// Value of four "syncsafe" bytes: only the low seven bits of each byte
/// participate, giving a 28-bit big-endian integer.
pub open spec fn spec_syncsafe_decode(b0: u8, b1: u8, b2: u8, b3: u8) -> u32 {
    (((b0 & 0x7f) as u32) << 21) | (((b1 & 0x7f) as u32) << 14) | (((b2 & 0x7f) as u32) << 7)
        | ((b3 & 0x7f) as u32)
}

/// 28-bit integer packed into four bytes of seven bits each, the size
/// encoding used throughout ID3v2 headers.
#[derive(Debug, Clone, Copy, PartialEq, Eq, Structural)]
#[allow(non_camel_case_types)]
pub struct u28(u32);

impl u28 {
    /// The packed 28-bit value.
    pub closed spec fn spec_val(self) -> u32 {
        self.0
    }

    /// Reads a syncsafe integer from four big-endian bytes.
    pub fn from(value: [u8; 4]) -> (r: Self)
        ensures
            r.spec_val() == spec_syncsafe_decode(value[0], value[1], value[2], value[3]),
            r.spec_val() < 0x1000_0000,
    {
        let b0 = value[0];
        let b1 = value[1];
        let b2 = value[2];
        let b3 = value[3];
        let val: u32 = (((b0 & 0x7f) as u32) << 21) | (((b1 & 0x7f) as u32) << 14) | (((b2
            & 0x7f) as u32) << 7) | ((b3 & 0x7f) as u32);
        proof {
            assert((((b0 & 0x7f) as u32) << 21) | (((b1 & 0x7f) as u32) << 14) | (((b2
                & 0x7f) as u32) << 7) | ((b3 & 0x7f) as u32) < 0x1000_0000u32) by (bit_vector);
        }
        Self(val)
    }

    /// The packed 28-bit value.
    pub fn value(self) -> (r: u32)
        ensures
            r == self.spec_val(),
    {
        self.0
    }

    /// Writes the 28-bit value back into four syncsafe bytes.
    pub fn into(self) -> (r: [u8; 4])
        ensures
            r[0] == ((self.spec_val() >> 21) & 0x7f) as u8,
            r[1] == ((self.spec_val() >> 14) & 0x7f) as u8,
            r[2] == ((self.spec_val() >> 7) & 0x7f) as u8,
            r[3] == (self.spec_val() & 0x7f) as u8,
            self.spec_val() < 0x1000_0000 ==> spec_syncsafe_decode(r[0], r[1], r[2], r[3])
                == self.spec_val(),
    {
        let x = self.0;
        let r: [u8; 4] = [
            ((x >> 21) & 0x7f) as u8,
            ((x >> 14) & 0x7f) as u8,
            ((x >> 7) & 0x7f) as u8,
            (x & 0x7f) as u8,
        ];
        proof {
            let b0 = ((x >> 21) & 0x7f) as u8;
            let b1 = ((x >> 14) & 0x7f) as u8;
            let b2 = ((x >> 7) & 0x7f) as u8;
            let b3 = (x & 0x7f) as u8;
            assert(x < 0x1000_0000u32 ==> ((((b0 & 0x7f) as u32) << 21) | (((b1 & 0x7f) as u32)
                << 14) | (((b2 & 0x7f) as u32) << 7) | ((b3 & 0x7f) as u32)) == x) by (bit_vector)
                requires
                    b0 == ((x >> 21) & 0x7f) as u8,
                    b1 == ((x >> 14) & 0x7f) as u8,
                    b2 == ((x >> 7) & 0x7f) as u8,
                    b3 == (x & 0x7f) as u8,
            ;
        }
        r
    }
}


/// Appending a character appends its code units.
proof fn lemma_utf16_push(s: Seq<char>, c: char)
    ensures
        utf16_units(s.push(c)) == utf16_units(s) + utf16_char(c),
    decreases s.len(),
{
    if s.len() == 0 {
        assert(s.push(c).skip(1) =~= Seq::<char>::empty());
        assert(utf16_units(Seq::<char>::empty()) == Seq::<u16>::empty());
        assert(utf16_units(s.push(c)) =~= utf16_units(s) + utf16_char(c));
    } else {
        assert(s.push(c).skip(1) =~= s.skip(1).push(c));
        lemma_utf16_push(s.skip(1), c);
        assert(utf16_units(s.push(c)) =~= utf16_units(s) + utf16_char(c));
    }
}

/// The UTF-16 code units of a string, encoded character by character.
fn encode_utf16_units(s: &str) -> (r: Vec<u16>)
    ensures
        r@ == utf16_units(s@),
{
    let n = s.unicode_len();
    let mut out: Vec<u16> = Vec::new();
    let mut i: usize = 0;
    proof {
        assert(s@.take(0) =~= Seq::<char>::empty());
        assert(utf16_units(Seq::<char>::empty()) == Seq::<u16>::empty());
    }
    while i < n
        invariant
            i <= n,
            n == s@.len(),
            out@ == utf16_units(s@.take(i as int)),
        decreases n - i,
    {
        let c = s.get_char(i);
        proof {
            lemma_utf16_push(s@.take(i as int), c);
            assert(s@.take(i as int).push(c) =~= s@.take(i + 1));
        }
        let v = c as u32;
        if v < 0x10000 {
            out.push(v as u16);
        } else {
            out.push((0xd800 + (v - 0x10000) / 0x400) as u16);
            out.push((0xdc00 + (v - 0x10000) % 0x400) as u16);
        }
        proof {
            assert(out@ =~= utf16_units(s@.take(i + 1)));
        }
        i += 1;
    }
    proof {
        assert(s@.take(n as int) =~= s@);
    }
    out
}

/// The UTF-16 code units of one character: code points below 0x10000 are
/// a single unit; the rest are split over a surrogate pair.  (A `char` is
/// never itself a surrogate, so this covers every character.)
pub open spec fn utf16_char(c: char) -> Seq<u16> {
    if (c as u32) < 0x10000 {
        seq![(c as u32) as u16]
    } else {
        seq![
            (0xd800 + ((c as u32) - 0x10000) / 0x400) as u16,
            (0xdc00 + ((c as u32) - 0x10000) % 0x400) as u16,
        ]
    }
}

/// The UTF-16 code units of a character sequence, in order.
pub open spec fn utf16_units(s: Seq<char>) -> Seq<u16>
    decreases s.len(),
{
    if s.len() == 0 {
        Seq::empty()
    } else {
        utf16_char(s[0]) + utf16_units(s.skip(1))
    }
}

/// Relies on `String::from_utf8_lossy`: the decoded characters depend on
/// the input bytes alone.
#[verifier::external_body]
fn utf8_lossy(b: &Vec<u8>) -> (r: String)
    ensures
        r@ == utf8_lossy_chars(b@),
{
    String::from_utf8_lossy(b).into_owned()
}

/// The characters that lossy UTF-8 decoding yields for a byte sequence.
pub uninterp spec fn utf8_lossy_chars(b: Seq<u8>) -> Seq<char>;

/// Big-endian bytes of a sequence of UTF-16 code units.
pub open spec fn be_pairs(u: Seq<u16>) -> Seq<u8> {
    Seq::new(2 * u.len(), |i: int| if i % 2 == 0 { (u[i / 2] >> 8) as u8 } else { (u[i / 2] & 0xff) as u8 })
}

/// Latin-1 bytes widened to UTF-16BE: each byte becomes a zero byte and the
/// byte itself, since Latin-1 code points coincide with Unicode's first 256.
pub open spec fn widen_latin1(s: Seq<u8>) -> Seq<u8> {
    Seq::new(2 * s.len(), |i: int| if i % 2 == 0 { 0u8 } else { s[i / 2] })
}

/// UTF-16LE bytes reordered to big-endian by swapping each pair (an odd
/// final byte is kept as it is).
pub open spec fn swap_pairs(s: Seq<u8>) -> Seq<u8> {
    Seq::new(
        s.len(),
        |i: int|
            if i % 2 == 0 {
                if i + 1 < s.len() {
                    s[i + 1]
                } else {
                    s[i]
                }
            } else {
                s[i - 1]
            },
    )
}

/// Decodes the data of a text frame — a 1-byte encoding prefix followed by
/// encoded text — to UTF-16BE bytes (terminator included): 0 is Latin-1
/// with a 0x00 terminator, 1 is UTF-16 with a mandatory byte-order mark,
/// 2 is UTF-16BE as it stands, 3 is UTF-8 with a 0x00 terminator.  `None`
/// for an empty frame, an unknown prefix or a missing byte-order mark.
pub open spec fn spec_text_decode(s: Seq<u8>) -> Option<Seq<u8>> {
    if s.len() < 1 {
        None
    } else if s[0] == 2 {
        Some(s.skip(1))
    } else if s[0] == 0 {
        if s.len() >= 2 {
            Some(widen_latin1(s.subrange(1, s.len() - 1)) + seq![0u8, 0u8])
        } else {
            None
        }
    } else if s[0] == 3 {
        if s.len() >= 2 {
            Some(
                be_pairs(utf16_units(utf8_lossy_chars(s.subrange(1, s.len() - 1)))) + seq![
                    0u8,
                    0u8,
                ],
            )
        } else {
            None
        }
    } else if s[0] == 1 {
        if s.len() >= 3 && s[1] == 0xff && s[2] == 0xfe {
            Some(swap_pairs(s.skip(3)))
        } else if s.len() >= 3 && s[1] == 0xfe && s[2] == 0xff {
            Some(s.skip(3))
        } else {
            None
        }
    } else {
        None
    }
}

/// A malformed tag: a bad text encoding, an unsupported version, or sizes
/// that run past the data.
#[derive(Debug, Clone, Copy, PartialEq, Eq, Structural)]
pub enum Id3Error {
    Malformed,
}

/// Text value of a tag frame, stored as UTF-16BE bytes with the closing
/// 0x00 0x00 included — the encoding this library's writer always emits.
#[derive(Debug, Clone)]
pub struct Text(Vec<u8>);

impl View for Text {
    type V = Seq<u8>;

    closed spec fn view(&self) -> Seq<u8> {
        self.0@
    }
}

impl Text {
    /// Builds a text value from a string: its UTF-16 code units in big
    /// endian, then the terminator.
    pub fn from_str(s: &str) -> (t: Text)
        ensures
            t@ == be_pairs(utf16_units(s@)) + seq![0u8, 0u8],
    {
        let units = encode_utf16_units(s);
        let mut out: Vec<u8> = Vec::new();
        let mut i: usize = 0;
        while i < units.len()
            invariant
                i <= units@.len(),
                out@.len() == 2 * i,
                forall|k: int| 0 <= k < out@.len() ==> out@[k] == be_pairs(units@)[k],
            decreases units@.len() - i,
        {
            let u = units[i];
            out.push((u >> 8) as u8);
            out.push((u & 0xff) as u8);
            i += 1;
        }
        proof {
            assert(out@ =~= be_pairs(units@));
        }
        out.push(0);
        out.push(0);
        proof {
            assert(out@ =~= be_pairs(utf16_units(s@)) + seq![0u8, 0u8]);
        }
        Text(out)
    }

    /// Decodes wire-format text frame data according to its encoding
    /// prefix.
    pub fn decode(data: &Vec<u8>) -> (r: Result<Text, Id3Error>)
        ensures
            match r {
                Ok(t) => spec_text_decode(data@) == Some(t@),
                Err(e) => spec_text_decode(data@) is None && e == Id3Error::Malformed,
            },
    {
        let n = data.len();
        if n < 1 {
            return Err(Id3Error::Malformed);
        }
        let enc = data[0];
        if enc == 2 {
            let mut out: Vec<u8> = Vec::new();
            let mut i: usize = 1;
            while i < n
                invariant
                    1 <= i <= n,
                    n == data@.len(),
                    out@ == data@.subrange(1, i as int),
                decreases n - i,
            {
                out.push(data[i]);
                i += 1;
            }
            proof {
                assert(out@ =~= data@.skip(1));
            }
            Ok(Text(out))
        } else if enc == 0 {
            if n < 2 {
                return Err(Id3Error::Malformed);
            }
            let mut out: Vec<u8> = Vec::new();
            let mut i: usize = 1;
            while i < n - 1
                invariant
                    1 <= i <= n - 1,
                    n == data@.len(),
                    2 <= n,
                    out@.len() == 2 * (i - 1),
                    forall|k: int|
                        0 <= k < out@.len() ==> out@[k] == widen_latin1(
                            data@.subrange(1, n - 1),
                        )[k],
                decreases n - 1 - i,
            {
                out.push(0);
                out.push(data[i]);
                i += 1;
            }
            proof {
                assert(out@ =~= widen_latin1(data@.subrange(1, n as int - 1)));
            }
            out.push(0);
            out.push(0);
            proof {
                assert(out@ =~= widen_latin1(data@.subrange(1, n as int - 1)) + seq![0u8, 0u8]);
            }
            Ok(Text(out))
        } else if enc == 3 {
            if n < 2 {
                return Err(Id3Error::Malformed);
            }
            let mut sub: Vec<u8> = Vec::new();
            let mut i: usize = 1;
            while i < n - 1
                invariant
                    1 <= i <= n - 1,
                    n == data@.len(),
                    2 <= n,
                    sub@ == data@.subrange(1, i as int),
                decreases n - 1 - i,
            {
                sub.push(data[i]);
                i += 1;
            }
            proof {
                assert(sub@ =~= data@.subrange(1, n as int - 1));
            }
            let decoded = utf8_lossy(&sub);
            let units = encode_utf16_units(decoded.as_str());
            let mut out: Vec<u8> = Vec::new();
            let mut j: usize = 0;
            while j < units.len()
                invariant
                    j <= units@.len(),
                    out@.len() == 2 * j,
                    forall|k: int| 0 <= k < out@.len() ==> out@[k] == be_pairs(units@)[k],
                decreases units@.len() - j,
            {
                let u = units[j];
                out.push((u >> 8) as u8);
                out.push((u & 0xff) as u8);
                j += 1;
            }
            proof {
                assert(out@ =~= be_pairs(units@));
            }
            out.push(0);
            out.push(0);
            proof {
                assert(out@ =~= be_pairs(utf16_units(utf8_lossy_chars(data@.subrange(1, n as int - 1))))
                    + seq![0u8, 0u8]);
            }
            Ok(Text(out))
        } else if enc == 1 {
            if n < 3 {
                return Err(Id3Error::Malformed);
            }
            let le = data[1] == 0xff && data[2] == 0xfe;
            let be = data[1] == 0xfe && data[2] == 0xff;
            if !le && !be {
                return Err(Id3Error::Malformed);
            }
            let mut out: Vec<u8> = Vec::new();
            if be {
                let mut i: usize = 3;
                while i < n
                    invariant
                        3 <= i <= n,
                        n == data@.len(),
                        out@ == data@.subrange(3, i as int),
                    decreases n - i,
                {
                    out.push(data[i]);
                    i += 1;
                }
                proof {
                    assert(out@ =~= data@.skip(3));
                }
            } else {
                let mut i: usize = 3;
                while i < n
                    invariant
                        3 <= i <= n,
                        n == data@.len(),
                        out@.len() == i - 3,
                        forall|k: int| 0 <= k < out@.len() ==> out@[k] == swap_pairs(data@.skip(3))[k],
                        i == n || (i - 3) % 2 == 0,
                    decreases n - i,
                {
                    if i + 1 < n {
                        out.push(data[i + 1]);
                        out.push(data[i]);
                        i += 2;
                    } else {
                        out.push(data[i]);
                        i += 1;
                    }
                }
                proof {
                    assert(out@ =~= swap_pairs(data@.skip(3)));
                }
            }
            Ok(Text(out))
        } else {
            Err(Id3Error::Malformed)
        }
    }

    /// Serialized length of this value inside a text frame: the encoding
    /// byte plus the UTF-16BE bytes.
    pub fn byte_len(&self) -> (r: u32)
        requires
            self@.len() + 1 <= u32::MAX,
        ensures
            r == 1 + self@.len(),
    {
        1 + self.0.len() as u32
    }

    /// Appends the frame-data form of this value — the encoding byte 2
    /// (UTF-16BE), then the bytes — and returns how many bytes were
    /// written.
    pub fn write(&self, w: &mut Vec<u8>) -> (n: usize)
        requires
            old(w)@.len() + self@.len() + 1 <= usize::MAX,
        ensures
            final(w)@ == old(w)@ + seq![2u8] + self@,
            n == 1 + self@.len(),
    {
        w.push(2);
        let mut i: usize = 0;
        while i < self.0.len()
            invariant
                i <= self.0@.len(),
                w@ == old(w)@ + seq![2u8] + self.0@.subrange(0, i as int),
                old(w)@.len() + self.0@.len() + 1 <= usize::MAX,
            decreases self.0@.len() - i,
        {
            w.push(self.0[i]);
            i += 1;
        }
        proof {
            assert(w@ =~= old(w)@ + seq![2u8] + self@);
        }
        self.0.len() + 1
    }

    /// Borrows the UTF-16BE bytes.
    pub fn content(&self) -> (r: &Vec<u8>)
        ensures
            r@ == self@,
    {
        &self.0
    }
}


/// Flag bits of the tag header.
#[derive(Debug, Clone, Copy, PartialEq, Eq, Structural)]
pub enum HeaderFlags {
    Unsynchronization,
    ExtendedHeader,
    Experimental,
    Footer,
}

impl HeaderFlags {
    /// The bit this flag occupies in the header's flag byte.
    pub open spec fn spec_mask(self) -> u8 {
        match self {
            HeaderFlags::Unsynchronization => 0x80,
            HeaderFlags::ExtendedHeader => 0x40,
            HeaderFlags::Experimental => 0x20,
            HeaderFlags::Footer => 0x10,
        }
    }

    /// The bit this flag occupies in the header's flag byte.
    pub fn mask(self) -> (r: u8)
        ensures
            r == self.spec_mask(),
    {
        match self {
            HeaderFlags::Unsynchronization => 0x80,
            HeaderFlags::ExtendedHeader => 0x40,
            HeaderFlags::Experimental => 0x20,
            HeaderFlags::Footer => 0x10,
        }
    }
}

/// Mathematical model of one tag frame.
pub struct FrameModel {
    /// The 4-byte frame identifier.
    pub tag: Seq<u8>,
    /// The 2 frame flag bytes.
    pub flags: Seq<u8>,
    /// Title or artist text as UTF-16BE bytes (terminator included), for
    /// the two interpreted identifiers.
    pub text: Option<Seq<u8>>,
    /// Raw frame data, for every other identifier.
    pub data: Seq<u8>,
}

/// Mathematical model of a whole tag.
pub struct TagModel {
    pub major_version: u8,
    pub revision: u8,
    pub flags: u8,
    pub frames: Seq<FrameModel>,
}

/// The frame identifier of the title frame.
pub open spec fn spec_tit2() -> Seq<u8> {
    seq![0x54u8, 0x49u8, 0x54u8, 0x32u8]
}

/// The frame identifier of the artist frame.
pub open spec fn spec_tpe1() -> Seq<u8> {
    seq![0x54u8, 0x50u8, 0x45u8, 0x31u8]
}

/// Whether a frame model is one of the two text frames this library
/// interprets.
pub open spec fn model_is_text(f: FrameModel) -> bool {
    f.text is Some
}

/// The serialized frame data: encoding byte 2 and UTF-16BE text for the
/// interpreted frames, the raw bytes for the rest.
pub open spec fn spec_model_payload(f: FrameModel) -> Seq<u8> {
    match f.text {
        Some(t) => seq![2u8] + t,
        None => f.data,
    }
}

/// Big-endian bytes of a 32-bit value.
pub open spec fn spec_be32_bytes(n: u32) -> Seq<u8> {
    seq![
        ((n >> 24) & 0xff) as u8,
        ((n >> 16) & 0xff) as u8,
        ((n >> 8) & 0xff) as u8,
        (n & 0xff) as u8,
    ]
}

/// Value of four big-endian bytes.
pub open spec fn spec_be32_val(b0: u8, b1: u8, b2: u8, b3: u8) -> int {
    b0 * 0x100_0000 + b1 * 0x1_0000 + b2 * 0x100 + b3
}

/// Reading back the big-endian bytes of a 32-bit value gives the value.
pub proof fn lemma_be32_round_trip(n: u32)
    ensures
        spec_be32_val(
            spec_be32_bytes(n)[0],
            spec_be32_bytes(n)[1],
            spec_be32_bytes(n)[2],
            spec_be32_bytes(n)[3],
        ) == n,
{
    let b0 = ((n >> 24) & 0xff) as u8;
    let b1 = ((n >> 16) & 0xff) as u8;
    let b2 = ((n >> 8) & 0xff) as u8;
    let b3 = (n & 0xff) as u8;
    assert(b0 as u64 * 0x100_0000 + b1 as u64 * 0x1_0000 + b2 as u64 * 0x100 + b3 as u64 == n
        as u64) by (bit_vector)
        requires
            b0 == ((n >> 24) & 0xff) as u8,
            b1 == ((n >> 16) & 0xff) as u8,
            b2 == ((n >> 8) & 0xff) as u8,
            b3 == (n & 0xff) as u8,
    ;
}

/// Syncsafe bytes of a 28-bit value.
pub open spec fn spec_syncsafe_bytes(v: u32) -> Seq<u8> {
    seq![
        ((v >> 21) & 0x7f) as u8,
        ((v >> 14) & 0x7f) as u8,
        ((v >> 7) & 0x7f) as u8,
        (v & 0x7f) as u8,
    ]
}

/// Reading back the syncsafe bytes of a 28-bit value gives the value.
pub proof fn lemma_syncsafe_round_trip(v: u32)
    requires
        v < 0x1000_0000,
    ensures
        spec_syncsafe_decode(
            spec_syncsafe_bytes(v)[0],
            spec_syncsafe_bytes(v)[1],
            spec_syncsafe_bytes(v)[2],
            spec_syncsafe_bytes(v)[3],
        ) == v,
{
    let b0 = ((v >> 21) & 0x7f) as u8;
    let b1 = ((v >> 14) & 0x7f) as u8;
    let b2 = ((v >> 7) & 0x7f) as u8;
    let b3 = (v & 0x7f) as u8;
    assert(v < 0x1000_0000 ==> ((((b0 & 0x7f) as u32) << 21) | (((b1 & 0x7f) as u32) << 14) | (((
    b2 & 0x7f) as u32) << 7) | ((b3 & 0x7f) as u32)) == v) by (bit_vector)
        requires
            b0 == ((v >> 21) & 0x7f) as u8,
            b1 == ((v >> 14) & 0x7f) as u8,
            b2 == ((v >> 7) & 0x7f) as u8,
            b3 == (v & 0x7f) as u8,
    ;
}

/// Serialized bytes of one frame: identifier, big-endian data length, the
/// two flag bytes, then the data.
pub open spec fn spec_frame_ser(f: FrameModel) -> Seq<u8> {
    f.tag + spec_be32_bytes(spec_model_payload(f).len() as u32) + f.flags + spec_model_payload(f)
}

/// Serialized bytes of a sequence of frames, in order.
pub open spec fn spec_frames_ser(fs: Seq<FrameModel>) -> Seq<u8>
    decreases fs.len(),
{
    if fs.len() == 0 {
        Seq::empty()
    } else {
        spec_frame_ser(fs[0]) + spec_frames_ser(fs.skip(1))
    }
}

/// Total serialized length of a sequence of frames: ten header bytes plus
/// the data for each.
pub open spec fn spec_frames_ser_len(fs: Seq<FrameModel>) -> int
    decreases fs.len(),
{
    if fs.len() == 0 {
        0
    } else {
        10 + spec_model_payload(fs[0]).len() + spec_frames_ser_len(fs.skip(1))
    }
}

/// A frame model that the writer can serialize and the parser will read
/// back as itself: identifier and flags have their wire widths, the data
/// length fits its field, and an uninterpreted frame does not use one of
/// the two interpreted identifiers.
pub open spec fn frame_model_wf(f: FrameModel) -> bool {
    &&& f.flags.len() == 2
    &&& spec_model_payload(f).len() < 0x1_0000_0000
    &&& match f.text {
        Some(t) => (f.tag == spec_tit2() || f.tag == spec_tpe1()) && f.data == seq![2u8] + t,
        None => f.tag.len() == 4 && f.tag != spec_tit2() && f.tag != spec_tpe1(),
    }
}

/// Parses a frames region into frame models: a run of frames, each a
/// 10-byte header and its data, ended by fewer than four leftover bytes.
/// `None` when a header or its data runs past the region or a text frame's
/// data does not decode.
pub open spec fn spec_parse_frames(s: Seq<u8>) -> Option<Seq<FrameModel>>
    decreases s.len(),
{
    if s.len() < 4 {
        Some(Seq::empty())
    } else if s.len() < 10 {
        None
    } else {
        let size = spec_be32_val(s[4], s[5], s[6], s[7]);
        if s.len() < 10 + size {
            None
        } else {
            let tag = s.subrange(0, 4);
            let flags = s.subrange(8, 10);
            let data = s.subrange(10, 10 + size);
            let fm = if tag == spec_tit2() || tag == spec_tpe1() {
                match spec_text_decode(data) {
                    Some(t) => Some(FrameModel { tag, flags, text: Some(t), data: seq![2u8] + t }),
                    None => None,
                }
            } else {
                Some(FrameModel { tag, flags, text: None, data })
            };
            match fm {
                None => None,
                Some(f) => match spec_parse_frames(s.skip(10 + size)) {
                    None => None,
                    Some(rest) => Some(rest.insert(0, f)),
                },
            }
        }
    }
}

/// The payload of one frame: the interpreted title or artist text, or the
/// raw bytes of any other frame, which are preserved opaquely.
#[derive(Debug)]
pub enum FrameType {
    Title(Text),
    Artist(Text),
    Other { tag: [u8; 4], data: Vec<u8> },
}

impl FrameType {
    /// The wire identifier this payload is written under.
    pub open spec fn spec_tag(&self) -> Seq<u8> {
        match self {
            FrameType::Title(_) => spec_tit2(),
            FrameType::Artist(_) => spec_tpe1(),
            FrameType::Other { tag, .. } => tag@,
        }
    }

    /// The wire data this payload is written as.
    pub open spec fn spec_payload(&self) -> Seq<u8> {
        match self {
            FrameType::Title(t) => seq![2u8] + t@,
            FrameType::Artist(t) => seq![2u8] + t@,
            FrameType::Other { data, .. } => data@,
        }
    }

    /// The wire identifier this payload is written under.
    pub fn tag(&self) -> (r: [u8; 4])
        ensures
            r@ == self.spec_tag(),
    {
        let r: [u8; 4] = match self {
            FrameType::Title(_) => [0x54, 0x49, 0x54, 0x32],
            FrameType::Artist(_) => [0x54, 0x50, 0x45, 0x31],
            FrameType::Other { tag, .. } => *tag,
        };
        proof {
            assert(r@ =~= self.spec_tag());
        }
        r
    }

    /// Length in bytes of the wire data.
    pub fn data_len(&self) -> (r: u32)
        requires
            self.spec_payload().len() <= u32::MAX,
        ensures
            r == self.spec_payload().len(),
    {
        match self {
            FrameType::Title(t) => t.byte_len(),
            FrameType::Artist(t) => t.byte_len(),
            FrameType::Other { data, .. } => data.len() as u32,
        }
    }

    /// Appends the wire data and returns how many bytes were written.
    pub fn write_data(&self, w: &mut Vec<u8>) -> (n: usize)
        requires
            old(w)@.len() + self.spec_payload().len() <= usize::MAX,
        ensures
            final(w)@ == old(w)@ + self.spec_payload(),
            n == self.spec_payload().len(),
    {
        match self {
            FrameType::Title(t) => t.write(w),
            FrameType::Artist(t) => t.write(w),
            FrameType::Other { data, .. } => {
                let mut i: usize = 0;
                while i < data.len()
                    invariant
                        i <= data@.len(),
                        w@ == old(w)@ + data@.subrange(0, i as int),
                        old(w)@.len() + data@.len() <= usize::MAX,
                    decreases data@.len() - i,
                {
                    w.push(data[i]);
                    i += 1;
                }
                proof {
                    assert(w@ =~= old(w)@ + data@);
                }
                data.len()
            },
        }
    }
}

/// One tag frame: its payload and its two flag bytes.
#[derive(Debug)]
pub struct Frame {
    frame_type: FrameType,
    flags: [u8; 2],
}

impl View for Frame {
    type V = FrameModel;

    closed spec fn view(&self) -> FrameModel {
        match self.frame_type {
            FrameType::Title(t) => FrameModel {
                tag: spec_tit2(),
                flags: self.flags@,
                text: Some(t@),
                data: seq![2u8] + t@,
            },
            FrameType::Artist(t) => FrameModel {
                tag: spec_tpe1(),
                flags: self.flags@,
                text: Some(t@),
                data: seq![2u8] + t@,
            },
            FrameType::Other { tag, data } => FrameModel {
                tag: tag@,
                flags: self.flags@,
                text: None,
                data: data@,
            },
        }
    }
}

impl Frame {
    /// The payload of this frame.
    pub fn frame_type(&self) -> (r: &FrameType)
        ensures
            r.spec_tag() == self@.tag,
            r.spec_payload() == spec_model_payload(self@),
    {
        &self.frame_type
    }

    /// Builds a frame from its payload and flag bytes.
    pub fn new(frame_type: FrameType, flags: [u8; 2]) -> (r: Frame)
        ensures
            r@.tag == frame_type.spec_tag(),
            spec_model_payload(r@) == frame_type.spec_payload(),
            r@.flags == flags@,
    {
        Frame { frame_type, flags }
    }

    /// Serialized length: the 10-byte frame header plus the data.
    pub fn byte_len(&self) -> (r: u32)
        requires
            spec_model_payload(self@).len() + 10 <= u32::MAX,
        ensures
            r == 10 + spec_model_payload(self@).len(),
    {
        self.frame_type.data_len() + 10
    }

    /// Appends the serialized frame and returns how many bytes were
    /// written.
    pub fn write(&self, w: &mut Vec<u8>) -> (n: usize)
        requires
            spec_model_payload(self@).len() < 0x1_0000_0000,
            old(w)@.len() + spec_model_payload(self@).len() + 10 <= usize::MAX,
        ensures
            final(w)@ == old(w)@ + spec_frame_ser(self@),
            n == 10 + spec_model_payload(self@).len(),
    {
        let tag = self.frame_type.tag();
        w.push(tag[0]);
        w.push(tag[1]);
        w.push(tag[2]);
        w.push(tag[3]);
        let len = self.frame_type.data_len();
        w.push(((len >> 24) & 0xff) as u8);
        w.push(((len >> 16) & 0xff) as u8);
        w.push(((len >> 8) & 0xff) as u8);
        w.push((len & 0xff) as u8);
        w.push(self.flags[0]);
        w.push(self.flags[1]);
        let n = self.frame_type.write_data(w);
        proof {
            assert(w@ =~= old(w)@ + spec_frame_ser(self@));
        }
        n + 10
    }
}


/// The models of a sequence of frames.
pub open spec fn frame_models(fs: Seq<Frame>) -> Seq<FrameModel> {
    fs.map_values(|f: Frame| f@)
}

/// The model of the frame at the head of a region, independent of what
/// follows it: its identifier is the first four bytes, its size the
/// big-endian word after them, its flags the next two bytes, and its data
/// the declared count of bytes after the 10-byte header.  `None` when the
/// header or its data runs past the region or the text of an interpreted
/// frame does not decode.
pub open spec fn spec_frame_at(s: Seq<u8>) -> Option<FrameModel> {
    if s.len() < 10 {
        None
    } else {
        let size = spec_be32_val(s[4], s[5], s[6], s[7]);
        if s.len() < 10 + size {
            None
        } else {
            let tag = s.subrange(0, 4);
            let flags = s.subrange(8, 10);
            let data = s.subrange(10, 10 + size);
            if tag == spec_tit2() || tag == spec_tpe1() {
                match spec_text_decode(data) {
                    Some(t) => Some(FrameModel { tag, flags, text: Some(t), data: seq![2u8] + t }),
                    None => None,
                }
            } else {
                Some(FrameModel { tag, flags, text: None, data })
            }
        }
    }
}

/// The tag begins with the magic bytes "ID3" and a full 10-byte header.
pub open spec fn spec_is_tag(s: Seq<u8>) -> bool {
    s.len() >= 10 && s[0] == 0x49 && s[1] == 0x44 && s[2] == 0x33
}

/// The size the tag header declares: the syncsafe count of the bytes that
/// follow the 10-byte header.
pub open spec fn spec_tag_size(s: Seq<u8>) -> int {
    spec_syncsafe_decode(s[6], s[7], s[8], s[9]) as int
}

/// How many leading bytes of `s` belong to an ID3v2 tag: zero when there
/// is none, else the 10-byte header plus the declared size.
pub open spec fn spec_tag_len(s: Seq<u8>) -> int {
    if spec_is_tag(s) {
        10 + spec_tag_size(s)
    } else {
        0
    }
}

/// Parses a whole tag out of the front of `s` to its model: magic, version
/// 3 or 4, flags, syncsafe size, an extended header skipped if flagged,
/// then the frames.  `None` when any of these is malformed or runs past the
/// data.
pub open spec fn spec_parse_tag(s: Seq<u8>) -> Option<TagModel> {
    if !spec_is_tag(s) {
        None
    } else if !(3 <= s[3] <= 4) {
        None
    } else if s.len() < 10 + spec_tag_size(s) {
        None
    } else {
        let size = spec_tag_size(s);
        let flags = s[5];
        if flags & 0x40 == 0x40 {
            if size < 4 {
                None
            } else {
                let ext = spec_be32_val(s[10], s[11], s[12], s[13]);
                if !(4 <= ext <= size) {
                    None
                } else {
                    match spec_parse_frames(s.subrange(10 + ext, 10 + size)) {
                        None => None,
                        Some(fs) => Some(
                            TagModel {
                                major_version: s[3],
                                revision: s[4],
                                flags,
                                frames: fs,
                            },
                        ),
                    }
                }
            }
        } else {
            match spec_parse_frames(s.subrange(10, 10 + size)) {
                None => None,
                Some(fs) => Some(
                    TagModel { major_version: s[3], revision: s[4], flags, frames: fs },
                ),
            }
        }
    }
}

/// A tag model that serializes and parses back to itself: supported
/// version, no extended-header flag (the writer never emits one), frames
/// well formed, and a total size that fits the syncsafe field.
pub open spec fn tag_model_wf(m: TagModel) -> bool {
    &&& 3 <= m.major_version <= 4
    &&& m.flags & 0x40 == 0
    &&& spec_frames_ser_len(m.frames) < 0x1000_0000
    &&& forall|i: int| 0 <= i < m.frames.len() ==> frame_model_wf(#[trigger] m.frames[i])
}

/// Serialized bytes of a whole tag.
pub open spec fn spec_tag_ser(m: TagModel) -> Seq<u8> {
    seq![0x49u8, 0x44u8, 0x33u8, m.major_version, m.revision, m.flags] + spec_syncsafe_bytes(
        spec_frames_ser_len(m.frames) as u32,
    ) + spec_frames_ser(m.frames)
}

/// Appending a frame extends the serialization and its length accordingly.
pub proof fn lemma_frames_ser_push(fs: Seq<FrameModel>, f: FrameModel)
    ensures
        spec_frames_ser_len(fs.push(f)) == spec_frames_ser_len(fs) + 10 + spec_model_payload(
            f,
        ).len(),
        spec_frames_ser(fs.push(f)) == spec_frames_ser(fs) + spec_frame_ser(f),
    decreases fs.len(),
{
    if fs.len() == 0 {
        assert(fs.push(f).skip(1) =~= Seq::<FrameModel>::empty());
        assert(spec_frames_ser_len(Seq::<FrameModel>::empty()) == 0);
        assert(spec_frames_ser(Seq::<FrameModel>::empty()) == Seq::<u8>::empty());
        assert(spec_frames_ser(fs.push(f)) =~= spec_frames_ser(fs) + spec_frame_ser(f));
    } else {
        assert(fs.push(f).skip(1) =~= fs.skip(1).push(f));
        lemma_frames_ser_push(fs.skip(1), f);
        assert(spec_frames_ser(fs.push(f)) =~= spec_frames_ser(fs) + spec_frame_ser(f));
    }
}

/// The serialized length of a frame sequence is never negative, whatever
/// the frames hold.
pub proof fn lemma_frames_ser_len_nonneg(fs: Seq<FrameModel>)
    ensures
        spec_frames_ser_len(fs) >= 0,
    decreases fs.len(),
{
    if fs.len() == 0 {
    } else {
        lemma_frames_ser_len_nonneg(fs.skip(1));
    }
}

/// The serialized length of a frame sequence is never negative and is the
/// length of its serialization.
pub proof fn lemma_frames_ser_len(fs: Seq<FrameModel>)
    requires
        forall|i: int| 0 <= i < fs.len() ==> frame_model_wf(#[trigger] fs[i]),
    ensures
        spec_frames_ser_len(fs) >= 0,
        spec_frames_ser(fs).len() == spec_frames_ser_len(fs),
    decreases fs.len(),
{
    if fs.len() == 0 {
    } else {
        assert(frame_model_wf(fs[0]));
        assert(forall|i: int|
            0 <= i < fs.skip(1).len() ==> frame_model_wf(#[trigger] fs.skip(1)[i]));
        lemma_frames_ser_len(fs.skip(1));
        assert(fs[0].tag.len() == 4 && fs[0].flags.len() == 2);
    }
}

/// Splitting a frame sequence splits its serialized length.
pub proof fn lemma_frames_ser_len_split(fs: Seq<FrameModel>, i: int)
    requires
        0 <= i <= fs.len(),
    ensures
        spec_frames_ser_len(fs) == spec_frames_ser_len(fs.take(i)) + spec_frames_ser_len(
            fs.skip(i),
        ),
    decreases i,
{
    if i == 0 {
        assert(fs.take(0) =~= Seq::<FrameModel>::empty());
        assert(fs.skip(0) =~= fs);
    } else {
        lemma_frames_ser_len_split(fs.skip(1), i - 1);
        assert(fs.take(i).skip(1) =~= fs.skip(1).take(i - 1));
        assert(fs.skip(i) =~= fs.skip(1).skip(i - 1));
        assert(spec_frames_ser_len(fs.take(i)) == 10 + spec_model_payload(fs[0]).len()
            + spec_frames_ser_len(fs.skip(1).take(i - 1)));
    }
}

/// A whole ID3v2 tag: version, revision, header flags, and its frames.
#[derive(Debug)]
pub struct Id3 {
    major_version: u8,
    revision: u8,
    flags: u8,
    frames: Vec<Frame>,
}

impl View for Id3 {
    type V = TagModel;

    closed spec fn view(&self) -> TagModel {
        TagModel {
            major_version: self.major_version,
            revision: self.revision,
            flags: self.flags,
            frames: frame_models(self.frames@),
        }
    }
}

impl Frame {
    /// Reads one frame from `data` between `pos` and `end`: `None` when
    /// fewer than four bytes remain (the region's trailing padding), the
    /// frame and the position after it when one parses, and an error when
    /// the frame runs past the region or its text does not decode — in
    /// exact agreement with the model parser on the region.
    pub fn read(data: &Vec<u8>, pos: usize, end: usize) -> (r: Result<
        Option<(Frame, usize)>,
        Id3Error,
    >)
        requires
            pos <= end <= data@.len(),
        ensures
            match r {
                Ok(None) => end - pos < 4 && spec_parse_frames(
                    data@.subrange(pos as int, end as int),
                ) == Some(Seq::<FrameModel>::empty()),
                Ok(Some((f, np))) => {
                    &&& end - pos >= 10
                    &&& spec_frame_at(data@.subrange(pos as int, end as int)) == Some(f@)
                    &&& np == pos + 10 + spec_be32_val(
                        data@[pos + 4],
                        data@[pos + 5],
                        data@[pos + 6],
                        data@[pos + 7],
                    )
                    &&& np <= end
                    &&& match spec_parse_frames(data@.subrange(np as int, end as int)) {
                        Some(rest) => spec_parse_frames(data@.subrange(pos as int, end as int))
                            == Some(rest.insert(0, f@)),
                        None => spec_parse_frames(data@.subrange(pos as int, end as int)) is None,
                    }
                },
                Err(e) => spec_parse_frames(data@.subrange(pos as int, end as int)) is None && e
                    == Id3Error::Malformed,
            },
    {
        let ghost region = data@.subrange(pos as int, end as int);
        if end - pos < 4 {
            proof {
                assert(region.len() < 4);
            }
            return Ok(None);
        }
        if end - pos < 10 {
            return Err(Id3Error::Malformed);
        }
        let size32: u32 = data[pos + 4] as u32 * 0x100_0000 + data[pos + 5] as u32 * 0x1_0000
            + data[pos + 6] as u32 * 0x100 + data[pos + 7] as u32;
        let size = size32 as usize;
        proof {
            assert(region[4] == data@[pos + 4] && region[5] == data@[pos + 5] && region[6]
                == data@[pos + 6] && region[7] == data@[pos + 7]);
            assert(size == spec_be32_val(region[4], region[5], region[6], region[7]));
        }
        if end - pos - 10 < size {
            return Err(Id3Error::Malformed);
        }
        let flags: [u8; 2] = [data[pos + 8], data[pos + 9]];
        let mut payload: Vec<u8> = Vec::new();
        let mut j: usize = pos + 10;
        while j < pos + 10 + size
            invariant
                pos + 10 <= j <= pos + 10 + size,
                pos + 10 + size <= end <= data@.len(),
                payload@ == data@.subrange(pos + 10, j as int),
            decreases pos + 10 + size - j,
        {
            payload.push(data[j]);
            j += 1;
        }
        proof {
            assert(payload@ =~= region.subrange(10, 10 + size));
        }
        let t0 = data[pos];
        let t1 = data[pos + 1];
        let t2 = data[pos + 2];
        let t3 = data[pos + 3];
        let is_tit2 = t0 == 0x54 && t1 == 0x49 && t2 == 0x54 && t3 == 0x32;
        let is_tpe1 = t0 == 0x54 && t1 == 0x50 && t2 == 0x45 && t3 == 0x31;
        proof {
            assert(region.subrange(0, 4) =~= seq![data@[pos as int], data@[pos + 1], data@[pos + 2], data@[pos + 3]]);
            assert(is_tit2 == (region.subrange(0, 4) =~= spec_tit2()));
            assert(is_tpe1 == (region.subrange(0, 4) =~= spec_tpe1()));
        }
        let frame = if is_tit2 {
            match Text::decode(&payload) {
                Ok(t) => Frame { frame_type: FrameType::Title(t), flags },
                Err(e) => {
                    return Err(e);
                },
            }
        } else if is_tpe1 {
            match Text::decode(&payload) {
                Ok(t) => Frame { frame_type: FrameType::Artist(t), flags },
                Err(e) => {
                    return Err(e);
                },
            }
        } else {
            Frame { frame_type: FrameType::Other { tag: [t0, t1, t2, t3], data: payload }, flags }
        };
        let np = pos + 10 + size;
        proof {
            assert(frame@.tag =~= region.subrange(0, 4));
            assert(frame@.flags =~= region.subrange(8, 10));
            if !is_tit2 && !is_tpe1 {
                assert(frame@.data =~= region.subrange(10, 10 + size));
            }
            assert(data@.subrange(np as int, end as int) =~= region.skip(10 + size));
            assert(spec_frame_at(region) == Some(frame@));
        }
        Ok(Some((frame, np)))
    }
}


impl Id3 {
    /// Parses a tag from the front of `data`: `None` when no tag is
    /// present, the tag exactly as the model parser reads it when one is,
    /// and an error when the tag is malformed.
    pub fn read(data: &Vec<u8>) -> (r: Result<Option<Id3>, Id3Error>)
        ensures
            match r {
                Ok(Some(t)) => spec_is_tag(data@) && spec_parse_tag(data@) == Some(t@),
                Ok(None) => !spec_is_tag(data@),
                Err(e) => spec_is_tag(data@) && spec_parse_tag(data@) is None && e
                    == Id3Error::Malformed,
            },
    {
        let n = data.len();
        if n < 10 || !(data[0] == 0x49 && data[1] == 0x44 && data[2] == 0x33) {
            return Ok(None);
        }
        let major_version = data[3];
        let revision = data[4];
        let flags = data[5];
        if major_version < 3 || major_version > 4 {
            return Err(Id3Error::Malformed);
        }
        let size = u28::from([data[6], data[7], data[8], data[9]]).value() as usize;
        proof {
            assert(size == spec_tag_size(data@));
        }
        if n - 10 < size {
            return Err(Id3Error::Malformed);
        }
        let mut fstart: usize = 10;
        let fend: usize = 10 + size;
        if flags & HeaderFlags::ExtendedHeader.mask() == 0x40 {
            if size < 4 {
                return Err(Id3Error::Malformed);
            }
            let ext: u32 = data[10] as u32 * 0x100_0000 + data[11] as u32 * 0x1_0000 + data[12]
                as u32 * 0x100 + data[13] as u32;
            let ext = ext as usize;
            if ext < 4 || ext > size {
                return Err(Id3Error::Malformed);
            }
            fstart = 10 + ext;
        }
        let ghost region = data@.subrange(fstart as int, fend as int);
        proof {
            assert(spec_parse_tag(data@) == (match spec_parse_frames(region) {
                None => None::<TagModel>,
                Some(fs) => Some(
                    TagModel {
                        major_version: data@[3],
                        revision: data@[4],
                        flags: data@[5],
                        frames: fs,
                    },
                ),
            }));
        }
        let mut frames: Vec<Frame> = Vec::new();
        let mut pos: usize = fstart;
        loop
            invariant
                fstart <= pos <= fend <= n,
                n == data@.len(),
                region == data@.subrange(fstart as int, fend as int),
                spec_parse_tag(data@) == (match spec_parse_frames(region) {
                    None => None::<TagModel>,
                    Some(fs) => Some(
                        TagModel {
                            major_version: data@[3],
                            revision: data@[4],
                            flags: data@[5],
                            frames: fs,
                        },
                    ),
                }),
                major_version == data@[3] && revision == data@[4] && flags == data@[5],
                spec_is_tag(data@),
                match spec_parse_frames(data@.subrange(pos as int, fend as int)) {
                    Some(rest) => spec_parse_frames(region) == Some(
                        frame_models(frames@) + rest,
                    ),
                    None => spec_parse_frames(region) is None,
                },
            ensures
                fstart <= pos <= fend <= n,
                spec_parse_frames(region) == Some(frame_models(frames@)),
                spec_parse_tag(data@) == Some(
                    TagModel {
                        major_version: data@[3],
                        revision: data@[4],
                        flags: data@[5],
                        frames: frame_models(frames@),
                    },
                ),
            decreases fend - pos,
        {
            let ghost fs_before = frames@;
            match Frame::read(data, pos, fend) {
                Ok(None) => {
                    proof {
                        assert(frame_models(frames@) + Seq::<FrameModel>::empty() =~= frame_models(
                            frames@,
                        ));
                    }
                    break ;
                },
                Ok(Some((f, np))) => {
                    proof {
                        assert(frame_models(fs_before.push(f)) =~= frame_models(fs_before).push(
                            f@,
                        ));
                        if spec_parse_frames(data@.subrange(np as int, fend as int)) is Some {
                            let rest = spec_parse_frames(
                                data@.subrange(np as int, fend as int),
                            )->Some_0;
                            assert(frame_models(fs_before) + rest.insert(0, f@) =~= frame_models(
                                fs_before,
                            ).push(f@) + rest);
                        }
                    }
                    frames.push(f);
                    pos = np;
                },
                Err(e) => {
                    return Err(e);
                },
            }
        }
        Ok(Some(Id3 { major_version, revision, flags, frames }))
    }

    /// Serializes the tag: magic, version, flags, syncsafe size, then every
    /// frame.
    pub fn as_bytes(&self) -> (r: Vec<u8>)
        requires
            tag_model_wf(self@),
        ensures
            r@ == spec_tag_ser(self@),
    {
        let mut size: u32 = 0;
        let mut i: usize = 0;
        proof {
            assert(frame_models(self.frames@).take(0) =~= Seq::<FrameModel>::empty());
        }
        while i < self.frames.len()
            invariant
                i <= self.frames@.len(),
                tag_model_wf(self@),
                self@.frames == frame_models(self.frames@),
                size == spec_frames_ser_len(frame_models(self.frames@).take(i as int)),
            decreases self.frames@.len() - i,
        {
            let ghost fs = frame_models(self.frames@);
            proof {
                lemma_frames_ser_len_split(fs, i as int);
                lemma_frames_ser_len(fs.skip(i as int));
                assert(fs.skip(i as int)[0] == fs[i as int]);
                lemma_frames_ser_push(fs.take(i as int), fs[i as int]);
                assert(fs.take(i as int).push(fs[i as int]) =~= fs.take(i + 1));
                lemma_frames_ser_len(fs.skip(i + 1));
                lemma_frames_ser_len_split(fs, i + 1);
            }
            size = size + self.frames[i].byte_len();
            i += 1;
        }
        proof {
            assert(frame_models(self.frames@).take(self.frames@.len() as int) =~= frame_models(
                self.frames@,
            ));
        }
        let mut out: Vec<u8> = Vec::new();
        out.push(0x49);
        out.push(0x44);
        out.push(0x33);
        out.push(self.major_version);
        out.push(self.revision);
        out.push(self.flags);
        let ss = u28(size).into();
        out.push(ss[0]);
        out.push(ss[1]);
        out.push(ss[2]);
        out.push(ss[3]);
        let ghost head = out@;
        proof {
            assert(head =~= seq![
                0x49u8,
                0x44u8,
                0x33u8,
                self@.major_version,
                self@.revision,
                self@.flags,
            ] + spec_syncsafe_bytes(spec_frames_ser_len(self@.frames) as u32));
        }
        let mut j: usize = 0;
        proof {
            assert(out@ =~= head + spec_frames_ser(frame_models(self.frames@).take(0)));
        }
        while j < self.frames.len()
            invariant
                j <= self.frames@.len(),
                tag_model_wf(self@),
                self@.frames == frame_models(self.frames@),
                head.len() == 10,
                out@ == head + spec_frames_ser(frame_models(self.frames@).take(j as int)),
            decreases self.frames@.len() - j,
        {
            let ghost fs = frame_models(self.frames@);
            proof {
                lemma_frames_ser_len_split(fs, j as int);
                lemma_frames_ser_len(fs.take(j as int));
                lemma_frames_ser_len(fs.skip(j as int));
                assert(fs.skip(j as int)[0] == fs[j as int]);
                lemma_frames_ser_push(fs.take(j as int), fs[j as int]);
                assert(fs.take(j as int).push(fs[j as int]) =~= fs.take(j + 1));
            }
            self.frames[j].write(&mut out);
            proof {
                assert(out@ =~= head + spec_frames_ser(frame_models(self.frames@).take(j + 1)));
            }
            j += 1;
        }
        proof {
            assert(frame_models(self.frames@).take(self.frames@.len() as int) =~= frame_models(
                self.frames@,
            ));
            assert(out@ =~= spec_tag_ser(self@));
        }
        out
    }

    /// The decoded text of the first title frame, if any.
    pub fn title(&self) -> (r: Option<&Text>)
        ensures
            match r {
                Some(t) => spec_first_text(self@.frames, spec_tit2()) == Some(t@),
                None => spec_first_text(self@.frames, spec_tit2()) is None,
            },
    {
        let mut i: usize = 0;
        proof {
            assert(frame_models(self.frames@).skip(0) =~= frame_models(self.frames@));
        }
        while i < self.frames.len()
            invariant
                i <= self.frames@.len(),
                spec_first_text(frame_models(self.frames@), spec_tit2()) == spec_first_text(
                    frame_models(self.frames@).skip(i as int),
                    spec_tit2(),
                ),
            decreases self.frames@.len() - i,
        {
            proof {
                assert(frame_models(self.frames@).skip(i as int)[0] == self.frames@[i as int]@);
                assert(frame_models(self.frames@).skip(i as int).skip(1) =~= frame_models(
                    self.frames@,
                ).skip(i + 1));
            }
            if let FrameType::Title(t) = &self.frames[i].frame_type {
                return Some(t);
            }
            i += 1;
        }
        None
    }

    /// The decoded text of the first artist frame, if any.
    pub fn artist(&self) -> (r: Option<&Text>)
        ensures
            match r {
                Some(t) => spec_first_text(self@.frames, spec_tpe1()) == Some(t@),
                None => spec_first_text(self@.frames, spec_tpe1()) is None,
            },
    {
        let mut i: usize = 0;
        proof {
            assert(frame_models(self.frames@).skip(0) =~= frame_models(self.frames@));
        }
        while i < self.frames.len()
            invariant
                i <= self.frames@.len(),
                spec_first_text(frame_models(self.frames@), spec_tpe1()) == spec_first_text(
                    frame_models(self.frames@).skip(i as int),
                    spec_tpe1(),
                ),
            decreases self.frames@.len() - i,
        {
            proof {
                assert(frame_models(self.frames@).skip(i as int)[0] == self.frames@[i as int]@);
                assert(frame_models(self.frames@).skip(i as int).skip(1) =~= frame_models(
                    self.frames@,
                ).skip(i + 1));
            }
            if let FrameType::Artist(t) = &self.frames[i].frame_type {
                return Some(t);
            }
            i += 1;
        }
        None
    }
}

impl Id3 {
    /// Whether this tag lies in the writer's domain: supported version, no
    /// extended-header flag, every frame's data within its length field and
    /// under its own identifier, and the total within the syncsafe size
    /// field — exactly the tags `as_bytes` serializes and the round-trip
    /// law covers.
    pub fn check_wf(&self) -> (r: bool)
        ensures
            r == tag_model_wf(self@),
    {
        if self.major_version < 3 || self.major_version > 4 {
            return false;
        }
        if self.flags & 0x40 != 0 {
            return false;
        }
        let ghost fs = frame_models(self.frames@);
        let mut sum: u64 = 0;
        let mut i: usize = 0;
        proof {
            assert(fs.take(0) =~= Seq::<FrameModel>::empty());
        }
        while i < self.frames.len()
            invariant
                i <= self.frames@.len(),
                fs == frame_models(self.frames@),
                sum == spec_frames_ser_len(fs.take(i as int)),
                sum < 0x1000_0000,
                forall|k: int| 0 <= k < i ==> frame_model_wf(#[trigger] fs[k]),
            decreases self.frames@.len() - i,
        {
            let dlen: u64 = match &self.frames[i].frame_type {
                FrameType::Title(t) => {
                    if t.content().len() >= 0xffff_ffff {
                        proof {
                            assert(!frame_model_wf(fs[i as int]));
                        }
                        return false;
                    }
                    t.content().len() as u64 + 1
                },
                FrameType::Artist(t) => {
                    if t.content().len() >= 0xffff_ffff {
                        proof {
                            assert(!frame_model_wf(fs[i as int]));
                        }
                        return false;
                    }
                    t.content().len() as u64 + 1
                },
                FrameType::Other { tag, data } => {
                    if data.len() as u64 >= 0x1_0000_0000 {
                        proof {
                            assert(!frame_model_wf(fs[i as int]));
                        }
                        return false;
                    }
                    let tag_is_tit2 = tag[0] == 0x54 && tag[1] == 0x49 && tag[2] == 0x54
                        && tag[3] == 0x32;
                    let tag_is_tpe1 = tag[0] == 0x54 && tag[1] == 0x50 && tag[2] == 0x45
                        && tag[3] == 0x31;
                    if tag_is_tit2 || tag_is_tpe1 {
                        proof {
                            if tag_is_tit2 {
                                assert(fs[i as int].tag =~= spec_tit2());
                            } else {
                                assert(fs[i as int].tag =~= spec_tpe1());
                            }
                            assert(!frame_model_wf(fs[i as int]));
                        }
                        return false;
                    }
                    proof {
                        if fs[i as int].tag == spec_tit2() {
                            assert(tag@[0] == 0x54 && tag@[1] == 0x49 && tag@[2] == 0x54 && tag@[3]
                                == 0x32);
                            assert(false);
                        }
                        if fs[i as int].tag == spec_tpe1() {
                            assert(tag@[0] == 0x54 && tag@[1] == 0x50 && tag@[2] == 0x45 && tag@[3]
                                == 0x31);
                            assert(false);
                        }
                    }
                    data.len() as u64
                },
            };
            proof {
                assert(frame_model_wf(fs[i as int]));
                assert(spec_model_payload(fs[i as int]).len() == dlen);
                lemma_frames_ser_push(fs.take(i as int), fs[i as int]);
                assert(fs.take(i as int).push(fs[i as int]) =~= fs.take(i + 1));
            }
            let new_sum = sum + 10 + dlen;
            if new_sum >= 0x1000_0000 {
                proof {
                    lemma_frames_ser_len_split(fs, i + 1);
                    lemma_frames_ser_len_nonneg(fs.skip(i + 1));
                }
                return false;
            }
            sum = new_sum;
            i += 1;
        }
        proof {
            assert(fs.take(self.frames@.len() as int) =~= fs);
        }
        true
    }
}

/// The text of the first frame carrying the given identifier.
pub open spec fn spec_first_text(fs: Seq<FrameModel>, tag: Seq<u8>) -> Option<Seq<u8>>
    decreases fs.len(),
{
    if fs.len() == 0 {
        None
    } else if fs[0].tag == tag && fs[0].text is Some {
        fs[0].text
    } else {
        spec_first_text(fs.skip(1), tag)
    }
}

/// How many leading bytes of `data` an ID3v2 tag occupies: zero when the
/// data does not start with one.
pub fn tag_len(data: &Vec<u8>) -> (n: usize)
    ensures
        n == spec_tag_len(data@),
        n == 0 || n >= 10,
{
    if data.len() < 10 || !(data[0] == 0x49 && data[1] == 0x44 && data[2] == 0x33) {
        return 0;
    }
    let size = u28::from([data[6], data[7], data[8], data[9]]).value() as usize;
    10 + size
}

/// Round trip for the frames region: serializing well-formed frame models
/// and parsing the bytes back yields the same models.
#[verifier::rlimit(100)]
pub proof fn lemma_frames_round_trip(fs: Seq<FrameModel>)
    requires
        forall|i: int| 0 <= i < fs.len() ==> frame_model_wf(#[trigger] fs[i]),
    ensures
        spec_parse_frames(spec_frames_ser(fs)) == Some(fs),
    decreases fs.len(),
{
    if fs.len() == 0 {
        assert(spec_frames_ser(fs).len() == 0);
        assert(fs =~= Seq::<FrameModel>::empty());
    } else {
        let f = fs[0];
        assert(frame_model_wf(f));
        let p = spec_model_payload(f);
        let dlen = p.len() as int;
        let fser = spec_frame_ser(f);
        let rest = spec_frames_ser(fs.skip(1));
        let s = spec_frames_ser(fs);
        assert(s == fser + rest);
        assert(f.tag.len() == 4 && f.flags.len() == 2);
        assert(fser.len() == 10 + dlen);
        lemma_be32_round_trip(dlen as u32);
        assert(s.subrange(0, 4) =~= f.tag);
        assert(s[4] == spec_be32_bytes(dlen as u32)[0]);
        assert(s[5] == spec_be32_bytes(dlen as u32)[1]);
        assert(s[6] == spec_be32_bytes(dlen as u32)[2]);
        assert(s[7] == spec_be32_bytes(dlen as u32)[3]);
        assert(spec_be32_val(s[4], s[5], s[6], s[7]) == dlen);
        assert(s.len() == 10 + dlen + rest.len());
        assert(s.subrange(8, 10) =~= f.flags);
        assert(s.subrange(10, 10 + dlen) =~= p);
        assert(s.skip(10 + dlen) =~= rest);
        assert(forall|i: int|
            0 <= i < fs.skip(1).len() ==> frame_model_wf(#[trigger] fs.skip(1)[i]));
        lemma_frames_round_trip(fs.skip(1));
        match f.text {
            Some(t) => {
                assert(p == seq![2u8] + t);
                assert(p[0] == 2);
                assert(p.skip(1) =~= t);
                assert(spec_text_decode(p) == Some(t));
                let fm = FrameModel {
                    tag: s.subrange(0, 4),
                    flags: s.subrange(8, 10),
                    text: Some(t),
                    data: seq![2u8] + t,
                };
                assert(fm == f);
                assert(spec_parse_frames(s) == Some(fs.skip(1).insert(0, f)));
            },
            None => {
                assert(f.tag != spec_tit2() && f.tag != spec_tpe1());
                let fm = FrameModel {
                    tag: s.subrange(0, 4),
                    flags: s.subrange(8, 10),
                    text: None,
                    data: p,
                };
                assert(fm == f);
                assert(spec_parse_frames(s) == Some(fs.skip(1).insert(0, f)));
            },
        }
        assert(fs.skip(1).insert(0, fs[0]) =~= fs);
    }
}

/// Round trip for whole tags: parsing the serialization of a well-formed
/// tag model yields exactly that model, so parse-then-serialize preserves
/// the logical value of a tag.
pub proof fn lemma_tag_round_trip(m: TagModel)
    requires
        tag_model_wf(m),
    ensures
        spec_parse_tag(spec_tag_ser(m)) == Some(m),
{
    let s = spec_tag_ser(m);
    let total = spec_frames_ser_len(m.frames);
    lemma_frames_ser_len(m.frames);
    lemma_syncsafe_round_trip(total as u32);
    assert(s[6] == spec_syncsafe_bytes(total as u32)[0]);
    assert(s[7] == spec_syncsafe_bytes(total as u32)[1]);
    assert(s[8] == spec_syncsafe_bytes(total as u32)[2]);
    assert(s[9] == spec_syncsafe_bytes(total as u32)[3]);
    assert(s.len() == 10 + total);
    assert(spec_is_tag(s));
    assert(spec_tag_size(s) == total);
    assert(s[5] == m.flags);
    let fl = m.flags;
    assert(fl & 0x40 != 0x40) by (bit_vector)
        requires
            fl & 0x40 == 0,
    ;
    assert(s.subrange(10, 10 + total) =~= spec_frames_ser(m.frames));
    lemma_frames_round_trip(m.frames);
    assert(spec_parse_tag(s) == Some(
        TagModel {
            major_version: s[3],
            revision: s[4],
            flags: s[5],
            frames: m.frames,
        },
    ));
    assert(TagModel { major_version: s[3], revision: s[4], flags: s[5], frames: m.frames } == m);
}

} // verus!
