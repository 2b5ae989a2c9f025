//! Generation of an extended M3U playlist: one `#EXTINF` line per track
//! with its duration rounded up to whole seconds, followed by a
//! caller-supplied line locating the track.

use vstd::prelude::*;

use crate::mp3::TICKS_PER_SECOND;
use crate::song::Song;

verus! {

use vstd::arithmetic::div_mod::lemma_div_decreases;
use vstd::string::StrSliceExecFns;
use vstd::utf8::encode_utf8;

/// Decimal digits of `n`, most significant first, as ASCII bytes.
pub open spec fn spec_dec(n: nat) -> Seq<u8>
    decreases n,
    via spec_dec_decreases
{
    if n < 10 {
        seq![(0x30 + n) as u8]
    } else {
        spec_dec(n / 10) + seq![(0x30 + n % 10) as u8]
    }
}

#[via_fn]
proof fn spec_dec_decreases(n: nat) {
    if n >= 10 {
        lemma_div_decreases(n as int, 10);
    }
}

/// Renders a number in decimal.
pub fn to_decimal(n: u128) -> (r: Vec<u8>)
    ensures
        r@ == spec_dec(n as nat),
    decreases n,
{
    if n < 10 {
        let mut r: Vec<u8> = Vec::new();
        r.push(0x30 + n as u8);
        proof {
            assert(r@ =~= spec_dec(n as nat));
        }
        r
    } else {
        proof {
            lemma_div_decreases(n as int, 10);
        }
        let mut r = to_decimal(n / 10);
        r.push(0x30 + (n % 10) as u8);
        proof {
            assert(r@ =~= spec_dec(n as nat));
        }
        r
    }
}

/// A track's duration in whole seconds, rounded up.
pub open spec fn spec_ceil_seconds(ticks: int) -> int {
    (ticks + TICKS_PER_SECOND - 1) / (TICKS_PER_SECOND as int)
}

/// One playlist entry: the `#EXTINF` line with the rounded-up duration,
/// artist and title, then the caller's locator line.
pub open spec fn spec_m3u_entry(song: Song, extra: Seq<u8>) -> Seq<u8> {
    seq![0x23u8, 0x45u8, 0x58u8, 0x54u8, 0x49u8, 0x4eu8, 0x46u8, 0x3au8] + spec_dec(
        spec_ceil_seconds(song.duration_ticks as int) as nat,
    ) + seq![0x2cu8] + encode_utf8(song.metadata.artist@) + seq![0x20u8, 0x2du8, 0x20u8]
        + encode_utf8(song.metadata.title@) + seq![0x0du8, 0x0au8] + extra + seq![0x0du8, 0x0au8]
}

/// The playlist entries for the tracks from `from` on.
pub open spec fn spec_m3u_entries(songs: Seq<Song>, extras: Seq<Vec<u8>>, from: int) -> Seq<u8>
    decreases songs.len() - from,
{
    if from < 0 || from >= songs.len() {
        Seq::empty()
    } else {
        spec_m3u_entry(songs[from], extras[from]@) + spec_m3u_entries(songs, extras, from + 1)
    }
}

/// The whole playlist file: the `#EXTM3U` header line, then one entry per
/// track, each located by the matching caller-supplied line.
pub fn generate_m3u8(list: &Vec<Song>, extras: &Vec<Vec<u8>>) -> (r: Vec<u8>)
    requires
        list@.len() == extras@.len(),
        forall|i: int|
            0 <= i < list@.len() ==> (#[trigger] list@[i]).duration_ticks <= u128::MAX
                - TICKS_PER_SECOND,
    ensures
        r@ == seq![0x23u8, 0x45u8, 0x58u8, 0x54u8, 0x4du8, 0x33u8, 0x55u8, 0x0du8, 0x0au8]
            + spec_m3u_entries(list@, extras@, 0),
{
    let mut out: Vec<u8> = Vec::new();
    out.push(0x23);
    out.push(0x45);
    out.push(0x58);
    out.push(0x54);
    out.push(0x4d);
    out.push(0x33);
    out.push(0x55);
    out.push(0x0d);
    out.push(0x0a);
    let mut rest = m3u_entries_from(list, extras, 0);
    out.append(&mut rest);
    proof {
        assert(out@ =~= seq![0x23u8, 0x45u8, 0x58u8, 0x54u8, 0x4du8, 0x33u8, 0x55u8, 0x0du8, 0x0au8]
            + spec_m3u_entries(list@, extras@, 0));
    }
    out
}

fn m3u_entries_from(list: &Vec<Song>, extras: &Vec<Vec<u8>>, from: usize) -> (r: Vec<u8>)
    requires
        list@.len() == extras@.len(),
        from <= list@.len(),
        forall|i: int|
            0 <= i < list@.len() ==> (#[trigger] list@[i]).duration_ticks <= u128::MAX
                - TICKS_PER_SECOND,
    ensures
        r@ == spec_m3u_entries(list@, extras@, from as int),
    decreases list@.len() - from,
{
    if from >= list.len() {
        Vec::new()
    } else {
        let mut out: Vec<u8> = Vec::new();
        out.push(0x23);
        out.push(0x45);
        out.push(0x58);
        out.push(0x54);
        out.push(0x49);
        out.push(0x4e);
        out.push(0x46);
        out.push(0x3a);
        let ticks = list[from].duration_ticks;
        let secs = (ticks + (TICKS_PER_SECOND as u128) - 1) / (TICKS_PER_SECOND as u128);
        let mut digits = to_decimal(secs);
        out.append(&mut digits);
        out.push(0x2c);
        let mut artist = list[from].metadata.artist.as_str().as_bytes_vec();
        out.append(&mut artist);
        out.push(0x20);
        out.push(0x2d);
        out.push(0x20);
        let mut title = list[from].metadata.title.as_str().as_bytes_vec();
        out.append(&mut title);
        out.push(0x0d);
        out.push(0x0a);
        let mut k: usize = 0;
        let ghost mid = out@;
        while k < extras[from].len()
            invariant
                from < extras@.len(),
                k <= extras@[from as int]@.len(),
                out@ == mid + extras@[from as int]@.subrange(0, k as int),
            decreases extras@[from as int]@.len() - k,
        {
            out.push(extras[from][k]);
            k += 1;
        }
        proof {
            assert(out@ =~= mid + extras@[from as int]@);
        }
        out.push(0x0d);
        out.push(0x0a);
        let mut rest = m3u_entries_from(list, extras, from + 1);
        out.append(&mut rest);
        proof {
            assert(out@ =~= spec_m3u_entries(list@, extras@, from as int));
        }
        out
    }
}

} // verus!
