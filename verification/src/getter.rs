//! Where track bytes come from: the on-disk layout of the media directory,
//! and the argument lists and outcome rules for the external downloader and
//! transcoder.  Opening files and spawning the programs is the caller's
//! work; every path, argument and verdict is computed here.

use vstd::prelude::*;

use crate::playlist::SongMetadata;

verus! {

use vstd::string::StringExecFns;

/// File extension of stored media.
#[derive(Debug, Clone, Copy)]
pub enum Ext {
    Mp3,
}

impl Ext {
    /// The extension as it appears in file names.
    pub fn as_str(self) -> (r: &'static str)
        ensures
            r@ == "mp3"@,
    {
        "mp3"
    }
}

/// The media directory: tracks live at `<dir>/<artist>/<title>.<ext>`.
#[derive(Debug)]
pub struct Fs {
    dir: String,
    ext: Ext,
}

impl Fs {
    /// The root directory.
    pub closed spec fn spec_dir(self) -> Seq<char> {
        self.dir@
    }

    /// A store rooted at `dir` holding files with extension `ext`.
    pub fn new(dir: String, ext: Ext) -> (r: Fs)
        ensures
            r.spec_dir() == dir@,
    {
        Fs { dir, ext }
    }

    /// The path of a track's file with the given extension.
    pub fn path_with_ext(&self, song: &SongMetadata, ext: &str) -> (p: String)
        ensures
            p@ == self.spec_dir() + "/"@ + song.artist@ + "/"@ + song.title@ + "."@ + ext@,
    {
        let mut p = self.dir.clone();
        p.append("/");
        p.append(song.artist.as_str());
        p.append("/");
        p.append(song.title.as_str());
        p.append(".");
        p.append(ext);
        p
    }

    /// The path where a track is stored: `<dir>/<artist>/<title>.<ext>`.
    pub fn path(&self, song: &SongMetadata) -> (p: String)
        ensures
            p@ == self.spec_dir() + "/"@ + song.artist@ + "/"@ + song.title@ + "."@ + "mp3"@,
    {
        self.path_with_ext(song, self.ext.as_str())
    }
}

/// Why fetching a track failed: an I/O fault, a failed download, or a
/// failed transcode.
#[derive(Debug, Clone, Copy, PartialEq, Eq, Structural)]
pub enum Error {
    Io,
    Download,
    Transcode,
}

impl Error {
    /// Judges a child process run: an I/O fault is passed through, a zero
    /// exit succeeds, and a non-zero exit yields the given error.
    pub fn success(res: Result<bool, Error>, err: Error) -> (r: Result<(), Error>)
        ensures
            match res {
                Ok(true) => r == Ok::<(), Error>(()),
                Ok(false) => r == Err::<(), Error>(err),
                Err(e) => r == Err::<(), Error>(e),
            },
    {
        match res {
            Ok(true) => Ok(()),
            Ok(false) => Err(err),
            Err(e) => Err(e),
        }
    }
}

/// The downloader-backed getter: fetches a track's audio with an external
/// downloader and hands it to the transcoder.
#[derive(Debug)]
pub struct YoutubeDl {
    pub executable: String,
    pub ffmpeg: String,
    pub fs: Option<Fs>,
}

impl YoutubeDl {
    /// This getter can fetch exactly the tracks that carry a source hint.
    pub fn can_get(&self, song: &SongMetadata) -> (r: Option<bool>)
        ensures
            r matches Some(b) && b == (song.youtube_url is Some),
    {
        Some(song.youtube_url.is_some())
    }

    /// The downloader's argument list: the source URL, best-audio format
    /// selection, and the output path.
    pub fn download_args(&self, song: &SongMetadata, out: &str) -> (r: Vec<String>)
        requires
            song.youtube_url is Some,
        ensures
            r@.len() == 5,
            r@[0]@ == song.youtube_url->0@,
            r@[1]@ == "-f"@,
            r@[2]@ == "bestaudio"@,
            r@[3]@ == "-o"@,
            r@[4]@ == out@,
    {
        let url = match &song.youtube_url {
            Some(u) => u.clone(),
            None => {
                proof {
                    assert(false);
                }
                String::new()
            },
        };
        let mut args: Vec<String> = Vec::new();
        args.push(url);
        args.push(String::from_str("-f"));
        args.push(String::from_str("bestaudio"));
        args.push(String::from_str("-o"));
        args.push(String::from_str(out));
        args
    }

    /// The downloader's argument list when no media store is configured:
    /// best-audio format selection with the bytes captured from standard
    /// output.
    pub fn download_stdout_args(&self, song: &SongMetadata) -> (r: Vec<String>)
        requires
            song.youtube_url is Some,
        ensures
            r@.len() == 5,
            r@[0]@ == song.youtube_url->0@,
            r@[1]@ == "-f"@,
            r@[2]@ == "bestaudio"@,
            r@[3]@ == "-o"@,
            r@[4]@ == "-"@,
    {
        let url = match &song.youtube_url {
            Some(u) => u.clone(),
            None => {
                proof {
                    assert(false);
                }
                String::new()
            },
        };
        let mut args: Vec<String> = Vec::new();
        args.push(url);
        args.push(String::from_str("-f"));
        args.push(String::from_str("bestaudio"));
        args.push(String::from_str("-o"));
        args.push(String::from_str("-"));
        args
    }

    /// The transcoder's argument list: the downloaded input and the final
    /// output path.
    pub fn transcode_args(&self, input: &str, output: &str) -> (r: Vec<String>)
        ensures
            r@.len() == 3,
            r@[0]@ == "-i"@,
            r@[1]@ == input@,
            r@[2]@ == output@,
    {
        let mut args: Vec<String> = Vec::new();
        args.push(String::from_str("-i"));
        args.push(String::from_str(input));
        args.push(String::from_str(output));
        args
    }
}

} // verus!
