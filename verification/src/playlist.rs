//! Track metadata and the seeding order of the playlist.

use std::collections::VecDeque;
use vstd::prelude::*;

verus! {

/// What is known about a track before its bytes are fetched.
#[derive(Debug, Clone, PartialEq)]
pub struct SongMetadata {
    pub title: String,
    pub artist: String,
    pub youtube_url: Option<String>,
}

impl SongMetadata {
    /// An independent copy with the same title, artist and source hint.
    pub fn duplicate(&self) -> (r: SongMetadata)
        ensures
            r.title@ == self.title@,
            r.artist@ == self.artist@,
            r.youtube_url is Some <==> self.youtube_url is Some,
            self.youtube_url is Some ==> r.youtube_url->0@ == self.youtube_url->0@,
    {
        let youtube_url = match &self.youtube_url {
            Some(u) => Some(u.clone()),
            None => None,
        };
        SongMetadata { title: self.title.clone(), artist: self.artist.clone(), youtube_url }
    }
}

/// The seeder's deterministic insertion rule: the `i`-th accepted file goes
/// to the front of the playlist exactly when this holds of its index.
pub open spec fn spec_seed_front(i: int) -> bool {
    !(((((i % 11) % 7) % 5) % 3) % 2 == 0)
}

/// Inserts the `i`-th discovered track into the playlist: at the back for
/// indices the seeding rule accepts, at the front otherwise.
pub fn seed_insert(playlist: &mut VecDeque<SongMetadata>, song: SongMetadata, i: usize)
    ensures
        !spec_seed_front(i as int) ==> final(playlist)@ == old(playlist)@.push(song),
        spec_seed_front(i as int) ==> final(playlist)@ == seq![song] + old(playlist)@,
{
    if ((((i % 11) % 7) % 5) % 3) % 2 == 0 {
        playlist.push_back(song);
    } else {
        playlist.push_front(song);
    }
}

} // verus!
