pub mod metadata;
pub mod tagged_file_song;
pub mod traits;
pub mod untagged_file_song;
pub mod yt_song;

use vstd::prelude::*;

use crate::content::song::tagged_file_song::TaggedFileSong;
use crate::content::song::untagged_file_song::UntaggedFileSong;
use crate::content::song::yt_song::YtSong;

verus! {

/// A song of any kind.
#[derive(Debug)]
pub enum Song {
    Tagged(TaggedFileSong),
    Untagged(UntaggedFileSong),
    Yt(YtSong),
}

impl Song {
    /// The title shown for the song.
    pub open spec fn title_of(&self) -> Seq<char> {
        match self {
            Song::Tagged(s) => s.title_view(),
            Song::Untagged(s) => s.title_view(),
            Song::Yt(s) => s.title@,
        }
    }

    pub fn title(&self) -> (r: &str)
        ensures
            r@ == self.title_of(),
    {
        match self {
            Song::Tagged(s) => s.title(),
            Song::Untagged(s) => s.title(),
            Song::Yt(s) => s.title(),
        }
    }

    /// Whether the song is fetched over the network.
    pub fn is_online(&self) -> (r: bool)
        ensures
            r == (self is Yt),
    {
        match self {
            Song::Tagged(s) => s.is_online(),
            Song::Untagged(s) => s.is_online(),
            Song::Yt(s) => s.is_online(),
        }
    }

    /// The lines shown about the song: its title first.
    pub fn get_showable_info(&self) -> (r: Vec<String>)
        ensures
            r@.len() >= 1,
            r@[0]@ == "title: "@ + self.title_of(),
            match self {
                Song::Tagged(s) => r@.len() == 3 && r@[1]@ == "artist: "@ + s.artist_view() && r@[2]@ == "album: "@
                    + s.album_view(),
                Song::Untagged(_) => r@.len() == 1,
                Song::Yt(s) => r@.len() == 2 && r@[1]@ == "video id: "@ + s.id@,
            },
    {
        match self {
            Song::Tagged(s) => s.get_showable_info(),
            Song::Untagged(s) => s.get_showable_info(),
            Song::Yt(s) => s.get_showable_info(),
        }
    }
}

} // verus!
