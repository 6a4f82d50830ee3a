use vstd::prelude::*;

use crate::service::text::concat2;

verus! {

/// The tags a song is described by; the rest are of no interest here.
#[derive(Clone, Copy, Debug, PartialEq, Eq, Structural)]
pub enum TagKey {
    TrackTitle,
    TrackArtist,
    AlbumTitle,
    Other,
}

/// An item of a file's tags: its key and, where it is text, its value.
#[derive(Debug)]
pub struct TagItem {
    pub key: TagKey,
    pub text: Option<String>,
}

/// The first item with key `key` that holds text.
pub open spec fn first_text(items: Seq<TagItem>, key: TagKey) -> Option<int>
    decreases items.len(),
{
    if items.len() == 0 {
        None
    } else if items[0].key == key && items[0].text is Some {
        Some(0)
    } else {
        match first_text(items.drop_first(), key) {
            Some(i) => Some(i + 1),
            None => None,
        }
    }
}

proof fn lemma_first_text_step(items: Seq<TagItem>, k: int, key: TagKey)
    requires
        0 <= k < items.len(),
        !(items[k].key == key && items[k].text is Some),
    ensures
        first_text(items.skip(k), key) == match first_text(items.skip(k + 1), key) {
            Some(i) => Some(i + 1),
            None => None::<int>,
        },
{
    assert(items.skip(k).drop_first() =~= items.skip(k + 1));
}

/// The text of the first item of `items` with key `key` that holds text, as
/// the tags of a file are searched.
pub fn tag_value(items: &Vec<TagItem>, key: TagKey) -> (r: Option<String>)
    ensures
        match first_text(items@, key) {
            Some(i) => r matches Some(s) && s@ == items@[i].text->Some_0@,
            None => r is None,
        },
{
    let mut k: usize = 0;
    proof {
        assert(items@.skip(0) =~= items@);
    }
    while k < items.len()
        invariant
            k <= items@.len(),
            first_text(items@, key) == match first_text(items@.skip(k as int), key) {
                Some(i) => Some(i + k),
                None => None::<int>,
            },
        decreases items@.len() - k,
    {
        if items[k].key == key {
            match &items[k].text {
                Some(t) => {
                    proof {
                        assert(items@.skip(k as int)[0] == items@[k as int]);
                    }
                    return Some(t.clone());
                },
                None => {},
            }
        }
        proof {
            lemma_first_text_step(items@, k as int, key);
        }
        k = k + 1;
    }
    proof {
        assert(items@.skip(k as int) =~= Seq::<TagItem>::empty());
    }
    None
}

/// An audio file with a title, an album and an artist in its tags.
#[derive(Debug)]
pub struct TaggedFileSong {
    title: String,
    album: String,
    artist: String,
    path: String,
}

impl TaggedFileSong {
    pub closed spec fn title_view(&self) -> Seq<char> {
        self.title@
    }

    pub closed spec fn album_view(&self) -> Seq<char> {
        self.album@
    }

    pub closed spec fn artist_view(&self) -> Seq<char> {
        self.artist@
    }

    pub closed spec fn path_view(&self) -> Seq<char> {
        self.path@
    }

    /// The song at `path` described by the tag items read from it: there is
    /// one where a title, an album and an artist are all found.
    pub fn from_tags(path: &str, items: &Vec<TagItem>) -> (r: Option<TaggedFileSong>)
        ensures
            match (
                first_text(items@, TagKey::TrackTitle),
                first_text(items@, TagKey::AlbumTitle),
                first_text(items@, TagKey::TrackArtist),
            ) {
                (Some(t), Some(al), Some(ar)) => r matches Some(s) && {
                    &&& s.title_view() == items@[t].text->Some_0@
                    &&& s.album_view() == items@[al].text->Some_0@
                    &&& s.artist_view() == items@[ar].text->Some_0@
                    &&& s.path_view() == path@
                },
                _ => r is None,
            },
    {
        let title = tag_value(items, TagKey::TrackTitle);
        let album = tag_value(items, TagKey::AlbumTitle);
        let artist = tag_value(items, TagKey::TrackArtist);
        match (title, album, artist) {
            (Some(title), Some(album), Some(artist)) => Some(
                TaggedFileSong { title, album, artist, path: String::from_str(path) },
            ),
            _ => None,
        }
    }

    pub fn is_online(&self) -> (r: bool)
        ensures
            !r,
    {
        false
    }

    pub fn title(&self) -> (r: &str)
        ensures
            r@ == self.title_view(),
    {
        self.title.as_str()
    }

    pub fn album(&self) -> (r: Option<&str>)
        ensures
            r matches Some(a) && a@ == self.album_view(),
    {
        Some(self.album.as_str())
    }

    pub fn artist(&self) -> (r: Option<&str>)
        ensures
            r matches Some(a) && a@ == self.artist_view(),
    {
        Some(self.artist.as_str())
    }

    /// The lines shown about the song.
    pub fn get_showable_info(&self) -> (r: Vec<String>)
        ensures
            r@.len() == 3,
            r@[0]@ == "title: "@ + self.title_view(),
            r@[1]@ == "artist: "@ + self.artist_view(),
            r@[2]@ == "album: "@ + self.album_view(),
    {
        vec![
            concat2("title: ", self.title.as_str()),
            concat2("artist: ", self.artist.as_str()),
            concat2("album: ", self.album.as_str()),
        ]
    }

    /// The uri the song is played from.
    pub fn get_uri(&self) -> (r: String)
        ensures
            r@ == "file://"@ + self.path_view(),
    {
        concat2("file://", self.path.as_str())
    }
}

} // verus!
