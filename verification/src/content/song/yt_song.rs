use vstd::prelude::*;

use crate::service::python::code::{assembled_code, json_named, runs_with, threaded_code, ytdl_named, PyCode};
use crate::service::python::item::{Json, PyItem, Ytdl};
use crate::service::text::{concat2, concat3};

verus! {

pub const YTDL_SONG_HEAD: &'static str = "\n                    ytdl_data = ytdl.extract_info(url='https://youtu.be/";

pub const YTDL_SONG_TAIL: &'static str = "', download=False)\n                    data = json.dumps(ytdl_data, indent=4)\n                    return data\n                ";

pub const YTDL_SONG_LOG: &'static str = "\n                    with open('config/temp/ytdl_song.log', 'r') as f:\n                        data = f.read()\n                    return data\n                ";

/// A song on youtube, known by its video id.
#[derive(Debug)]
pub struct YtSong {
    pub title: String,
    pub artist: String,
    pub album: Option<String>,
    pub id: String,
}

impl YtSong {
    /// A song known only by its title and video id, as search results and
    /// playlist entries give it: no artist, no album.
    pub fn new(title: String, id: String) -> (r: YtSong)
        ensures
            r.title == title,
            r.id == id,
            r.artist@.len() == 0,
            r.album is None,
    {
        YtSong { title, artist: String::new(), album: None, id }
    }

    /// The code that asks yt-dlp about the video, on a thread, with the
    /// downloader and json; where the song's uri and art come from.
    pub fn get_ytdl_song(&self) -> (r: PyCode)
        ensures
            r.code@ == assembled_code(YTDL_SONG_HEAD@ + self.id@ + YTDL_SONG_TAIL@, true),
            runs_with(r.globals, |i: PyItem| ytdl_named(i), |i: PyItem| json_named(i)),
    {
        let body = concat3(YTDL_SONG_HEAD, self.id.as_str(), YTDL_SONG_TAIL);
        let globals = vec![PyItem::Ytdl(Ytdl::new("ytdl")), PyItem::Json(Json::new("json"))];
        threaded_code(body, Some(String::from_str(YTDL_SONG_LOG)), globals)
    }

    pub fn is_online(&self) -> (r: bool)
        ensures
            r,
    {
        true
    }

    pub fn title(&self) -> (r: &str)
        ensures
            r@ == self.title@,
    {
        self.title.as_str()
    }

    pub fn artist(&self) -> (r: Option<&str>)
        ensures
            r matches Some(a) && a@ == self.artist@,
    {
        Some(self.artist.as_str())
    }

    pub fn album(&self) -> (r: Option<&str>)
        ensures
            match self.album {
                Some(a) => r matches Some(s) && s@ == a@,
                None => r is None,
            },
    {
        match &self.album {
            Some(a) => Some(a.as_str()),
            None => None,
        }
    }

    /// The lines shown about the song.
    pub fn get_showable_info(&self) -> (r: Vec<String>)
        ensures
            r@.len() == 2,
            r@[0]@ == "title: "@ + self.title@,
            r@[1]@ == "video id: "@ + self.id@,
    {
        vec![concat2("title: ", self.title.as_str()), concat2("video id: ", self.id.as_str())]
    }
}

} // verus!
