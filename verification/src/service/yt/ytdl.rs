use vstd::prelude::*;

use crate::content::song::yt_song::YtSong;

verus! {

/// A playlist as yt-dlp describes it.
#[derive(Debug)]
pub struct YTDLPlaylist {
    pub title: Option<String>,
    pub songs: Vec<YTDLPlaylistSong>,
}

/// An entry of a playlist as yt-dlp describes it.
#[derive(Debug)]
pub struct YTDLPlaylistSong {
    pub id: Option<String>,
    pub title: Option<String>,
    pub uploader: Option<String>,
    pub channel_id: Option<String>,
}

impl YTDLPlaylistSong {
    /// The song this entry names. Panics where the entry has no title or no id.
    pub fn into_song(self) -> (r: YtSong)
        requires
            self.title is Some,
            self.id is Some,
        ensures
            r.title == self.title->Some_0,
            r.id == self.id->Some_0,
            r.artist@.len() == 0,
            r.album is None,
    {
        match (self.title, self.id) {
            (Some(title), Some(id)) => YtSong::new(title, id),
            _ => {
                proof {
                    assert(false);
                }
                YtSong::new(String::new(), String::new())
            },
        }
    }
}

/// A video as yt-dlp describes it.
#[derive(Debug)]
pub struct YtdlSong {
    pub id: Option<String>,
    pub title: Option<String>,
    pub thumbnails: Option<Vec<YtdlSongThumbnail>>,
    pub uploader: Option<String>,
    pub uploader_id: Option<String>,
    pub channel_id: Option<String>,
    pub tags: Option<Vec<String>>,
    pub album: Option<String>,
    pub artist: Option<String>,
    pub track: Option<String>,
    pub channel: Option<String>,
    pub creator: Option<String>,
    pub alt_title: Option<String>,
    pub availability: Option<String>,
    pub fulltitle: Option<String>,
    pub formats: Option<Vec<YtdlSongFormat>>,
}

/// A thumbnail of a video, with how much yt-dlp prefers it.
#[derive(Debug)]
pub struct YtdlSongThumbnail {
    pub preference: Option<i32>,
    pub url: Option<String>,
}

/// One of the formats a video can be fetched in.
#[derive(Debug)]
pub struct YtdlSongFormat {
    pub ext: Option<String>,
    pub vcodec: Option<String>,
    pub acodec: Option<String>,
    pub url: Option<String>,
    pub audio_ext: Option<String>,
    pub video_ext: Option<String>,
    pub format: Option<String>,
}

/// A codec that is named and is not "none".
pub open spec fn has_codec(c: Option<String>) -> bool {
    c matches Some(v) && v@ != "none"@
}

/// A codec named "none": the stream is absent.
pub open spec fn lacks_codec(c: Option<String>) -> bool {
    c matches Some(v) && v@ == "none"@
}

/// A format with video and without audio.
pub open spec fn is_video_only(f: YtdlSongFormat) -> bool {
    has_codec(f.vcodec) && lacks_codec(f.acodec)
}

/// A format with audio and without video, in the container `ext`.
pub open spec fn is_audio_only_in(f: YtdlSongFormat, ext: Seq<char>) -> bool {
    has_codec(f.acodec) && lacks_codec(f.vcodec) && (f.ext matches Some(e) && e@ == ext)
}

/// The last video-only format of `fs` (yt-dlp lists the best last).
pub open spec fn last_video_only(fs: Seq<YtdlSongFormat>) -> Option<int>
    decreases fs.len(),
{
    if fs.len() == 0 {
        None
    } else if is_video_only(fs.last()) {
        Some(fs.len() - 1)
    } else {
        last_video_only(fs.drop_last())
    }
}

/// The last audio-only format of `fs` in the container `ext`.
pub open spec fn last_audio_only_in(fs: Seq<YtdlSongFormat>, ext: Seq<char>) -> Option<int>
    decreases fs.len(),
{
    if fs.len() == 0 {
        None
    } else if is_audio_only_in(fs.last(), ext) {
        Some(fs.len() - 1)
    } else {
        last_audio_only_in(fs.drop_last(), ext)
    }
}

/// The url of the best audio-only stream: the last audio-only format in the
/// container of the last video-only format; none where a step finds nothing.
pub open spec fn best_audio_url_of(fs: Seq<YtdlSongFormat>) -> Option<Seq<char>> {
    match last_video_only(fs) {
        None => None,
        Some(v) => match fs[v].ext {
            None => None,
            Some(ext) => match last_audio_only_in(fs, ext@) {
                None => None,
                Some(a) => match fs[a].url {
                    None => None,
                    Some(u) => Some(u@),
                },
            },
        },
    }
}

/// A thumbnail that has both a preference and a url.
pub open spec fn is_rated(t: YtdlSongThumbnail) -> bool {
    t.preference is Some && t.url is Some
}

/// The rated thumbnail that a left-to-right pass keeps: each next one takes
/// the place of the kept one unless the kept one is strictly preferred.
pub open spec fn kept_thumbnail(ts: Seq<YtdlSongThumbnail>) -> Option<int>
    decreases ts.len(),
{
    if ts.len() == 0 {
        None
    } else {
        let k = kept_thumbnail(ts.drop_last());
        if !is_rated(ts.last()) {
            k
        } else {
            match k {
                None => Some(ts.len() - 1),
                Some(i) => if ts[i].preference->Some_0 > ts.last().preference->Some_0 {
                    Some(i)
                } else {
                    Some(ts.len() - 1)
                },
            }
        }
    }
}

proof fn lemma_last_video_only(fs: Seq<YtdlSongFormat>)
    ensures
        last_video_only(fs) matches Some(i) ==> 0 <= i < fs.len() && is_video_only(fs[i]),
    decreases fs.len(),
{
    if fs.len() > 0 {
        lemma_last_video_only(fs.drop_last());
    }
}

proof fn lemma_last_audio_only_in(fs: Seq<YtdlSongFormat>, ext: Seq<char>)
    ensures
        last_audio_only_in(fs, ext) matches Some(i) ==> 0 <= i < fs.len() && is_audio_only_in(fs[i], ext),
    decreases fs.len(),
{
    if fs.len() > 0 {
        lemma_last_audio_only_in(fs.drop_last(), ext);
    }
}

fn codec_present(c: &Option<String>, none: &String) -> (r: bool)
    requires
        none@ == "none"@,
    ensures
        r == has_codec(*c),
{
    match c {
        Some(v) => !(*v == *none),
        None => false,
    }
}

fn codec_absent(c: &Option<String>, none: &String) -> (r: bool)
    requires
        none@ == "none"@,
    ensures
        r == lacks_codec(*c),
{
    match c {
        Some(v) => *v == *none,
        None => false,
    }
}

/// The index of the last video-only format.
fn find_video_only(fs: &Vec<YtdlSongFormat>) -> (r: Option<usize>)
    ensures
        match r {
            Some(i) => last_video_only(fs@) == Some(i as int),
            None => last_video_only(fs@) is None,
        },
{
    let none = String::from_str("none");
    proof {
        reveal_strlit("none");
    }
    let mut k = fs.len();
    proof {
        assert(fs@.take(fs@.len() as int) =~= fs@);
    }
    while k > 0
        invariant
            k <= fs@.len(),
            none@ == "none"@,
            last_video_only(fs@) == last_video_only(fs@.take(k as int)),
        decreases k,
    {
        let f = &fs[k - 1];
        proof {
            assert(fs@.take(k as int).last() == fs@[k - 1]);
            assert(fs@.take(k as int).drop_last() =~= fs@.take(k - 1));
        }
        if codec_present(&f.vcodec, &none) && codec_absent(&f.acodec, &none) {
            return Some(k - 1);
        }
        k = k - 1;
    }
    proof {
        assert(fs@.take(0) =~= Seq::<YtdlSongFormat>::empty());
    }
    None
}

/// The index of the last audio-only format in the container `ext`.
fn find_audio_only_in(fs: &Vec<YtdlSongFormat>, ext: &String) -> (r: Option<usize>)
    ensures
        match r {
            Some(i) => last_audio_only_in(fs@, ext@) == Some(i as int),
            None => last_audio_only_in(fs@, ext@) is None,
        },
{
    let none = String::from_str("none");
    proof {
        reveal_strlit("none");
    }
    let mut k = fs.len();
    proof {
        assert(fs@.take(fs@.len() as int) =~= fs@);
    }
    while k > 0
        invariant
            k <= fs@.len(),
            none@ == "none"@,
            last_audio_only_in(fs@, ext@) == last_audio_only_in(fs@.take(k as int), ext@),
        decreases k,
    {
        let f = &fs[k - 1];
        proof {
            assert(fs@.take(k as int).last() == fs@[k - 1]);
            assert(fs@.take(k as int).drop_last() =~= fs@.take(k - 1));
        }
        let same_ext = match &f.ext {
            Some(e) => *e == *ext,
            None => false,
        };
        if codec_present(&f.acodec, &none) && codec_absent(&f.vcodec, &none) && same_ext {
            return Some(k - 1);
        }
        k = k - 1;
    }
    proof {
        assert(fs@.take(0) =~= Seq::<YtdlSongFormat>::empty());
    }
    None
}

impl YtdlSong {
    /// The url of the best audio-only stream: the last audio-only format in
    /// the container of the last video-only format. None where the video has
    /// no formats or a step finds nothing.
    pub fn best_audio_url(&self) -> (r: Option<String>)
        ensures
            match self.formats {
                None => r is None,
                Some(fs) => match best_audio_url_of(fs@) {
                    None => r is None,
                    Some(u) => r matches Some(s) && s@ == u,
                },
            },
    {
        let fs = match &self.formats {
            Some(fs) => fs,
            None => {
                return None;
            },
        };
        let v = match find_video_only(fs) {
            Some(v) => v,
            None => {
                return None;
            },
        };
        proof {
            lemma_last_video_only(fs@);
        }
        let ext = match &fs[v].ext {
            Some(e) => e,
            None => {
                return None;
            },
        };
        let a = match find_audio_only_in(fs, ext) {
            Some(a) => a,
            None => {
                return None;
            },
        };
        proof {
            lemma_last_audio_only_in(fs@, ext@);
        }
        match &fs[a].url {
            Some(u) => Some(u.clone()),
            None => None,
        }
    }

    /// The url of the most preferred thumbnail among those with a preference
    /// and a url (of equals, the last); none where there is none.
    pub fn best_thumbnail_url(&self) -> (r: Option<String>)
        ensures
            match self.thumbnails {
                None => r is None,
                Some(ts) => match kept_thumbnail(ts@) {
                    None => r is None,
                    Some(i) => r matches Some(s) && s@ == ts@[i].url->Some_0@,
                },
            },
    {
        let ts = match &self.thumbnails {
            Some(ts) => ts,
            None => {
                return None;
            },
        };
        let mut kept: Option<usize> = None;
        let mut k: usize = 0;
        while k < ts.len()
            invariant
                k <= ts@.len(),
                kept_thumbnail(ts@.take(k as int)) == match kept {
                    Some(i) => Some(i as int),
                    None => None::<int>,
                },
                kept matches Some(i) ==> i < k && is_rated(ts@[i as int]),
            decreases ts@.len() - k,
        {
            proof {
                assert(ts@.take(k + 1).drop_last() =~= ts@.take(k as int));
                assert(ts@.take(k + 1).last() == ts@[k as int]);
            }
            let t = &ts[k];
            let rated = t.preference.is_some() && t.url.is_some();
            if rated {
                match kept {
                    None => {
                        kept = Some(k);
                    },
                    Some(i) => {
                        let pi = match ts[i].preference {
                            Some(p) => p,
                            None => 0,
                        };
                        let pk = match t.preference {
                            Some(p) => p,
                            None => 0,
                        };
                        if !(pi > pk) {
                            kept = Some(k);
                        }
                    },
                }
            }
            k = k + 1;
        }
        proof {
            assert(ts@.take(ts@.len() as int) =~= ts@);
        }
        match kept {
            Some(i) => match &ts[i].url {
                Some(u) => Some(u.clone()),
                None => None,
            },
            None => None,
        }
    }
}

} // verus!
