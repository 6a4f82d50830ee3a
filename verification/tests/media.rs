use musimanager::content::song::metadata::SongPath;
use musimanager::content::song::tagged_file_song::{tag_value, TagItem, TagKey, TaggedFileSong};
use musimanager::content::song::untagged_file_song::UntaggedFileSong;
use musimanager::content::song::yt_song::YtSong;
use musimanager::content::song::Song;
use musimanager::service::yt::ytdl::{YTDLPlaylistSong, YtdlSong, YtdlSongFormat, YtdlSongThumbnail};
use musimanager::service::yt::ytmusic::{YTMusicAlbum, YTMusicSearchAlbum};

fn format(ext: &str, vcodec: &str, acodec: &str, url: &str) -> YtdlSongFormat {
    YtdlSongFormat {
        ext: Some(ext.to_string()),
        vcodec: Some(vcodec.to_string()),
        acodec: Some(acodec.to_string()),
        url: Some(url.to_string()),
        audio_ext: None,
        video_ext: None,
        format: None,
    }
}

fn ytdl_song(formats: Option<Vec<YtdlSongFormat>>, thumbnails: Option<Vec<YtdlSongThumbnail>>) -> YtdlSong {
    YtdlSong {
        id: Some("x".to_string()),
        title: None,
        thumbnails,
        uploader: None,
        uploader_id: None,
        channel_id: None,
        tags: None,
        album: None,
        artist: None,
        track: None,
        channel: None,
        creator: None,
        alt_title: None,
        availability: None,
        fulltitle: None,
        formats,
    }
}

#[test]
fn best_audio_is_the_last_audio_only_format_in_the_best_video_container() {
    let formats = vec![
        format("m4a", "none", "mp4a", "a1"),
        format("webm", "none", "opus", "a2"),
        format("mp4", "avc1", "none", "v1"),
        format("webm", "vp9", "none", "v2"),
        format("webm", "none", "opus", "a3"),
        format("mp4", "avc1", "mp4a", "av"),
    ];
    let s = ytdl_song(Some(formats), None);
    assert_eq!(s.best_audio_url(), Some("a3".to_string()));
    let only_video = ytdl_song(Some(vec![format("mp4", "avc1", "none", "v")]), None);
    assert_eq!(only_video.best_audio_url(), None);
    assert_eq!(ytdl_song(None, None).best_audio_url(), None);
}

#[test]
fn best_thumbnail_is_the_most_preferred_the_last_among_equals() {
    let t = |p: Option<i32>, u: &str| YtdlSongThumbnail { preference: p, url: Some(u.to_string()) };
    let s = ytdl_song(None, Some(vec![t(Some(-5), "a"), t(Some(3), "b"), t(None, "c"), t(Some(3), "d"), t(Some(1), "e")]));
    assert_eq!(s.best_thumbnail_url(), Some("d".to_string()));
    assert_eq!(ytdl_song(None, Some(vec![t(None, "c")])).best_thumbnail_url(), None);
}

#[test]
fn playlist_entries_and_search_results_become_songs_and_albums() {
    let e = YTDLPlaylistSong { id: Some("id1".to_string()), title: Some("T".to_string()), uploader: None, channel_id: None };
    let s = e.into_song();
    assert_eq!(s.title, "T");
    assert_eq!(s.id, "id1");
    let a = YTMusicSearchAlbum { title: Some("Album".to_string()), browse_id: Some("MPRE".to_string()), artists: None };
    assert_eq!(a.into_provider().get_name(), "Album");
    let album = YTMusicAlbum {
        title: Some("Album".to_string()),
        artists: None,
        audio_playlist_id: None,
        playlist_id: Some("PL".to_string()),
    };
    let mut p = album.into_provider();
    let (_, code) = p.load();
    assert!(code.code.contains("extract_info('PL'"));
}

#[test]
fn songs_describe_themselves() {
    let yt = YtSong::new("Song".to_string(), "abc".to_string());
    assert_eq!(yt.get_showable_info(), vec!["title: Song".to_string(), "video id: abc".to_string()]);
    assert!(yt.get_ytdl_song().code.contains("ytdl.extract_info(url='https://youtu.be/abc', download=False)"));
    let u = UntaggedFileSong::from_file_path("/m/x/y.flac");
    assert_eq!(u.title(), "y.flac");
    assert_eq!(u.get_uri(), "file:///m/x/y.flac");
    let s = Song::Untagged(u);
    assert!(!s.is_online());
    assert_eq!(s.get_showable_info()[0], "title: y.flac");
}

#[test]
fn tagged_song_needs_title_album_and_artist() {
    let item = |k: TagKey, t: Option<&str>| TagItem { key: k, text: t.map(|x| x.to_string()) };
    let items = vec![
        item(TagKey::TrackTitle, None),
        item(TagKey::TrackTitle, Some("One")),
        item(TagKey::AlbumTitle, Some("Alb")),
        item(TagKey::TrackArtist, Some("Art")),
        item(TagKey::TrackTitle, Some("Two")),
    ];
    assert_eq!(tag_value(&items, TagKey::TrackTitle), Some("One".to_string()));
    let s = TaggedFileSong::from_tags("/p.mp3", &items).expect("all tags found");
    assert_eq!(s.get_showable_info(), vec!["title: One".to_string(), "artist: Art".to_string(), "album: Alb".to_string()]);
    assert_eq!(s.get_uri(), "file:///p.mp3");
    let partial = vec![item(TagKey::TrackTitle, Some("One")), item(TagKey::AlbumTitle, Some("Alb"))];
    assert!(TaggedFileSong::from_tags("/p.mp3", &partial).is_none());
    assert_eq!(tag_value(&items, TagKey::Other), None);
}

#[test]
fn song_paths_are_uris() {
    assert_eq!(SongPath::LocalPath("/a".to_string()).to_string(), "file:///a");
    assert_eq!(SongPath::YTKey("k".to_string()).to_string(), "https://youtu.be/k");
    assert_eq!(SongPath::YTURL("u".to_string()).to_string(), "u");
}
