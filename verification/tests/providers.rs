use musimanager::content::providers::file_explorer::FileExplorer;
use musimanager::content::providers::main_provider::{MainProvider, MainProviderMenuOption};
use musimanager::content::providers::queue::Queue;
use musimanager::content::providers::queue_provider::{QueueProvider, MAX_QUEUES};
use musimanager::content::providers::yt_explorer::{
    url_code, YTEEditables, YTExplorer, YTExplorerChoice, YTExplorerEditable, YTSearchFilter, YTUrl,
};
use musimanager::content::providers::ytalbum::{YTAlbum, YTAlbumReply};
use musimanager::content::providers::ytplaylist::YTPlaylist;
use musimanager::content::providers::ContentProvider;
use musimanager::content::register::{ContentKey, ContentProviderID, SongID, ID};
use musimanager::content::selection::SelectedIndex;
use musimanager::content::stack::StateContext;
use musimanager::service::editors::Yank;
use musimanager::service::python::item::PyItem;

fn song(i: usize) -> SongID {
    SongID::from_parts(i, 0)
}

fn cp(i: usize) -> ContentProviderID {
    ContentProviderID::from_parts(i, 0)
}

#[test]
fn queue_plays_on_and_back() {
    let mut q = Queue::new(vec![song(1), song(2), song(3)], "q".to_string(), cp(9));
    q.select_song(song(2));
    assert_eq!(q.currently_playing, Some(1));
    assert_eq!(q.next_song(), Some(song(3)));
    assert_eq!(q.next_song(), None);
    assert_eq!(q.prev_song(), Some(song(2)));
    assert_eq!(q.prev_song(), Some(song(1)));
    assert_eq!(q.prev_song(), None);
}

#[test]
fn queue_removal_moves_selection_and_playback() {
    let mut q = Queue::new(vec![song(1), song(2), song(3)], "q".to_string(), cp(9));
    q.index.select(2);
    q.select_song(song(3));
    assert_eq!(q.remove_song(song(1)), Some(song(1)));
    assert_eq!(q.songs, vec![song(2), song(3)]);
    assert_eq!(q.index.selected_index(), 1);
    assert_eq!(q.currently_playing, Some(1));
    assert_eq!(q.remove_song(song(7)), None);
}

#[test]
fn queue_paste_then_remove_gives_back_the_queue() {
    let mut q = Queue::new(vec![song(1), song(2)], "q".to_string(), cp(9));
    let yanks = vec![Yank { item: song(5), index: 1 }, Yank { item: song(6), index: 2 }];
    q.paste(yanks, Some(1));
    assert_eq!(q.songs, vec![song(1), song(5), song(6), song(2)]);
    q.remove(vec![Yank { item: song(5), index: 1 }, Yank { item: song(6), index: 2 }]);
    assert_eq!(q.songs, vec![song(1), song(2)]);
}

#[test]
fn queue_insert_puts_songs_back_at_their_indices() {
    let mut q = Queue::new(vec![song(1), song(3)], "q".to_string(), cp(9));
    q.insert(vec![Yank { item: song(2), index: 1 }, Yank { item: song(4), index: 3 }]);
    assert_eq!(q.songs, vec![song(1), song(2), song(3), song(4)]);
}

#[test]
fn queue_provider_keeps_at_most_max_queues() {
    let mut qp = QueueProvider::new();
    for i in 0..MAX_QUEUES {
        assert_eq!(qp.add_queue(cp(i)), None);
    }
    assert_eq!(qp.add_queue(cp(100)), Some(cp(0)));
    assert_eq!(qp.providers()[0], cp(100));
    assert_eq!(qp.providers().len(), MAX_QUEUES);
    qp.move_to_top(5);
    assert_eq!(qp.providers()[0], cp(MAX_QUEUES - 5));
}

#[test]
fn main_provider_lists_queues_then_explorers() {
    let mut mp = MainProvider::new(cp(0));
    mp.load(cp(1), cp(2));
    assert_eq!(mp.ids(), vec![ID::ContentProvider(cp(0)), ID::ContentProvider(cp(1)), ID::ContentProvider(cp(2))]);
    assert_eq!(mp.get_name(), "main");
    assert_eq!(mp.num_options(), 4);
    assert_eq!(mp.apply_option(2), MainProviderMenuOption::ADD_FILE_EXPLORER);
}

#[test]
fn file_explorer_is_named_after_its_directory() {
    let fe = FileExplorer::new("/home/user/music");
    assert_eq!(fe.get_name(), "File Explorer: music");
    assert!(fe.is_editable());
    assert_eq!(fe.editable_label(fe.editables()[0]), "Path: /home/user/music");
    let child = FileExplorer::new_child("/home/user/music/rock/");
    assert_eq!(child.get_name(), "rock");
    assert!(!child.is_editable());
}

#[test]
fn file_explorer_path_edit_starts_over() {
    let mut fe = FileExplorer::new("/a");
    fe.add_song(song(1));
    fe.add_provider(cp(2));
    assert_eq!(fe.ids(), vec![ID::ContentProvider(cp(2)), ID::Song(song(1))]);
    let ids = fe.apply_path("/b/c");
    assert_eq!(ids, vec![ID::Song(song(1)), ID::ContentProvider(cp(2))]);
    assert_eq!(fe.get_name(), "File Explorer: c");
    assert_eq!(fe.get_size(), 0);
}

#[test]
fn yt_explorer_edit_screens() {
    let mut yt = YTExplorer::new();
    assert_eq!(yt.get_name(), "Youtube");
    let mut ctx = StateContext::new();
    assert_eq!(yt.num_editables(&ctx), 3);
    let labels: Vec<String> = yt.editables(&ctx).into_iter().map(|e| yt.editable_label(e)).collect();
    assert_eq!(labels, vec!["filter: Albums".to_string(), "search term: ".to_string(), "url".to_string()]);
    // choose the filter entry, then "Songs"
    assert!(matches!(yt.select_editable(&mut ctx), YTExplorerChoice::Opened));
    assert_eq!(ctx.len(), 2);
    assert_eq!(yt.editables(&ctx)[1], YTExplorerEditable::SFilter(YTSearchFilter::Songs));
    ctx.last_mut().select(1);
    assert!(matches!(yt.select_editable(&mut ctx), YTExplorerChoice::FilterChosen));
    assert_eq!(yt.editable_label(YTExplorerEditable::Main(YTEEditables::FILTER)), "filter: Songs");
}

#[test]
fn yt_explorer_search_term_renames_and_builds_the_search() {
    let mut yt = YTExplorer::new();
    yt.add_song(song(4));
    let (ids, code) = yt.apply_search_term("daft punk".to_string());
    assert_eq!(ids, vec![ID::Song(song(4))]);
    assert_eq!(yt.get_name(), "Youtube: daft punk");
    assert!(yt.is_loaded());
    assert!(code.code.contains("data = ytmusic.search('daft punk', filter='albums', limit=75, ignore_spelling=True)"));
    assert!(code.code.contains("handle = thread(target=try_catch, args=[function])"));
    let names: Vec<String> = code.globals.unwrap().iter().map(|i| i.get_name().clone()).collect();
    assert_eq!(names, vec!["ytmusic".to_string(), "json".to_string(), "thread".to_string()]);
}

#[test]
fn yt_explorer_url_names_the_kind() {
    let mut yt = YTExplorer::new();
    let (_, code) = yt.apply_url(YTUrl::Video, "https://youtu.be/x");
    assert_eq!(yt.get_name(), "Youtube: Video Url");
    assert!(code.code.contains("data = ytdl.extract_info('https://youtu.be/x', download=False)"));
    let c = url_code("u");
    assert!(matches!(c.globals.as_ref().unwrap()[0], PyItem::Ytdl(_)));
}

#[test]
fn search_filters_name_the_query() {
    assert_eq!(YTSearchFilter::Playlists.ytmusic_filter(), "playlists");
    assert_eq!(YTSearchFilter::Videos.to_string(), "Videos");
    assert_eq!(YTEEditables::SEARCH_TERM.to_string(), "search term");
}

#[test]
fn album_loads_by_its_id() {
    let mut by_browse = YTAlbum::new_browse_id("Discovery", "MPREb_1");
    let (reply, code) = by_browse.load();
    assert_eq!(reply, YTAlbumReply::Album);
    assert!(code.code.contains("album_data = ytmusic.get_album('MPREb_1')"));
    assert!(!by_browse.is_loaded());
    let mut by_playlist = YTAlbum::new_playlist_id("Discovery", "OLAK5");
    let (reply, code) = by_playlist.load();
    assert_eq!(reply, YTAlbumReply::Playlist);
    assert!(code.code.contains("data = ytdl.extract_info('OLAK5', download=False)"));
    assert!(by_playlist.is_loaded());
}

#[test]
fn playlist_loads_its_tracks() {
    let mut p = YTPlaylist::new_browse_id("Mix", "VLPL1");
    let code = p.load();
    assert!(p.is_loaded());
    assert!(code.code.contains("playlist_data = ytmusic.get_playlist('VLPL1')"));
    p.add_song(song(1));
    p.add_song(song(2));
    assert!(p.selection_increment());
    assert_eq!(p.get_selected(), ID::Song(song(2)));
    assert!(!p.selection_increment());
}

#[test]
fn provider_dispatch_lists_providers_then_songs() {
    let mut fe = FileExplorer::new("/m");
    fe.add_song(song(1));
    fe.add_provider(cp(2));
    let mut p = ContentProvider::FileExplorer(fe);
    assert_eq!(p.ids(), vec![ID::ContentProvider(cp(2)), ID::Song(song(1))]);
    assert_eq!(p.get_selected(), ID::ContentProvider(cp(2)));
    assert!(p.selection_increment());
    assert_eq!(p.get_selected(), ID::Song(song(1)));
    assert_eq!(p.remove_song(song(1)), Some(song(1)));
    assert_eq!(p.get_selected_index().selected_index(), 0);
    assert!(p.is_editable());
    assert!(p.needs_load());
    let q = ContentProvider::Queue(Queue::new(vec![], "q".to_string(), cp(0)));
    assert!(!q.is_editable() && !q.has_menu() && q.lists_song_ids() && !q.lists_provider_ids());
    let _ = SelectedIndex::new();
}
