use musimanager::content::manager::check::RegisterMismatch;
use musimanager::content::manager::manager::{ContentManager, Entered};
use musimanager::content::register::{ContentKey, ContentProviderID, GlobalContent, SongID, ID};
use musimanager::content::song::untagged_file_song::UntaggedFileSong;
use musimanager::content::song::Song;
use musimanager::content::stack::ContentState;

fn main_id(cm: &ContentManager) -> ContentProviderID {
    cm.content_stack.main_provider()
}

fn child(cm: &ContentManager, p: ContentProviderID, i: usize) -> ContentProviderID {
    match cm.get_provider(p).ids()[i] {
        ID::ContentProvider(c) => c,
        _ => panic!("provider expected"),
    }
}

fn occurrences(v: &[ID], x: ID) -> usize {
    v.iter().filter(|y| **y == x).count()
}

#[test]
fn a_new_manager_agrees_with_its_registers() {
    let cm = ContentManager::new("/m");
    assert!(cm.check_for_register().is_empty());
}

#[test]
fn the_wild_ids_of_a_new_manager() {
    let cm = ContentManager::new("/m");
    let main = main_id(&cm);
    let qp = child(&cm, main, 0);
    let fe = child(&cm, main, 1);
    let yt = child(&cm, main, 2);
    let wild = cm.ids_in_the_wild();
    assert_eq!(wild.len(), 5);
    assert_eq!(wild[0], ID::ContentProvider(main));
    assert_eq!(occurrences(&wild, ID::ContentProvider(main)), 1);
    assert_eq!(occurrences(&wild, ID::ContentProvider(qp)), 2);
    assert_eq!(occurrences(&wild, ID::ContentProvider(fe)), 1);
    assert_eq!(occurrences(&wild, ID::ContentProvider(yt)), 1);
    assert_eq!(wild[4], ID::ContentProvider(qp));
}

#[test]
fn a_provider_on_the_stack_is_walked_into_once() {
    let mut cm = ContentManager::new("/m");
    let main = main_id(&cm);
    let fe = child(&cm, main, 1);
    let songs = vec![Song::Untagged(UntaggedFileSong::from_file_path("/m/a.mp3"))];
    cm.load_content_provider(songs, vec![], fe);
    assert!(cm.push_to_content_stack(fe));
    let s = match cm.get_provider(fe).ids()[0] {
        ID::Song(s) => s,
        _ => panic!("song expected"),
    };
    let wild = cm.ids_in_the_wild();
    // once listed by the main provider, once on the stack
    assert_eq!(occurrences(&wild, ID::ContentProvider(fe)), 2);
    // its song is listed once, though the provider is reached twice
    assert_eq!(occurrences(&wild, ID::Song(s)), 1);
    assert!(cm.check_for_register().is_empty());
}

#[test]
fn an_extra_count_is_reported() {
    let mut cm = ContentManager::new("/m");
    let main = main_id(&cm);
    let fe = child(&cm, main, 1);
    cm.register(GlobalContent::ID(ID::ContentProvider(fe)));
    let found = cm.check_for_register();
    assert_eq!(found, vec![RegisterMismatch::CountDiffers { id: ID::ContentProvider(fe), found: 1, recorded: 2 }]);
}

#[test]
fn ids_of_nothing_and_items_held_by_nothing_are_reported() {
    let cm = ContentManager::new("/m");
    let main = main_id(&cm);
    let ghost_id = ID::Song(SongID::from_parts(7, 0));
    let wild = vec![ID::ContentProvider(main), ghost_id, ghost_id];
    let found = cm.compare_with_registers(&wild);
    assert_eq!(found.len(), 4);
    assert!(found.contains(&RegisterMismatch::NoItem { id: ghost_id, found: 2 }));
    let qp = child(&cm, main, 0);
    assert!(found.contains(&RegisterMismatch::Leaked { id: ID::ContentProvider(qp), recorded: 2 }));
    assert!(found.contains(&RegisterMismatch::Leaked { id: ID::ContentProvider(child(&cm, main, 1)), recorded: 1 }));
    assert!(found.contains(&RegisterMismatch::Leaked { id: ID::ContentProvider(child(&cm, main, 2)), recorded: 1 }));
    assert!(!found.iter().any(|m| matches!(m, RegisterMismatch::Leaked { id, .. } if *id == ID::ContentProvider(main))));
}

#[test]
fn with_no_queue_playing_no_song_is_played() {
    let mut cm = ContentManager::new("/m");
    assert_eq!(cm.next_song(), Ok(None));
    assert_eq!(cm.prev_song(), Ok(None));
    assert!(cm.active_song.is_none());
}

#[test]
fn stepping_through_the_queue_plays_its_songs() {
    let mut cm = ContentManager::new("/m");
    let main = main_id(&cm);
    let fe = child(&cm, main, 1);
    let songs = vec![
        Song::Untagged(UntaggedFileSong::from_file_path("/m/a.mp3")),
        Song::Untagged(UntaggedFileSong::from_file_path("/m/b.mp3")),
    ];
    cm.load_content_provider(songs, vec![], fe);
    let ids = cm.get_provider(fe).ids();
    let (a, b) = match (&ids[0], &ids[1]) {
        (ID::Song(a), ID::Song(b)) => (*a, *b),
        _ => panic!("songs expected"),
    };
    assert!(cm.push_to_content_stack(fe));
    match cm.enter_selected() {
        Ok(Entered::Song(s)) => assert_eq!(s, a),
        _ => panic!("song expected"),
    }
    assert_eq!(cm.active_song, Some(a));
    assert_eq!(cm.prev_song(), Ok(None));
    assert_eq!(cm.next_song(), Ok(Some(b)));
    assert_eq!(cm.active_song, Some(b));
    assert_eq!(cm.next_song(), Ok(None));
    assert_eq!(cm.active_song, Some(b));
    assert_eq!(cm.prev_song(), Ok(Some(a)));
    assert_eq!(cm.active_song, Some(a));
    assert!(cm.check_for_register().is_empty());
}

#[test]
fn menus_open_for_the_top_and_the_selected_provider() {
    let mut cm = ContentManager::new("/m");
    let main = main_id(&cm);
    cm.open_menu_for_current();
    match cm.content_stack.get_state() {
        ContentState::Menu { id, .. } => assert_eq!(*id, GlobalContent::ID(ID::ContentProvider(main))),
        _ => panic!("menu expected"),
    }
    // in a menu, nothing more opens
    cm.open_edit_for_current();
    assert!(matches!(cm.content_stack.get_state(), ContentState::Menu { .. }));
    let _ = cm.pop_content_stack();
    assert!(matches!(cm.content_stack.get_state(), ContentState::Normal));
    // the main provider has no edit screen
    cm.open_edit_for_current();
    assert!(matches!(cm.content_stack.get_state(), ContentState::Normal));
    // the youtube explorer, selected, has one
    cm.increment_selection();
    cm.increment_selection();
    let yt = child(&cm, main, 2);
    cm.open_edit_for_selected();
    match cm.content_stack.get_state() {
        ContentState::Edit { id, .. } => assert_eq!(*id, GlobalContent::ID(ID::ContentProvider(yt))),
        _ => panic!("edit screen expected"),
    }
    let _ = cm.pop_content_stack();
    // the queue provider, selected, has no menu
    cm.decrement_selection();
    cm.decrement_selection();
    cm.open_menu_for_selected();
    assert!(matches!(cm.content_stack.get_state(), ContentState::Normal));
}

#[test]
fn a_clone_lists_the_same_and_counts_what_it_lists() {
    let mut cm = ContentManager::new("/m");
    let main = main_id(&cm);
    let fe = child(&cm, main, 1);
    let songs = vec![Song::Untagged(UntaggedFileSong::from_file_path("/m/a.mp3"))];
    cm.load_content_provider(songs, vec![], fe);
    let s = match cm.get_provider(fe).ids()[0] {
        ID::Song(s) => s,
        _ => panic!("song expected"),
    };
    let before = cm.songs.get_id_count(s.index()).map(|(_, c)| c);
    let copy = cm.clone_content_provider(fe).expect("a copy");
    assert_ne!(copy, fe);
    assert_eq!(cm.get_provider(copy).get_name(), cm.get_provider(fe).get_name());
    assert_eq!(cm.get_provider(copy).ids(), cm.get_provider(fe).ids());
    assert_eq!(cm.songs.get_id_count(s.index()).map(|(_, c)| c), before.map(|c| c + 1));
    // nothing holds the copy yet, nor the ids counted for it
    assert_eq!(
        cm.check_for_register(),
        vec![
            RegisterMismatch::CountDiffers { id: ID::Song(s), found: 1, recorded: 2 },
            RegisterMismatch::Leaked { id: ID::ContentProvider(copy), recorded: 1 },
        ]
    );
}

#[test]
fn the_selection_shown_is_the_top_providers() {
    let mut cm = ContentManager::new("/m");
    assert_eq!(cm.get_selected_index().selected_index(), 0);
    cm.increment_selection();
    assert_eq!(cm.get_selected_index().selected_index(), 1);
    let main = main_id(&cm);
    cm.open_menu_for(GlobalContent::ID(ID::ContentProvider(main)));
    assert_eq!(cm.get_selected_index().selected_index(), 0);
}
