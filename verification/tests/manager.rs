use musimanager::app::keys::BrowserCommand;
use musimanager::content::manager::browser::BrowserOutcome;
use musimanager::content::manager::manager::{ActionError, ContentManager, Entered, RegisterError};
use musimanager::service::editors::{Edit, Yank, YankAction, YankedContent};
use musimanager::content::providers::main_provider::MainProviderMenuOption;
use musimanager::content::providers::queue::Queue;
use musimanager::content::providers::yt_explorer::YTExplorer;
use musimanager::content::providers::ContentProvider;
use musimanager::content::register::{ContentKey, ContentProviderID, GlobalContent, ID};
use musimanager::content::song::untagged_file_song::UntaggedFileSong;
use musimanager::content::song::Song;
use musimanager::content::stack::ContentState;

fn main_id(cm: &ContentManager) -> ContentProviderID {
    cm.content_stack.main_provider()
}

fn count(cm: &ContentManager, id: ContentProviderID) -> Option<u32> {
    cm.content_providers.get_id_count(id.index()).map(|(_, c)| c)
}

#[test]
fn new_manager_holds_the_main_provider_and_its_children() {
    let cm = ContentManager::new("/home/user/music");
    let main = main_id(&cm);
    assert_eq!(main.index(), 3);
    let ids = cm.get_provider(main).ids();
    assert_eq!(ids.len(), 3);
    match &ids[0] {
        ID::ContentProvider(q) => assert_eq!(count(&cm, *q), Some(2)),
        _ => panic!("queue provider expected"),
    }
    assert_eq!(cm.content_stack.len(), 1);
    assert!(cm.active_song.is_none() && cm.active_queue.is_none());
}

#[test]
fn entering_a_provider_and_stepping_back_restores_the_counts() {
    let mut cm = ContentManager::new("/m");
    let main = main_id(&cm);
    cm.increment_selection();
    let fe = match cm.get_provider(main).get_selected() {
        ID::ContentProvider(p) => p,
        _ => panic!("provider expected"),
    };
    let before = count(&cm, fe);
    match cm.enter_selected() {
        Ok(Entered::Opened { id, needs_load }) => {
            assert_eq!(id, fe);
            assert!(needs_load);
        },
        _ => panic!("provider should open"),
    }
    assert_eq!(cm.content_stack.len(), 2);
    assert_eq!(count(&cm, fe), before.map(|c| c + 1));
    assert_eq!(cm.pop_content_stack(), Ok(Some(GlobalContent::ID(ID::ContentProvider(fe)))));
    assert_eq!(cm.content_stack.len(), 1);
    assert_eq!(count(&cm, fe), before);
    assert_eq!(cm.pop_content_stack(), Ok(None));
}

#[test]
fn loading_stores_and_lists_the_loaded_content() {
    let mut cm = ContentManager::new("/m");
    let main = main_id(&cm);
    let fe = match cm.get_provider(main).ids()[1] {
        ID::ContentProvider(p) => p,
        _ => panic!("provider expected"),
    };
    let songs = vec![Song::Untagged(UntaggedFileSong::from_file_path("/m/a.mp3"))];
    cm.load_content_provider(songs, vec![ContentProvider::YTExplorer(YTExplorer::new())], fe);
    let listed = cm.get_provider(fe).ids();
    assert_eq!(listed.len(), 2);
    match (&listed[0], &listed[1]) {
        (ID::ContentProvider(p), ID::Song(s)) => {
            assert_eq!(cm.get_provider(*p).get_name(), "Youtube");
            assert_eq!(cm.get_song(*s).title(), "a.mp3");
        },
        _ => panic!("a provider then a song expected"),
    }
}

#[test]
fn dropping_a_provider_gives_back_what_it_listed() {
    let mut cm = ContentManager::new("/m");
    let main = main_id(&cm);
    let fe = match cm.get_provider(main).ids()[1] {
        ID::ContentProvider(p) => p,
        _ => panic!("provider expected"),
    };
    let songs = vec![Song::Untagged(UntaggedFileSong::from_file_path("/m/a.mp3"))];
    cm.load_content_provider(songs, vec![], fe);
    let s = match cm.get_provider(fe).ids()[0] {
        ID::Song(s) => s,
        _ => panic!("song expected"),
    };
    let missing = cm.remove_from_provider(vec![ID::ContentProvider(fe)], main);
    assert!(missing.is_empty());
    assert_eq!(cm.unregister_provider(fe), Ok(()));
    assert!(cm.content_providers.get(fe).is_none());
    assert!(cm.songs.get(s).is_none());
    assert_eq!(cm.unregister_provider(fe), Err(RegisterError::NotRegistered(ID::ContentProvider(fe))));
}

#[test]
fn playing_a_song_makes_a_queue_of_its_provider() {
    let mut cm = ContentManager::new("/m");
    let main = main_id(&cm);
    let fe = match cm.get_provider(main).ids()[1] {
        ID::ContentProvider(p) => p,
        _ => panic!("provider expected"),
    };
    let songs = vec![
        Song::Untagged(UntaggedFileSong::from_file_path("/m/a.mp3")),
        Song::Untagged(UntaggedFileSong::from_file_path("/m/b.mp3")),
    ];
    cm.load_content_provider(songs, vec![], fe);
    assert_eq!(cm.push_to_content_stack(fe), true);
    cm.increment_selection();
    let second = cm.get_provider(fe).get_selected();
    match cm.enter_selected() {
        Ok(Entered::Song(s)) => assert_eq!(ID::Song(s), second),
        _ => panic!("song expected"),
    }
    let q = cm.active_queue.expect("a queue plays");
    match cm.get_provider(q) {
        ContentProvider::Queue(queue) => {
            assert_eq!(queue.currently_playing, Some(1));
            assert_eq!(queue.source_cp, fe);
            assert_eq!(queue.name, "File Explorer: m");
        },
        _ => panic!("queue expected"),
    }
    // playing from the same provider again reuses the queue
    cm.decrement_selection();
    let _ = cm.enter_selected();
    assert_eq!(cm.active_queue, Some(q));
    let _ = Queue::new(vec![], String::new(), fe);
}

#[test]
fn menu_option_adds_an_explorer_and_opens_it() {
    let mut cm = ContentManager::new("/m");
    let main = main_id(&cm);
    cm.open_menu_for(GlobalContent::ID(ID::ContentProvider(main)));
    assert!(matches!(cm.content_stack.get_state(), ContentState::Menu { .. }));
    cm.increment_selection();
    cm.increment_selection();
    cm.increment_selection();
    match cm.enter_selected() {
        Ok(Entered::MenuOption { provider, option }) => {
            assert_eq!(provider, main);
            assert_eq!(option, MainProviderMenuOption::ADD_YT_EXPLORER);
            let (id, needs_load) = cm.apply_menu_option(main, option, "/m").unwrap();
            assert!(needs_load);
            assert_eq!(cm.get_provider(main).ids().len(), 4);
            assert_eq!(cm.content_stack.last(), GlobalContent::ID(ID::ContentProvider(id)));
            assert!(matches!(cm.content_stack.get_state(), ContentState::Normal));
        },
        _ => panic!("menu option expected"),
    }
}

#[test]
fn yanking_the_selected_entry_starts_a_yank_from_the_top_provider() {
    let mut cm = ContentManager::new("/m");
    let main = main_id(&cm);
    cm.toggle_yank_selected();
    let y = cm.edit_manager.yanker.as_ref().expect("a yank");
    assert_eq!(y.yanked_from(), main);
    assert_eq!(y.items.len(), 1);
    cm.toggle_yank_selected();
    assert_eq!(cm.edit_manager.yanker.as_ref().unwrap().items.len(), 0);
}

#[test]
fn a_register_action_counts_each_listed_id_once_more() {
    let mut cm = ContentManager::new("/m");
    let main = main_id(&cm);
    let fe = match cm.get_provider(main).ids()[1] {
        ID::ContentProvider(p) => p,
        _ => panic!("provider expected"),
    };
    let before = count(&cm, fe).unwrap();
    let a = YankAction::Register { ids: vec![ID::ContentProvider(fe), ID::ContentProvider(fe)] };
    assert_eq!(cm.apply_yank_action(&a), Ok(true));
    assert_eq!(count(&cm, fe), Some(before + 2));
    let b = YankAction::Unregister { ids: vec![ID::ContentProvider(fe)] };
    assert_eq!(cm.apply_yank_action(&b), Ok(true));
    assert_eq!(count(&cm, fe), Some(before + 1));
}

#[test]
fn a_register_action_for_an_unknown_id_fails() {
    let mut cm = ContentManager::new("/m");
    let ghost = ContentProviderID::from_parts(40, 0);
    let a = YankAction::Register { ids: vec![ID::ContentProvider(ghost)] };
    assert!(matches!(cm.apply_yank_action(&a), Err(ActionError::Register(_))));
}

#[test]
fn a_conditional_action_takes_the_branch_its_test_picks() {
    let mut cm = ContentManager::new("/m");
    let main = main_id(&cm);
    let before = count(&cm, main).unwrap();
    let reg = || YankAction::Register { ids: vec![ID::ContentProvider(main)] };
    let yes = YankAction::Conditional {
        if_this: vec![YankAction::ProviderExists { id: main }],
        then_this: vec![reg()],
        else_this: vec![],
    };
    assert_eq!(cm.apply_yank_action(&yes), Ok(true));
    assert_eq!(count(&cm, main), Some(before + 1));
    let no = YankAction::Conditional {
        if_this: vec![YankAction::False],
        then_this: vec![reg()],
        else_this: vec![YankAction::Noop],
    };
    assert_eq!(cm.apply_yank_action(&no), Ok(true));
    assert_eq!(count(&cm, main), Some(before + 1));
    let all_run = YankAction::Actions { v: vec![YankAction::False, reg()] };
    assert_eq!(cm.apply_yank_action(&all_run), Ok(false));
    assert_eq!(count(&cm, main), Some(before + 2));
}

#[test]
fn clearing_the_undone_edits_gives_back_their_ids() {
    let mut cm = ContentManager::new("/m");
    let main = main_id(&cm);
    let fe = match cm.get_provider(main).ids()[1] {
        ID::ContentProvider(p) => p,
        _ => panic!("provider expected"),
    };
    let before = count(&cm, fe).unwrap();
    assert_eq!(cm.apply_yank_action(&YankAction::Register { ids: vec![ID::ContentProvider(fe), ID::ContentProvider(fe)] }), Ok(true));
    let yank = YankedContent::Providers { items: vec![Yank { item: fe, index: 0 }, Yank { item: fe, index: 1 }] };
    cm.edit_manager.undo_stack.push(Edit::Pasted { yank, yanked_to: main, paste_pos: None });
    assert_eq!(cm.apply_yank_action(&YankAction::ClearUndoStack), Ok(true));
    assert_eq!(cm.edit_manager.undo_stack.len(), 0);
    assert_eq!(count(&cm, fe), Some(before));
}

#[test]
fn clearing_undone_text_edits_fails_and_changes_nothing() {
    let mut cm = ContentManager::new("/m");
    let main = main_id(&cm);
    let before = count(&cm, main);
    cm.edit_manager.undo_stack.push(Edit::TextEdit { content: ID::ContentProvider(main), from: String::new(), to: String::from("x") });
    assert_eq!(cm.apply_yank_action(&YankAction::ClearUndoStack), Err(ActionError::TextEdit));
    assert_eq!(cm.edit_manager.undo_stack.len(), 1);
    assert_eq!(count(&cm, main), before);
}

#[test]
fn unregistering_stops_at_the_first_unknown_id() {
    let mut cm = ContentManager::new("/m");
    let main = main_id(&cm);
    let before = count(&cm, main).unwrap();
    assert_eq!(cm.apply_yank_action(&YankAction::Register { ids: vec![ID::ContentProvider(main)] }), Ok(true));
    let ghost = ContentProviderID::from_parts(40, 0);
    let a = YankAction::Unregister { ids: vec![ID::ContentProvider(main), ID::ContentProvider(ghost), ID::ContentProvider(main)] };
    assert_eq!(cm.apply_yank_action(&a), Err(ActionError::Register(RegisterError::NotRegistered(ID::ContentProvider(ghost)))));
    assert_eq!(count(&cm, main), Some(before));
}

#[test]
fn taking_out_items_that_are_not_there_fails() {
    let mut cm = ContentManager::new("/m");
    let main = main_id(&cm);
    let qp = match cm.get_provider(main).ids()[0] {
        ID::ContentProvider(p) => p,
        _ => panic!("provider expected"),
    };
    let a = YankAction::RemoveFromProvider {
        yank: YankedContent::Providers { items: vec![Yank { item: main, index: 0 }] },
        yanked_from: qp,
    };
    assert_eq!(cm.apply_yank_action(&a), Err(ActionError::NotAllRemoved));
    let b = YankAction::RemoveFromProvider {
        yank: YankedContent::Providers { items: vec![Yank { item: main, index: 0 }] },
        yanked_from: main,
    };
    assert_eq!(cm.apply_yank_action(&b), Ok(false));
}

#[test]
fn trying_a_paste_into_a_queue_counts_the_songs_twice_and_records_it() {
    let mut cm = ContentManager::new("/m");
    let main = main_id(&cm);
    let fe = match cm.get_provider(main).ids()[1] {
        ID::ContentProvider(p) => p,
        _ => panic!("provider expected"),
    };
    let songs = vec![
        Song::Untagged(UntaggedFileSong::from_file_path("/m/a.mp3")),
        Song::Untagged(UntaggedFileSong::from_file_path("/m/b.mp3")),
    ];
    cm.load_content_provider(songs, vec![], fe);
    assert_eq!(cm.push_to_content_stack(fe), true);
    let s0 = match cm.get_provider(fe).get_selected() {
        ID::Song(s) => s,
        _ => panic!("song expected"),
    };
    assert!(matches!(cm.enter_selected(), Ok(Entered::Song(_))));
    let q = cm.active_queue.expect("a queue plays");
    let song_count = |cm: &ContentManager| cm.songs.get_id_count(s0.index()).map(|(_, c)| c);
    let before_song = song_count(&cm).unwrap();
    let before_q = count(&cm, q).unwrap();
    let a = YankAction::TryPasteIntoProvider {
        yank: YankedContent::Songs { items: vec![Yank { item: s0, index: 0 }] },
        yanked_to: q,
        paste_pos: None,
    };
    assert_eq!(cm.apply_yank_action(&a), Ok(false));
    assert_eq!(song_count(&cm), Some(before_song + 2));
    assert_eq!(count(&cm, q), Some(before_q + 1));
    match cm.get_provider(q) {
        ContentProvider::Queue(queue) => assert_eq!(queue.songs.len(), 3),
        _ => panic!("queue expected"),
    }
    assert_eq!(cm.edit_manager.edit_stack.len(), 1);
}

#[test]
fn giving_ids_back_one_at_a_time_or_together_comes_to_the_same() {
    let make = || {
        let mut cm = ContentManager::new("/m");
        let main = main_id(&cm);
        let fe = match cm.get_provider(main).ids()[1] {
            ID::ContentProvider(p) => p,
            _ => panic!("provider expected"),
        };
        let songs = vec![Song::Untagged(UntaggedFileSong::from_file_path("/m/a.mp3"))];
        cm.load_content_provider(songs, vec![], fe);
        let _ = cm.remove_from_provider(vec![ID::ContentProvider(fe)], main);
        (cm, main, fe)
    };
    let (mut together, main, fe) = make();
    let (mut in_turn, _, _) = make();
    let ids = vec![ID::ContentProvider(main), ID::ContentProvider(fe)];
    assert_eq!(together.apply_yank_action(&YankAction::Register { ids: vec![ID::ContentProvider(main)] }), Ok(true));
    assert_eq!(in_turn.apply_yank_action(&YankAction::Register { ids: vec![ID::ContentProvider(main)] }), Ok(true));
    assert_eq!(together.apply_yank_action(&YankAction::Unregister { ids }), Ok(true));
    assert_eq!(in_turn.apply_yank_action(&YankAction::Unregister { ids: vec![ID::ContentProvider(main)] }), Ok(true));
    assert_eq!(in_turn.apply_yank_action(&YankAction::Unregister { ids: vec![ID::ContentProvider(fe)] }), Ok(true));
    assert_eq!(count(&together, main), count(&in_turn, main));
    assert!(together.content_providers.get(fe).is_none());
    assert!(in_turn.content_providers.get(fe).is_none());
    assert_eq!(together.songs.len(), in_turn.songs.len());
}

#[test]
fn pasting_a_provider_into_the_queue_provider_makes_a_queue_of_its_songs() {
    let mut cm = ContentManager::new("/m");
    let main = main_id(&cm);
    let ids = cm.get_provider(main).ids();
    let (qp, fe) = match (&ids[0], &ids[1]) {
        (ID::ContentProvider(q), ID::ContentProvider(f)) => (*q, *f),
        _ => panic!("providers expected"),
    };
    let songs = vec![Song::Untagged(UntaggedFileSong::from_file_path("/m/a.mp3"))];
    cm.load_content_provider(songs, vec![], fe);
    let a = YankAction::TryPasteIntoProvider {
        yank: YankedContent::Providers { items: vec![Yank { item: fe, index: 0 }] },
        yanked_to: qp,
        paste_pos: None,
    };
    assert_eq!(cm.apply_yank_action(&a), Ok(false));
    let queues = cm.get_provider(qp).ids();
    assert_eq!(queues.len(), 1);
    let q = match queues[0] {
        ID::ContentProvider(q) => q,
        _ => panic!("queue expected"),
    };
    match cm.get_provider(q) {
        ContentProvider::Queue(queue) => {
            assert_eq!(queue.songs.len(), 1);
            assert_eq!(queue.source_cp, fe);
        },
        _ => panic!("queue expected"),
    }
    assert_eq!(count(&cm, q), Some(2));
    assert_eq!(cm.edit_manager.edit_stack.len(), 1);
}

#[test]
fn pasting_a_provider_that_is_not_there_fails_and_changes_nothing() {
    let mut cm = ContentManager::new("/m");
    let main = main_id(&cm);
    let qp = match cm.get_provider(main).ids()[0] {
        ID::ContentProvider(q) => q,
        _ => panic!("provider expected"),
    };
    let before = count(&cm, qp);
    let ghost = ContentProviderID::from_parts(40, 0);
    let a = YankAction::TryPasteIntoProvider {
        yank: YankedContent::Providers { items: vec![Yank { item: ghost, index: 0 }] },
        yanked_to: qp,
        paste_pos: None,
    };
    assert_eq!(cm.apply_yank_action(&a), Err(ActionError::Register(RegisterError::NotRegistered(ID::ContentProvider(ghost)))));
    assert_eq!(count(&cm, qp), before);
    assert_eq!(cm.get_provider(qp).ids().len(), 0);
}

#[test]
fn browser_commands_move_the_selection_and_enter_providers() {
    let mut cm = ContentManager::new("/m");
    let main = main_id(&cm);
    assert!(matches!(cm.browser_command(BrowserCommand::Escape), Ok(BrowserOutcome::Ignored)));
    assert!(matches!(cm.browser_command(BrowserCommand::SelectionDown), Ok(BrowserOutcome::Done)));
    assert_eq!(cm.get_selected_index().selected_index(), 1);
    let fe = match cm.get_provider(main).ids()[1] {
        ID::ContentProvider(p) => p,
        _ => panic!("provider expected"),
    };
    match cm.browser_command(BrowserCommand::EnterSelected) {
        Ok(BrowserOutcome::Entered(Entered::Opened { id, needs_load })) => {
            assert_eq!(id, fe);
            assert!(needs_load);
        },
        _ => panic!("the provider should open"),
    }
    assert_eq!(cm.content_stack.len(), 2);
    assert!(matches!(cm.browser_command(BrowserCommand::Back), Ok(BrowserOutcome::Done)));
    assert_eq!(cm.content_stack.len(), 1);
    assert!(matches!(cm.browser_command(BrowserCommand::ToggleYank), Ok(BrowserOutcome::Done)));
    assert!(cm.edit_manager.yanker.is_some());
    assert!(matches!(cm.browser_command(BrowserCommand::Escape), Ok(BrowserOutcome::Done)));
    assert!(cm.edit_manager.yanker.is_none());
}
