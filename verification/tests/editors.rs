use musimanager::content::register::{ContentKey, ContentProviderID, GlobalProvider, SongID, ID};
use musimanager::service::editors::{Edit, EditManager, YankAction, YankType, YankedContent, Yanker};

fn cp(i: usize) -> ContentProviderID {
    ContentProviderID::from_parts(i, 0)
}

fn song(i: usize) -> SongID {
    SongID::from_parts(i, 0)
}

#[test]
fn toggling_twice_unmarks() {
    let mut y = Yanker::new(cp(1), ID::Song(song(1)), 0);
    y.toggle_yank(ID::Song(song(2)), cp(1), 1);
    assert_eq!(y.items.len(), 2);
    y.toggle_yank(ID::Song(song(2)), cp(1), 1);
    assert_eq!(y.items.len(), 1);
    y.toggle_yank(ID::Song(song(3)), cp(2), 0);
    assert_eq!(y.yanked_from(), cp(2));
    assert_eq!(y.items.iter(), vec![ID::Song(song(1)), ID::Song(song(3))]);
}

#[test]
fn nothing_to_yank_or_paste_does_nothing() {
    let em = EditManager::new();
    assert!(matches!(em.apply_yank(YankType::Copy), YankAction::Noop));
    assert!(matches!(em.try_paste(GlobalProvider::ContentProvider(cp(0)), Some(0)), YankAction::Noop));
}

#[test]
fn yanking_asks_to_record_the_edit_and_drop_the_yanker() {
    let mut em = EditManager::new();
    em.yanker = Some(Yanker::new(cp(4), ID::Song(song(9)), 2));
    match em.apply_yank(YankType::Cut) {
        YankAction::Conditional { if_this, then_this, else_this } => {
            assert_eq!(if_this.len(), 1);
            assert_eq!(then_this.len(), 3);
            assert!(matches!(then_this[0], YankAction::ClearUndoStack));
            assert!(matches!(then_this[2], YankAction::DropYanker));
            assert!(matches!(else_this[0], YankAction::False));
        },
        _ => panic!("conditional expected"),
    }
}

#[test]
fn undo_then_redo_moves_the_edit_back() {
    let mut em = EditManager::new();
    em.edit_stack.push(Edit::Yanked {
        yank: YankedContent::Songs { items: vec![] },
        yank_type: YankType::Copy,
        yanked_from: cp(3),
    });
    let _ = em.undo_last_edit();
    assert_eq!(em.edit_stack.len(), 0);
    assert_eq!(em.undo_stack.len(), 1);
    assert_eq!(em.yanker.as_ref().map(|y| y.yanked_from()), Some(cp(3)));
    let _ = em.redo_last_undo();
    assert_eq!(em.edit_stack.len(), 1);
    assert_eq!(em.undo_stack.len(), 0);
    assert!(em.yanker.is_none());
    let _ = em.undo_last_edit();
    assert_eq!(em.undo_stack.len(), 1);
    assert_eq!(em.edit_stack.len(), 0);
}
