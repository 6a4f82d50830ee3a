use musimanager::content::register::{ContentKey, ContentRegister, SongID};

#[test]
fn allocation_hands_out_ids_that_reach_their_items() {
    let mut reg: ContentRegister<u32, SongID> = ContentRegister::new();
    let a = reg.allocate(10);
    let b = reg.allocate(20);
    assert_eq!(reg.get(a), Some(&10));
    assert_eq!(reg.get(b), Some(&20));
    assert_eq!(a.index(), 0);
    assert_eq!(b.index(), 1);
    assert_eq!(reg.len(), 2);
    assert_eq!(reg.get_id_count(0).map(|(_, c)| c), Some(1));
}

#[test]
fn item_is_dropped_only_when_the_last_id_is_given_back() {
    let mut reg: ContentRegister<u32, SongID> = ContentRegister::new();
    let a = reg.allocate(7);
    reg.register(a);
    assert_eq!(reg.get_id_count(0).map(|(_, c)| c), Some(2));
    assert_eq!(reg.unregister(a), None);
    assert_eq!(reg.get(a), Some(&7));
    assert_eq!(reg.unregister(a), Some(7));
    assert_eq!(reg.get(a), None);
    assert!(reg.get_id_count(0).is_none());
}

#[test]
fn freed_slot_is_reused_under_a_fresh_generation() {
    let mut reg: ContentRegister<u32, SongID> = ContentRegister::new();
    let a = reg.allocate(1);
    let _b = reg.allocate(2);
    assert_eq!(reg.unregister(a), Some(1));
    let c = reg.allocate(3);
    assert_eq!(c.index(), a.index());
    assert_ne!(c.generation(), a.generation());
    assert_eq!(reg.get(a), None);
    assert_eq!(reg.get(c), Some(&3));
}

#[test]
fn allocation_takes_the_smallest_free_slot() {
    let mut reg: ContentRegister<u32, SongID> = ContentRegister::new();
    let ids: Vec<SongID> = (0..4).map(|i| reg.allocate(i)).collect();
    assert_eq!(reg.unregister(ids[3]), Some(3));
    assert_eq!(reg.unregister(ids[1]), Some(1));
    let next = reg.allocate(9);
    assert_eq!(next.index(), 1);
    let after = reg.allocate(8);
    assert_eq!(after.index(), 3);
}

#[test]
fn dropped_id_stays_dropped_through_later_calls() {
    let mut reg: ContentRegister<u32, SongID> = ContentRegister::new();
    let a = reg.allocate(1);
    assert_eq!(reg.unregister(a), Some(1));
    let mut later: Vec<SongID> = Vec::new();
    for i in 0..5u32 {
        let id = reg.allocate(10 + i);
        later.push(id);
        if i % 2 == 0 {
            assert_eq!(reg.unregister(id), Some(10 + i));
        } else {
            reg.register(id);
        }
        assert_eq!(reg.get(a), None);
        if let Some(v) = reg.get_mut(id) {
            *v += 100;
        }
        assert_eq!(reg.get(a), None);
    }
    for id in &later {
        assert!(*id != a);
    }
}
