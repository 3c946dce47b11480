use novel_registry::registry::Error;
use novel_registry::registry::Pallet;

#[test]
fn create_succeeds_exactly_once() {
    let mut p = Pallet::new();
    let k = b"K".to_vec();
    assert_eq!(p.create_novel(1, k.clone(), 3), Ok(()));
    assert_eq!(p.get_novel(&k), Some((1, 3)));
    assert_eq!(p.create_novel(2, k.clone(), 9), Err(Error::NovelAlreadyCreated));
    assert_eq!(p.create_novel(1, k.clone(), 9), Err(Error::NovelAlreadyCreated));
    assert_eq!(p.get_novel(&k), Some((1, 3)));
}

#[test]
fn never_created_title_reports_no_such_novel() {
    let mut p = Pallet::new();
    let k = b"never".to_vec();
    assert_eq!(p.read_novel(1, k.clone()), Err(Error::NoSuchNovel));
    assert_eq!(p.read_novel(2, k.clone()), Err(Error::NoSuchNovel));
    assert_eq!(p.update_novel(1, k.clone(), 4), Err(Error::NoSuchNovel));
    assert_eq!(p.update_novel(3, k.clone(), 4), Err(Error::NoSuchNovel));
    assert_eq!(p.remove_novel(1, k.clone()), Err(Error::NoSuchNovel));
    assert_eq!(p.remove_novel(4, k.clone()), Err(Error::NoSuchNovel));
    assert_eq!(p.event_log().len(), 0);
}

#[test]
fn non_owner_is_rejected_and_entry_unchanged() {
    let mut p = Pallet::new();
    let k = b"mine".to_vec();
    assert_eq!(p.create_novel(1, k.clone(), 8), Ok(()));
    assert_eq!(p.read_novel(2, k.clone()), Err(Error::NotNovelOwner));
    assert_eq!(p.update_novel(2, k.clone(), 99), Err(Error::NotNovelOwner));
    assert_eq!(p.remove_novel(2, k.clone()), Err(Error::NotNovelOwner));
    assert_eq!(p.get_novel(&k), Some((1, 8)));
    assert_eq!(p.event_log().len(), 1);
}

#[test]
fn update_preserves_owner_and_sets_sequence() {
    let mut p = Pallet::new();
    let k = b"book".to_vec();
    assert_eq!(p.create_novel(5, k.clone(), 10), Ok(()));
    assert_eq!(p.update_novel(5, k.clone(), 42), Ok(()));
    assert_eq!(p.get_novel(&k), Some((5, 42)));
    assert_eq!(p.update_novel(5, k.clone(), 43), Ok(()));
    assert_eq!(p.get_novel(&k), Some((5, 43)));
}

#[test]
fn remove_makes_title_absent_and_creatable_again() {
    let mut p = Pallet::new();
    let k = b"gone".to_vec();
    assert_eq!(p.create_novel(1, k.clone(), 0), Ok(()));
    assert_eq!(p.remove_novel(1, k.clone()), Ok(()));
    assert_eq!(p.get_novel(&k), None);
    assert_eq!(p.create_novel(7, k.clone(), 9), Ok(()));
    assert_eq!(p.get_novel(&k), Some((7, 9)));
}

#[test]
fn full_lifecycle_scenario() {
    let mut p = Pallet::new();
    let a = b"A".to_vec();
    assert_eq!(p.create_novel(1, a.clone(), 11), Ok(()));
    assert_eq!(p.get_novel(&a), Some((1, 11)));
    assert_eq!(p.create_novel(1, a.clone(), 12), Err(Error::NovelAlreadyCreated));
    assert_eq!(p.read_novel(2, a.clone()), Err(Error::NotNovelOwner));
    assert_eq!(p.read_novel(1, a.clone()), Ok(()));
    assert_eq!(p.update_novel(2, a.clone(), 12), Err(Error::NotNovelOwner));
    assert_eq!(p.get_novel(&a), Some((1, 11)));
    assert_eq!(p.update_novel(1, a.clone(), 12), Ok(()));
    assert_eq!(p.get_novel(&a), Some((1, 12)));
    assert_eq!(p.remove_novel(2, a.clone()), Err(Error::NotNovelOwner));
    assert_eq!(p.remove_novel(1, a.clone()), Ok(()));
    assert_eq!(p.read_novel(1, a.clone()), Err(Error::NoSuchNovel));
}
