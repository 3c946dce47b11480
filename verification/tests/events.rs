use novel_registry::registry::Error;
use novel_registry::registry::Event;
use novel_registry::registry::Pallet;

#[test]
fn accepted_operations_emit_one_event_each_in_call_order() {
    let mut p = Pallet::new();
    let k = b"K".to_vec();
    assert_eq!(p.create_novel(1, k.clone(), 1), Ok(()));
    assert_eq!(p.create_novel(2, k.clone(), 2), Err(Error::NovelAlreadyCreated));
    assert_eq!(p.read_novel(3, k.clone()), Err(Error::NotNovelOwner));
    assert_eq!(p.read_novel(1, k.clone()), Ok(()));
    assert_eq!(p.update_novel(1, k.clone(), 5), Ok(()));
    assert_eq!(p.remove_novel(2, k.clone()), Err(Error::NotNovelOwner));
    assert_eq!(p.remove_novel(1, k.clone()), Ok(()));
    let expected = vec![
        Event::NovelCreated(1, k.clone()),
        Event::ReadNovel(1),
        Event::NovelUpdated(1, k.clone()),
        Event::NovelRemoved(1, k.clone()),
    ];
    assert_eq!(p.event_log(), &expected);
}

#[test]
fn rejected_operations_emit_nothing() {
    let mut p = Pallet::new();
    let k = b"quiet".to_vec();
    assert_eq!(p.read_novel(1, k.clone()), Err(Error::NoSuchNovel));
    assert_eq!(p.update_novel(1, k.clone(), 3), Err(Error::NoSuchNovel));
    assert_eq!(p.remove_novel(1, k.clone()), Err(Error::NoSuchNovel));
    assert!(p.event_log().is_empty());
    assert_eq!(p.create_novel(1, k.clone(), 3), Ok(()));
    assert_eq!(p.create_novel(2, k.clone(), 4), Err(Error::NovelAlreadyCreated));
    assert_eq!(p.event_log(), &vec![Event::NovelCreated(1, k.clone())]);
}

#[test]
fn read_event_carries_only_the_reader() {
    let mut p = Pallet::new();
    let k = b"R".to_vec();
    assert_eq!(p.create_novel(6, k.clone(), 2), Ok(()));
    assert_eq!(p.read_novel(6, k.clone()), Ok(()));
    assert_eq!(p.event_log()[1], Event::ReadNovel(6));
}
