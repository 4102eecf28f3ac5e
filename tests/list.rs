use csv_editor::list::StatefulList;

#[test]
fn list_wraps_both_ways() {
    let mut l = StatefulList::with_items(vec!["a", "b", "c"]);
    assert_eq!(l.selected, None);
    l.next();
    assert_eq!(l.selected, Some(0));
    l.previous();
    assert_eq!(l.selected, Some(2));
    l.next();
    assert_eq!(l.selected, Some(0));
    l.next();
    assert_eq!(l.selected, Some(1));
    l.unselect();
    assert_eq!(l.selected, None);
    l.previous();
    assert_eq!(l.selected, Some(0));
}

#[test]
fn list_select_checks_range() {
    let mut l = StatefulList::with_items(vec![1, 2]);
    l.select(Some(1));
    assert_eq!(l.selected, Some(1));
    l.select(Some(2));
    assert_eq!(l.selected, None);
    let mut e: StatefulList<u8> = StatefulList::with_items(Vec::new());
    e.next();
    e.previous();
    assert_eq!(e.selected, None);
}
