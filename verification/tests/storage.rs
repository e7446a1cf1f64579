use clipd::entry::ClipboardData;
use clipd::storage::ClipboardStorage;

fn texts(storage: &ClipboardStorage) -> Vec<String> {
    storage
        .list()
        .iter()
        .map(|e| e.to_display_string())
        .collect()
}

#[test]
fn dedup_on_front_leaves_history_unchanged() {
    let mut storage = ClipboardStorage::new(10);
    storage.insert_data(ClipboardData::Text(String::from("a")));
    storage.insert_data(ClipboardData::Text(String::from("a")));
    assert_eq!(texts(&storage), vec![String::from("a")]);
}

#[test]
fn bound_evicts_oldest_from_back() {
    let mut storage = ClipboardStorage::new(2);
    storage.insert_data(ClipboardData::Text(String::from("a")));
    storage.insert_data(ClipboardData::Text(String::from("b")));
    storage.insert_data(ClipboardData::Text(String::from("c")));
    assert_eq!(texts(&storage), vec![String::from("c"), String::from("b")]);
}

#[test]
fn promote_moves_entry_to_front() {
    let mut storage = ClipboardStorage::new(0);
    storage.insert_data(ClipboardData::Text(String::from("c")));
    storage.insert_data(ClipboardData::Text(String::from("b")));
    storage.insert_data(ClipboardData::Text(String::from("a")));
    // history is [a, b, c]
    let moved = storage.move_to_front(2);
    assert!(moved.is_some());
    assert_eq!(moved.unwrap().to_display_string(), "c");
    assert_eq!(
        texts(&storage),
        vec![String::from("c"), String::from("a"), String::from("b")]
    );
}

#[test]
fn promote_out_of_range_is_a_silent_no_op() {
    let mut storage = ClipboardStorage::new(0);
    storage.insert_data(ClipboardData::Text(String::from("a")));
    let moved = storage.move_to_front(5);
    assert!(moved.is_none());
    assert_eq!(texts(&storage), vec![String::from("a")]);
}

#[test]
fn promote_of_front_keeps_order() {
    let mut storage = ClipboardStorage::new(0);
    storage.insert_data(ClipboardData::Text(String::from("b")));
    storage.insert_data(ClipboardData::Text(String::from("a")));
    let moved = storage.move_to_front(0);
    assert_eq!(moved.unwrap().to_display_string(), "a");
    assert_eq!(texts(&storage), vec![String::from("a"), String::from("b")]);
}

#[test]
fn non_adjacent_duplicates_are_preserved() {
    let mut storage = ClipboardStorage::new(0);
    storage.insert_data(ClipboardData::Text(String::from("a")));
    storage.insert_data(ClipboardData::Text(String::from("b")));
    storage.insert_data(ClipboardData::Text(String::from("a")));
    assert_eq!(
        texts(&storage),
        vec![String::from("a"), String::from("b"), String::from("a")]
    );
}

#[test]
fn zero_bound_means_unbounded() {
    let mut storage = ClipboardStorage::new(0);
    for i in 0..100 {
        storage.insert_data(ClipboardData::Text(format!("{}", i)));
    }
    assert_eq!(storage.list().len(), 100);
}

#[test]
fn latest_of_empty_history_is_none() {
    let storage = ClipboardStorage::new(4);
    assert!(storage.get_latest_data().is_none());
    assert!(storage.list().is_empty());
}

#[test]
fn latest_is_the_most_recent_insert() {
    let mut storage = ClipboardStorage::new(4);
    storage.insert_data(ClipboardData::Text(String::from("one")));
    storage.insert_data(ClipboardData::Text(String::from("two")));
    let latest = storage.get_latest_data().unwrap();
    assert_eq!(latest.to_display_string(), "two");
}

#[test]
fn different_kinds_are_never_equal() {
    let a = ClipboardData::Text(String::from("x"));
    let b = ClipboardData::Html(String::from("x"));
    assert!(!a.same_content(&b));
    assert!(a.same_content(&a));
    let mut storage = ClipboardStorage::new(0);
    storage.insert_data(a.duplicate());
    storage.insert_data(b.duplicate());
    assert_eq!(storage.list().len(), 2);
}

#[test]
fn uri_lists_compare_by_value() {
    let a = ClipboardData::Url(vec![String::from("file:///a"), String::from("file:///b")]);
    let b = ClipboardData::Url(vec![String::from("file:///a"), String::from("file:///b")]);
    let c = ClipboardData::Url(vec![String::from("file:///a")]);
    assert!(a.same_content(&b));
    assert!(!a.same_content(&c));
    let mut storage = ClipboardStorage::new(0);
    storage.insert_data(a);
    storage.insert_data(b);
    assert_eq!(storage.list().len(), 1);
}
