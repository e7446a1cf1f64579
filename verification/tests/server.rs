use clipd::entry::ClipboardData;
use clipd::manager::{ClipboardManager, ProvidedPayload};
use clipd::protocol::{decode_list_result, decode_text_result, encode_set_by_idx,
    encode_set_text, ProtocolError};
use clipd::server::{get_latest_text, list_clipboard, set_by_idx, set_text};
use clipd::storage::ClipboardStorage;

#[test]
fn set_text_then_get_latest_text_round_trips() {
    let mut storage = ClipboardStorage::new(8);
    let (response, forwarded) =
        set_text(&mut storage, &encode_set_text("hello")).expect("well-formed body");
    assert_eq!(response, "{}");
    assert_eq!(forwarded.to_display_string(), "hello");

    let body = get_latest_text(&storage);
    assert_eq!(decode_text_result(&body).as_deref(), Some("hello"));

    let listed = decode_list_result(&list_clipboard(&storage)).expect("well-formed list");
    assert_eq!(listed, vec![String::from("hello")]);
}

#[test]
fn get_latest_text_of_empty_history_is_empty() {
    let storage = ClipboardStorage::new(8);
    let body = get_latest_text(&storage);
    assert_eq!(decode_text_result(&body).as_deref(), Some(""));
}

#[test]
fn list_serves_display_strings_truncated_to_the_limit() {
    let mut storage = ClipboardStorage::new(8);
    let long = "y".repeat(600);
    set_text(&mut storage, &encode_set_text(&long)).expect("well-formed body");

    let listed = decode_list_result(&list_clipboard(&storage)).expect("well-formed list");
    assert_eq!(listed.len(), 1);
    assert_eq!(listed[0].chars().count(), 512);
    assert_eq!(listed[0], long[..512]);

    // the stored entry keeps the full content: promote it and read it back
    let (_, forwarded) =
        set_by_idx(&mut storage, &encode_set_by_idx(0)).expect("well-formed body");
    assert_eq!(forwarded.unwrap().to_display_string(), long);
    let body = get_latest_text(&storage);
    assert_eq!(decode_text_result(&body).as_deref(), Some(long.as_str()));
}

#[test]
fn set_by_idx_promotes_and_forwards_the_entry() {
    let mut storage = ClipboardStorage::new(8);
    for t in ["c", "b", "a"] {
        set_text(&mut storage, &encode_set_text(t)).expect("well-formed body");
    }
    // history is [a, b, c]
    let (response, forwarded) =
        set_by_idx(&mut storage, &encode_set_by_idx(2)).expect("well-formed body");
    assert_eq!(response, "{}");
    assert_eq!(forwarded.unwrap().to_display_string(), "c");
    let listed = decode_list_result(&list_clipboard(&storage)).unwrap();
    assert_eq!(
        listed,
        vec![String::from("c"), String::from("a"), String::from("b")]
    );
}

#[test]
fn set_by_idx_out_of_range_is_a_silent_no_op() {
    let mut storage = ClipboardStorage::new(8);
    set_text(&mut storage, &encode_set_text("only")).expect("well-formed body");
    let (response, forwarded) =
        set_by_idx(&mut storage, &encode_set_by_idx(9)).expect("well-formed body");
    assert_eq!(response, "{}");
    assert!(forwarded.is_none());
    let listed = decode_list_result(&list_clipboard(&storage)).unwrap();
    assert_eq!(listed, vec![String::from("only")]);
}

#[test]
fn malformed_bodies_are_rejected_without_state_change() {
    let mut storage = ClipboardStorage::new(8);
    set_text(&mut storage, &encode_set_text("keep")).expect("well-formed body");
    assert_eq!(
        set_text(&mut storage, "{\"nope\":1}").unwrap_err(),
        ProtocolError::MalformedBody
    );
    assert_eq!(
        set_by_idx(&mut storage, "not json").unwrap_err(),
        ProtocolError::MalformedBody
    );
    let listed = decode_list_result(&list_clipboard(&storage)).unwrap();
    assert_eq!(listed, vec![String::from("keep")]);
}

#[test]
fn repeated_set_text_dedups_on_front() {
    let mut storage = ClipboardStorage::new(8);
    set_text(&mut storage, &encode_set_text("same")).expect("well-formed body");
    set_text(&mut storage, &encode_set_text("same")).expect("well-formed body");
    let listed = decode_list_result(&list_clipboard(&storage)).unwrap();
    assert_eq!(listed, vec![String::from("same")]);
}

#[test]
fn manager_ingests_and_restores() {
    let mut manager = ClipboardManager::new(4);
    assert!(manager.restore_candidate().is_none());
    manager.ingest(ClipboardData::Text(String::from("copied")));
    let restored = manager.restore_candidate().expect("non-empty history");
    assert_eq!(restored.to_display_string(), "copied");
    // the restore write-back re-triggers ingestion of identical content,
    // which the dedup-on-front rule absorbs as a no-op
    manager.ingest(restored);
    assert_eq!(manager.storage().list().len(), 1);
}

#[test]
fn manager_handles_requests() {
    let mut manager = ClipboardManager::new(4);
    manager
        .handle_set_text(&encode_set_text("hi"))
        .expect("well-formed body");
    let (_, forwarded) = manager
        .handle_set_by_idx(&encode_set_by_idx(0))
        .expect("well-formed body");
    assert_eq!(forwarded.unwrap().to_display_string(), "hi");
    let body = get_latest_text(manager.storage());
    assert_eq!(decode_text_result(&body).as_deref(), Some("hi"));
}

#[test]
fn uri_entry_write_back_plan() {
    let entry = ClipboardData::Url(vec![String::from("file:///a"), String::from("file:///b")]);
    let targets = entry.write_targets();
    let names: Vec<(String, u32)> = targets;
    assert_eq!(names.len(), 2);
    assert_eq!(names[0].0, "text/uri-list");
    assert_eq!(names[0].1, 10);
    assert_eq!(names[1].0, "UTF8_STRING");
    assert_eq!(names[1].1, 5);

    match entry.provide(10) {
        Some(ProvidedPayload::UriPayload(uris)) => {
            assert_eq!(uris, vec![String::from("file:///a"), String::from("file:///b")]);
        }
        _ => panic!("expected the URI list"),
    }
    match entry.provide(5) {
        Some(ProvidedPayload::TextPayload(text)) => {
            assert_eq!(text, "file:///a\nfile:///b");
        }
        _ => panic!("expected the joined text"),
    }
    assert!(entry.provide(15).is_none());
    assert!(entry.provide(0).is_none());
}

#[test]
fn html_entry_write_back_plan() {
    let entry = ClipboardData::Html(String::from("<b>rich</b>"));
    let targets = entry.write_targets();
    assert_eq!(targets.len(), 2);
    assert_eq!(targets[0].0, "text/html");
    assert_eq!(targets[0].1, 15);
    assert_eq!(targets[1].0, "UTF8_STRING");
    assert_eq!(targets[1].1, 5);

    for code in [15u32, 5] {
        match entry.provide(code) {
            Some(ProvidedPayload::TextPayload(text)) => assert_eq!(text, "<b>rich</b>"),
            _ => panic!("expected the markup"),
        }
    }
    assert!(entry.provide(10).is_none());
}

#[test]
fn text_and_image_entries_register_no_provider_targets() {
    let text = ClipboardData::Text(String::from("plain"));
    assert!(text.write_targets().is_empty());
    assert!(text.provide(5).is_none());
}
