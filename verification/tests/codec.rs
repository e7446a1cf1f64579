use clipd::protocol::{decode_list_result, decode_set_by_idx, decode_set_text,
    decode_text_result, encode_empty_response, encode_list_result, encode_set_by_idx,
    encode_set_text, encode_text_result};

#[test]
fn set_text_round_trips() {
    for text in [
        "",
        "hello",
        "with \"quotes\" and \\backslashes\\",
        "line\nbreaks\tand\rcontrols\u{1}\u{1f}",
        "unicode: h\u{e9}llo \u{65e5}\u{672c} \u{1f600}",
    ] {
        let body = encode_set_text(text);
        assert_eq!(decode_set_text(&body).as_deref(), Some(text));
    }
}

#[test]
fn set_by_idx_round_trips() {
    for idx in [0usize, 1, 7, 42, 999, usize::MAX] {
        let body = encode_set_by_idx(idx);
        assert_eq!(decode_set_by_idx(&body), Some(idx));
    }
    assert_eq!(encode_set_by_idx(7), "{\"idx\":7}");
}

#[test]
fn text_result_round_trips() {
    let body = encode_text_result("a \"result\"\n");
    assert_eq!(decode_text_result(&body).as_deref(), Some("a \"result\"\n"));
    assert_eq!(encode_text_result("hi"), "{\"result\":\"hi\"}");
}

#[test]
fn list_result_round_trips() {
    let items: Vec<String> = vec![
        String::from("first"),
        String::from(""),
        String::from("with, comma and \"quote\""),
    ];
    let body = encode_list_result(&items);
    assert_eq!(decode_list_result(&body), Some(items));

    let empty: Vec<String> = Vec::new();
    let body = encode_list_result(&empty);
    assert_eq!(body, "{\"result\":[]}");
    assert_eq!(decode_list_result(&body), Some(Vec::new()));

    assert_eq!(
        encode_list_result(&vec![String::from("a"), String::from("b")]),
        "{\"result\":[\"a\",\"b\"]}"
    );
}

#[test]
fn decoding_accepts_insignificant_whitespace() {
    assert_eq!(decode_set_by_idx(" { \"idx\" :\t42 }\n"), Some(42));
    assert_eq!(
        decode_set_text("{\n  \"text\": \"hi\"\n}").as_deref(),
        Some("hi")
    );
    assert_eq!(
        decode_list_result("{ \"result\": [ \"a\" , \"b\" ] }"),
        Some(vec![String::from("a"), String::from("b")])
    );
}

#[test]
fn decoding_resolves_escapes() {
    assert_eq!(
        decode_set_text("{\"text\":\"a\\u0041\\n\\t\\\"\\\\\\/\"}").as_deref(),
        Some("aA\n\t\"\\/")
    );
    assert_eq!(
        decode_set_text("{\"text\":\"\\u00e9\\u65e5\"}").as_deref(),
        Some("\u{e9}\u{65e5}")
    );
}

#[test]
fn malformed_bodies_are_rejected() {
    assert_eq!(decode_set_text(""), None);
    assert_eq!(decode_set_text("{}"), None);
    assert_eq!(decode_set_text("{\"text\":\"unterminated}"), None);
    assert_eq!(decode_set_text("{\"wrong\":\"key\"}"), None);
    assert_eq!(decode_set_text("{\"text\":\"a\"} trailing"), None);
    assert_eq!(decode_set_text("{\"text\":\"a\""), None);
    assert_eq!(decode_set_text("{\"text\":\"bad \\x escape\"}"), None);
    assert_eq!(decode_set_text("{\"text\":\"lone surrogate \\ud800\"}"), None);
    assert_eq!(decode_set_text("{\"text\":\"raw control \u{1} char\"}"), None);
}

#[test]
fn malformed_indices_are_rejected() {
    assert_eq!(decode_set_by_idx("{\"idx\":-1}"), None);
    assert_eq!(decode_set_by_idx("{\"idx\":012}"), None);
    assert_eq!(decode_set_by_idx("{\"idx\":1.5}"), None);
    assert_eq!(decode_set_by_idx("{\"idx\":99999999999999999999999999}"), None);
    assert_eq!(decode_set_by_idx("{\"idx\":\"7\"}"), None);
    assert_eq!(decode_set_by_idx("{\"idx\":}"), None);
}

#[test]
fn empty_response_is_an_empty_object() {
    assert_eq!(encode_empty_response(), "{}");
}
