use clipd::classify::{classify_lower, classify_name, classify_offers, ClipboardDataType};

fn offers(names: &[&str]) -> Vec<String> {
    names.iter().map(|n| n.to_string()).collect()
}

#[test]
fn single_names_classify_by_target() {
    assert_eq!(classify_lower("utf8_string"), ClipboardDataType::Text);
    assert_eq!(classify_lower("string"), ClipboardDataType::Text);
    assert_eq!(classify_lower("text/uri-list"), ClipboardDataType::Url);
    assert_eq!(classify_lower("text/html"), ClipboardDataType::Html);
    assert_eq!(classify_lower("text/plain"), ClipboardDataType::Text);
    assert_eq!(classify_lower("image/png"), ClipboardDataType::Image);
    assert_eq!(classify_lower("application/pdf"), ClipboardDataType::Unsupported);
    assert_eq!(classify_lower("timestamp"), ClipboardDataType::Unsupported);
}

#[test]
fn classification_is_case_insensitive() {
    assert_eq!(classify_name("UTF8_STRING"), ClipboardDataType::Text);
    assert_eq!(classify_name("TEXT/HTML"), ClipboardDataType::Html);
    assert_eq!(classify_name("Image/JPEG"), ClipboardDataType::Image);
}

#[test]
fn html_outranks_text() {
    let kind = classify_offers(&offers(&["UTF8_STRING", "text/html", "TIMESTAMP"]));
    assert_eq!(kind, ClipboardDataType::Html);
    let kind = classify_offers(&offers(&["text/html", "STRING"]));
    assert_eq!(kind, ClipboardDataType::Html);
}

#[test]
fn image_outranks_everything() {
    let kind = classify_offers(&offers(&[
        "UTF8_STRING",
        "text/html",
        "text/uri-list",
        "image/png",
    ]));
    assert_eq!(kind, ClipboardDataType::Image);
}

#[test]
fn uri_list_outranks_plain_text() {
    let kind = classify_offers(&offers(&["UTF8_STRING", "text/uri-list"]));
    assert_eq!(kind, ClipboardDataType::Url);
}

#[test]
fn no_handleable_offer_reports_unsupported() {
    assert_eq!(classify_offers(&offers(&[])), ClipboardDataType::Unsupported);
    assert_eq!(
        classify_offers(&offers(&["TIMESTAMP", "MULTIPLE"])),
        ClipboardDataType::Unsupported
    );
}

#[test]
fn wire_codes_round_trip() {
    for kind in [
        ClipboardDataType::Unsupported,
        ClipboardDataType::Text,
        ClipboardDataType::Url,
        ClipboardDataType::Html,
        ClipboardDataType::Image,
    ] {
        assert_eq!(ClipboardDataType::from_u32(kind.code()), kind);
    }
}

#[test]
fn unknown_wire_codes_decode_to_unsupported() {
    assert_eq!(ClipboardDataType::from_u32(0), ClipboardDataType::Unsupported);
    assert_eq!(ClipboardDataType::from_u32(7), ClipboardDataType::Unsupported);
    assert_eq!(ClipboardDataType::from_u32(21), ClipboardDataType::Unsupported);
    assert_eq!(ClipboardDataType::from_u32(5), ClipboardDataType::Text);
    assert_eq!(ClipboardDataType::from_u32(10), ClipboardDataType::Url);
    assert_eq!(ClipboardDataType::from_u32(15), ClipboardDataType::Html);
    assert_eq!(ClipboardDataType::from_u32(20), ClipboardDataType::Image);
}
