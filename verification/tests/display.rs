use clipd::entry::{ClipboardData, PixelBuffer};
use clipd::stamp::Timestamp;
use clipd::storage::ClipboardStorage;
use clipd::text::make_table_column;

#[test]
fn image_hashes_depend_on_pixel_bytes_alone() {
    let bytes_a: Vec<u8> = vec![1, 2, 3, 4, 5, 6, 7, 8];
    let bytes_b: Vec<u8> = vec![1, 2, 3, 4, 5, 6, 7, 8];
    let bytes_c: Vec<u8> = vec![9, 9, 9, 9];
    let ha = ClipboardData::calc_image_hash(&bytes_a);
    let hb = ClipboardData::calc_image_hash(&bytes_b);
    let hc = ClipboardData::calc_image_hash(&bytes_c);
    assert_eq!(ha, hb);
    assert_ne!(ha, hc);
}

#[test]
fn image_hash_matches_known_digest() {
    assert_eq!(
        ClipboardData::calc_image_hash(&Vec::new()),
        "d41d8cd98f00b204e9800998ecf8427e"
    );
    assert_eq!(
        ClipboardData::calc_image_hash(&b"abc".to_vec()),
        "900150983cd24fb0d6963f7d28e17f72"
    );
}

#[test]
fn equal_pixel_bytes_dedup_as_equal_entries() {
    let make = |stamp: Timestamp| {
        let bytes: Vec<u8> = vec![10, 20, 30, 40];
        let hash = ClipboardData::calc_image_hash(&bytes);
        ClipboardData::Image(
            PixelBuffer {
                width: 2,
                height: 2,
                has_alpha: false,
                bits_per_sample: 8,
                rowstride: 6,
                bytes,
            },
            hash,
            stamp,
        )
    };
    let first = make(Timestamp {
        month: 1,
        day: 2,
        hour: 3,
        minute: 4,
        second: 5,
    });
    let second = make(Timestamp {
        month: 6,
        day: 7,
        hour: 8,
        minute: 9,
        second: 10,
    });
    assert!(first.same_content(&second));

    let mut storage = ClipboardStorage::new(0);
    storage.insert_data(first);
    storage.insert_data(second);
    assert_eq!(storage.list().len(), 1);
}

#[test]
fn image_display_string_shows_hash_time_size() {
    let bytes: Vec<u8> = vec![0; 16];
    let hash = ClipboardData::calc_image_hash(&bytes);
    let entry = ClipboardData::Image(
        PixelBuffer {
            width: 2,
            height: 2,
            has_alpha: true,
            bits_per_sample: 8,
            rowstride: 8,
            bytes,
        },
        hash.clone(),
        Timestamp {
            month: 1,
            day: 2,
            hour: 3,
            minute: 4,
            second: 5,
        },
    );
    let expected = format!("[image: {}, 01-02 03:04:05, 2x2, 16 B]", hash);
    assert_eq!(entry.to_display_string(), expected);
    // truncation applies at render time to image labels too
    assert_eq!(entry.to_string_with_limit(4), "[ima");
    assert_eq!(entry.to_string_with_limit(512), expected);
}

#[test]
fn text_display_truncates_to_limit_but_stores_whole() {
    let long = "x".repeat(20);
    let entry = ClipboardData::Text(long.clone());
    let shown = entry.to_string_with_limit(8);
    assert_eq!(shown, "xxxxxxxx");
    assert_eq!(shown.chars().count(), 8);
    assert_eq!(entry.to_display_string(), long);
}

#[test]
fn short_text_is_not_padded_or_cut() {
    let entry = ClipboardData::Text(String::from("short"));
    assert_eq!(entry.to_string_with_limit(512), "short");
}

#[test]
fn uri_list_displays_newline_joined() {
    let entry = ClipboardData::Url(vec![
        String::from("file:///a.txt"),
        String::from("file:///b.txt"),
    ]);
    assert_eq!(entry.to_display_string(), "file:///a.txt\nfile:///b.txt");
    assert_eq!(entry.to_string_with_limit(15), "file:///a.txt\nf");
}

#[test]
fn table_column_pads_short_text() {
    assert_eq!(make_table_column(String::from("abc"), 5), "abc  ");
    assert_eq!(make_table_column(String::from("abcde"), 5), "abcde");
}

#[test]
fn table_column_cuts_long_text_with_ellipsis() {
    assert_eq!(make_table_column(String::from("abcdef"), 4), "abc\u{2026}");
}

#[test]
fn table_column_counts_display_cells_for_overflow() {
    // three wide characters, six cells: over a width of four, cut to
    // three characters plus the ellipsis
    assert_eq!(
        make_table_column(String::from("\u{65e5}\u{672c}\u{8a9e}"), 4),
        "\u{65e5}\u{672c}\u{8a9e}\u{2026}"
    );
}

#[test]
fn table_column_pads_by_display_cells() {
    // one two-cell character: three spaces fill a width of five
    assert_eq!(make_table_column(String::from("\u{e9}"), 5), "\u{e9}   ");
    assert_eq!(make_table_column(String::from("\u{65e5}"), 5), "\u{65e5}   ");
    // a wide pair overflows a width of three
    assert_eq!(
        make_table_column(String::from("\u{65e5}\u{672c}"), 3),
        "\u{65e5}\u{672c}\u{2026}"
    );
}

#[test]
fn timestamp_renders_zero_padded() {
    let stamp = Timestamp {
        month: 11,
        day: 9,
        hour: 0,
        minute: 59,
        second: 6,
    };
    assert_eq!(stamp.render(), "11-09 00:59:06");
}
