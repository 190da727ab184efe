//! The order of texts.
use oxidesfu_media::text_order::{insert_text, is_before};

#[test]
fn texts_are_ordered_as_strings_are() {
    let texts = ["", "a", "aa", "ab", "b", "B", "\u{e9}", "\u{10000}", "\u{fffd}"];
    for a in texts {
        for b in texts {
            assert_eq!(is_before(a, b), a < b, "{a:?} {b:?}");
        }
    }
}

#[test]
fn texts_are_put_where_they_belong() {
    let mut list = Vec::new();
    for text in ["c", "a", "b", "a", "c"] {
        insert_text(&mut list, text.to_string());
    }
    assert_eq!(list, vec!["a", "b", "c"]);
}
