use std::collections::BTreeMap;

use model_radar::decimal_zero::is_decimal_zero;
use model_radar::escaping::{is_control, is_markup, len_utf16};
use model_radar::ordered_map::{compare, KeyOrder, OrderedMap};
use model_radar::strings::{chars_of, contains, is_blank, is_whitespace, lower, push_decimal, trim};

#[test]
fn character_classes_agree_with_the_standard_library() {
    for c in '\0'..=char::MAX {
        assert_eq!(is_whitespace(c), c.is_whitespace(), "{c:?}");
        assert_eq!(is_control(c), c.is_control(), "{c:?}");
        assert_eq!(len_utf16(c), c.len_utf16(), "{c:?}");
    }
    let markup: String = (0u8..128).map(char::from).filter(|c| is_markup(*c)).collect();
    assert_eq!(markup, "#*-<>[\\]_`|~");
}

#[test]
fn trimming_and_searching_agree_with_the_standard_library() {
    let samples = [
        "", " ", "a", " a ", "\u{a0}\u{2003}x y\u{3000}\n", "\t\t", "é é", "abcabc", "bca", "cc",
        "𝄞x𝄞",
    ];
    for text in samples {
        assert_eq!(trim(text), text.trim(), "{text:?}");
        assert_eq!(is_blank(text), text.trim().is_empty(), "{text:?}");
        assert_eq!(chars_of(text), text.chars().collect::<Vec<_>>());
        for needle in samples {
            assert_eq!(
                contains(text, needle),
                text.contains(needle),
                "{text:?} {needle:?}"
            );
        }
    }
}

#[test]
fn lowercasing_agrees_with_the_standard_library() {
    for text in ["", "a", "ÄX Z", "ΟΔΟΣ", "İ", "𝄞Q"] {
        assert_eq!(lower(text), text.to_lowercase(), "{text:?}");
    }
    assert_eq!(lower("ÄX Z"), "äx z");
}

#[test]
fn decimals_are_written_in_full() {
    for n in [0, 7, 10, 99, 100, 12345, u64::MAX] {
        let mut out = String::from("n=");
        push_decimal(&mut out, n);
        assert_eq!(out, format!("n={n}"));
    }
}

#[test]
fn zeros_are_recognised_in_every_notation() {
    for zero in ["0", "-0.0", "+.0", "0.", "000", "0e5", "0.0E-07", "-.0e+1"] {
        assert!(is_decimal_zero(zero), "{zero}");
    }
    for other in ["0.1", "e5", "0e-", "0 ", "+-0", "0e5.0", "٠", "0E٣"] {
        assert!(!is_decimal_zero(other), "{other}");
    }
}

#[test]
fn ordered_map_behaves_like_the_standard_one() {
    let keys = ["b", "", "ab", "a", "é", "𝄞", "\u{ffff}", "b", "a", "Z"];
    let mut ours = OrderedMap::new();
    let mut theirs = BTreeMap::new();
    for (round, key) in keys.iter().enumerate() {
        let value = round.to_string();
        assert_eq!(
            ours.insert(key.to_string(), value.clone()),
            theirs.insert(key.to_string(), value)
        );
        assert_eq!(ours.len(), theirs.len());
    }
    for (i, (key, value)) in theirs.iter().enumerate() {
        assert_eq!(ours.key(i), key);
        assert_eq!(ours.value(i), value);
        assert_eq!(ours.get(key), Some(value));
    }
    assert_eq!(ours.get("missing"), None);
    assert_eq!(ours.clone(), ours);
}

#[test]
fn keys_are_placed_by_code_point() {
    assert_eq!(compare("a", "ab"), KeyOrder::Before);
    assert_eq!(compare("b", "ab"), KeyOrder::After);
    assert_eq!(compare("é", "é"), KeyOrder::Same);
    assert_eq!(compare("\u{ffff}", "𝄞"), KeyOrder::Before);
}
