use rsc::path::{file_name, parent, with_file_name};
use rsc::text::{contains, push_decimal, push_padded, same_text, trim};
use rsc::utf8::utf8_lossy;
use std::path::Path;

#[test]
fn lossy_text_is_as_std_decodes_it() {
    let samples: Vec<Vec<u8>> = vec![
        vec![],
        b"plain".to_vec(),
        "gr\u{fc}n \u{20ac} \u{1f600}".as_bytes().to_vec(),
        vec![0xff],
        vec![b'a', 0xc3],
        vec![b'a', 0xc3, b'b'],
        vec![0xe2, 0x82],
        vec![0xe2, 0x82, b'x'],
        vec![0xf0, 0x9f, 0x98],
        vec![0xf0, 0x9f, 0x98, 0xff, 0x80],
        vec![0xf0, 0x9f, b'x'],
        vec![0xc0, 0xaf],
        vec![0xe0, 0x9f, 0xbf],
        vec![0xed, 0xa0, 0x80],
        vec![0xf4, 0x90, 0x80, 0x80],
        vec![0xf5, 0x80, 0x80, 0x80],
        vec![0x80, 0x80, b'z', 0xe2, 0x82, 0xac, 0xe2],
    ];
    for bytes in samples {
        assert_eq!(utf8_lossy(&bytes), String::from_utf8_lossy(&bytes).into_owned());
    }
}

#[test]
fn lossy_text_agrees_on_all_short_beginnings() {
    for a in 0..=255u8 {
        for b in [0x00, 0x41, 0x7f, 0x80, 0x8f, 0x90, 0x9f, 0xa0, 0xbf, 0xc2, 0xe0, 0xf0, 0xff] {
            for c in [0x20, 0x80, 0xbf, 0xc3] {
                let bytes = [a, b, c, 0x80];
                assert_eq!(utf8_lossy(&bytes), String::from_utf8_lossy(&bytes).into_owned());
            }
        }
    }
}

#[test]
fn a_broken_character_is_one_replacement() {
    assert_eq!(utf8_lossy(&[0xf0, 0x9f, 0x98, b'x']), "\u{fffd}x");
    assert_eq!(utf8_lossy(&[0xff, 0xff]), "\u{fffd}\u{fffd}");
}

#[test]
fn trimming_is_as_std_trims() {
    for s in ["", " ", "a", "  a b \n", "\u{3000}x\u{85}", "\u{200b}x", "\t\r\n\u{b}\u{c}"] {
        assert_eq!(trim(s), s.trim());
    }
}

#[test]
fn search_is_as_std_searches() {
    for (s, t) in [("", ""), ("a", ""), ("", "a"), ("abcabd", "abd"), ("aab", "ab"), ("ab", "ba")] {
        assert_eq!(contains(s, t), s.contains(t));
    }
}

#[test]
fn equal_texts() {
    assert!(same_text("a\u{fc}", "a\u{fc}"));
    assert!(!same_text("a", "b"));
    assert!(!same_text("a", "ab"));
}

#[test]
fn decimals_are_as_std_writes_them() {
    for n in [0, 9, 10, 99, 100, 12345, u64::MAX] {
        let mut s = String::new();
        push_decimal(&mut s, n);
        assert_eq!(s, n.to_string());
    }
}

#[test]
fn padding_counts_characters() {
    let mut s = String::new();
    push_padded(&mut s, "\u{fc}\u{20ac}", 4);
    assert_eq!(s, format!("{:<4}", "\u{fc}\u{20ac}"));
    push_padded(&mut s, "longer", 3);
    assert_eq!(s, "\u{fc}\u{20ac}  longer");
}

fn text(bytes: &[u8]) -> String {
    String::from_utf8(bytes.to_vec()).expect("text")
}

const PATHS: [&str; 24] = [
    "",
    "/",
    "//",
    ".",
    "..",
    "./",
    "a",
    "a/",
    "a/.",
    "a/..",
    "/a",
    "//a",
    "/a/b",
    "/a//b",
    "/a/b/",
    "/a/b/.",
    "/a/./b",
    "/a/./.",
    "./a",
    "./a/b",
    "../a",
    "/data/adb/rsc/rsc.log",
    "rsc.log",
    "a/b//",
];

#[test]
fn file_names_are_as_std_finds_them() {
    for p in PATHS {
        let expected = Path::new(p).file_name().map(|n| n.to_str().expect("text").to_string());
        assert_eq!(file_name(p.as_bytes()).map(|n| text(&n)), expected, "{p:?}");
    }
}

#[test]
fn parents_are_as_std_finds_them() {
    for p in PATHS {
        let expected = Path::new(p).parent().map(|n| n.to_str().expect("text").to_string());
        assert_eq!(parent(p.as_bytes()).map(|n| text(&n)), expected, "{p:?}");
    }
}

#[test]
fn siblings_are_as_std_makes_them() {
    for p in PATHS {
        let expected = Path::new(p).with_file_name("x.1").to_str().expect("text").to_string();
        assert_eq!(text(&with_file_name(p.as_bytes(), b"x.1")), expected, "{p:?}");
    }
}

#[test]
fn bytes_behind_a_valid_front_are_decoded_by_themselves() {
    let rest = [0x82, 0xac, b'x', 0xf0];
    let mut all = "a\u{20ac}".as_bytes().to_vec();
    all.extend_from_slice(&rest);
    assert_eq!(utf8_lossy(&all), format!("a\u{20ac}{}", utf8_lossy(&rest)));
}

#[test]
fn a_nul_keeps_both_sides_apart() {
    let mut all = vec![b'a', 0xe2, 0x82, 0];
    all.extend_from_slice(&[0xac, b'b']);
    assert_eq!(utf8_lossy(&all), "a\u{fffd}\0\u{fffd}b");
}
