use audioserve::table::Table;
use audioserve::text::{decimal_text, is_before, parse_number, split_at_most, strip_text};

#[test]
fn rows_are_kept_in_the_order_of_their_keys() {
    let mut t: Table<u32> = Table::new();
    for (k, v) in [("b", 1), ("a", 2), ("ab", 3), ("b", 4), ("c", 5)] {
        t.insert(k.to_string(), v);
    }
    let keys: Vec<&str> = (0..t.len()).map(|i| t.key_at(i)).collect();
    assert_eq!(keys, ["a", "ab", "b", "c"]);
    assert_eq!(t.get("b"), Some(&4));
    assert_eq!(t.remove("c"), Some(5));
    assert_eq!(t.remove("c"), None);
    assert!(t.contains("ab"));
    let taken: Vec<(String, u32)> = t.take_prefix("a");
    assert_eq!(taken, vec![("ab".to_string(), 3), ("a".to_string(), 2)]);
    assert_eq!(t.len(), 1);
    assert_eq!(t.remove_at(0), ("b".to_string(), 4));
}

#[test]
fn texts_are_ordered_like_their_bytes() {
    let samples = ["", "a", "ab", "b", "A", "\u{e1}", "\u{ffff}", "\u{10000}", "a\u{10ffff}"];
    for x in samples {
        for y in samples {
            assert_eq!(is_before(x, y), x < y, "{:?} {:?}", x, y);
        }
    }
    assert_eq!(strip_text("/a/b", "/a"), Some("/b"));
    assert_eq!(strip_text("/a", "/b"), None);
}

#[test]
fn numbers_are_read_like_the_standard_library_reads_them() {
    for s in ["0", "7", "+7", "-7", "", "+", "007", "18446744073709551615", "18446744073709551616", "1a", " 1"] {
        assert_eq!(parse_number(s, u64::MAX), s.parse::<u64>().ok(), "{:?}", s);
        assert_eq!(parse_number(s, 255).map(|n| n as u8), s.parse::<u8>().ok(), "{:?}", s);
    }
    for n in [0u64, 9, 10, 12345, u64::MAX] {
        assert_eq!(decimal_text(n), n.to_string());
        assert_eq!(parse_number(&decimal_text(n), u64::MAX), Some(n));
    }
}

#[test]
fn texts_are_split_like_the_standard_library_splits_them() {
    for s in ["", "/", "a/b/c/d/e/f", "//", "abc", "/positions/g/0/x/y"] {
        for n in 1..6 {
            assert_eq!(split_at_most(s, '/', n), s.splitn(n, '/').collect::<Vec<_>>(), "{:?} {}", s, n);
        }
    }
}
