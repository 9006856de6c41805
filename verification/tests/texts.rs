use machine_operator::config::{ipfs_url, max_threads_number};
use machine_operator::text::{decimal_text, parse_u64, same_bytes, same_text, segments};

#[test]
fn segments_of_paths() {
    assert_eq!(segments(""), Vec::<String>::new());
    assert_eq!(segments("///"), Vec::<String>::new());
    assert_eq!(segments("a"), vec!["a"]);
    assert_eq!(segments("/a//b/c/"), vec!["a", "b", "c"]);
    assert_eq!(segments("/\u{e9}t\u{e9}/x y"), vec!["\u{e9}t\u{e9}", "x y"]);
}

#[test]
fn segments_come_back_from_a_path() {
    let list = ["ensure", "bafy", "00ff", "12"];
    let path: String = list.iter().map(|part| format!("/{}", part)).collect();
    assert_eq!(segments(&path), list);
    assert_eq!(segments(&format!("{}/", path)), list);
}

#[test]
fn numbers_read() {
    assert_eq!(parse_u64("0"), Some(0));
    assert_eq!(parse_u64("+7"), Some(7));
    assert_eq!(parse_u64("007"), Some(7));
    assert_eq!(parse_u64("18446744073709551615"), Some(u64::MAX));
    assert_eq!(parse_u64("00000000000000000000000000000000001"), Some(1));
    for text in [
        "", "+", "++1", "-1", "-0", " 1", "1 ", "1_0", "0x1", "1e3", "\u{0661}",
        "18446744073709551616", "99999999999999999999999", "18446744073709551616x",
    ] {
        assert_eq!(parse_u64(text), None);
        assert!(text.parse::<u64>().is_err());
    }
}

#[test]
fn numbers_written_are_read_back() {
    for number in [0, 9, 10, 11, 99, 100, 12345678901234567890, u64::MAX] {
        assert_eq!(decimal_text(number), number.to_string());
        assert_eq!(parse_u64(&decimal_text(number)), Some(number));
    }
}

#[test]
fn comparisons() {
    assert!(same_text("a\u{e9}", "a\u{e9}"));
    assert!(!same_text("a", "A"));
    assert!(same_bytes(&[1, 2], &[1, 2]));
    assert!(!same_bytes(&[1, 2], &[1, 3]));
    assert!(!same_bytes(&[1, 2], &[1, 2, 3]));
}

#[test]
fn settings() {
    assert_eq!(max_threads_number(None), Some(3));
    assert_eq!(max_threads_number(Some("8")), Some(8));
    assert_eq!(max_threads_number(Some("0")), Some(0));
    assert_eq!(max_threads_number(Some("many")), None);
    assert_eq!(ipfs_url(None), "http://127.0.0.1:5001");
    assert_eq!(ipfs_url(Some("http://node:1")), "http://node:1");
}
