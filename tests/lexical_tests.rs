use ray_tracing::lexical::{parse_usize, split_pieces, split_words};

#[test]
fn words_skip_runs_of_whitespace() {
    let w = split_words(b"  v 1.0\t-2.5   3\r");
    assert_eq!(w, vec![b"v".to_vec(), b"1.0".to_vec(), b"-2.5".to_vec(), b"3".to_vec()]);
}

#[test]
fn words_of_blank_line_are_empty() {
    assert!(split_words(b"").is_empty());
    assert!(split_words(b" \t \r").is_empty());
}

#[test]
fn pieces_keep_empty_fields() {
    let p = split_pieces(b"7//3", b'/');
    assert_eq!(p, vec![b"7".to_vec(), b"".to_vec(), b"3".to_vec()]);
    assert_eq!(split_pieces(b"", b'/'), vec![Vec::<u8>::new()]);
    assert_eq!(split_pieces(b"12", b'/'), vec![b"12".to_vec()]);
}

#[test]
fn usize_numerals() {
    assert_eq!(parse_usize(b"42"), Some(42));
    assert_eq!(parse_usize(b"+7"), Some(7));
    assert_eq!(parse_usize(b"0"), Some(0));
    assert_eq!(parse_usize(b"007"), Some(7));
    assert_eq!(parse_usize(b"18446744073709551615"), Some(usize::MAX));
}

#[test]
fn usize_rejects_what_parse_rejects() {
    let cases: [&[u8]; 7] = [b"", b"+", b"-1", b"1a", b" 1", b"1.0", b"18446744073709551616"];
    for s in cases {
        assert_eq!(parse_usize(s), None, "{:?}", s);
        let text = std::str::from_utf8(s).unwrap();
        assert!(text.parse::<usize>().is_err());
    }
}
