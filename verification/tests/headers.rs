use minihttp::headers::HttpHeaders;

#[test]
fn insert_and_get_ignore_case() {
    let mut h = HttpHeaders::new();
    h.insert("Content-Type", String::from("text/plain"));
    assert_eq!(Some(&String::from("text/plain")), h.get("content-type"));
    assert_eq!(Some(&String::from("text/plain")), h.get("Content-Type"));
    assert_eq!(Some(&String::from("text/plain")), h.get("CONTENT-TYPE"));
}

#[test]
fn insert_with_other_casing_overwrites() {
    let mut h = HttpHeaders::new();
    h.insert("Content-Type", String::from("text/plain"));
    h.insert("content-TYPE", String::from("application/json"));
    assert_eq!(1, h.len());
    assert_eq!(Some(&String::from("application/json")), h.get("content-type"));
}

#[test]
fn contains_key_uses_lowercase() {
    let mut h = HttpHeaders::new();
    h.insert("X-Token", String::from("1"));
    assert!(h.contains_key(&String::from("x-token")));
    assert!(h.contains_key(&String::from("X-Token")));
    assert!(!h.contains_key(&String::from("x-other")));
}

#[test]
fn content_length_parses_digits() {
    let mut h = HttpHeaders::new();
    h.insert("Content-Length", String::from("42"));
    assert_eq!(Some(42), h.content_length());
}

#[test]
fn content_length_absent_or_unusable_is_none() {
    let mut h = HttpHeaders::new();
    assert_eq!(None, h.content_length());
    h.insert("content-length", String::from("abc"));
    assert_eq!(None, h.content_length());
    h.insert("content-length", String::from(""));
    assert_eq!(None, h.content_length());
    h.insert("content-length", String::from("12x"));
    assert_eq!(None, h.content_length());
}

#[test]
fn write_to_emits_lowercased_lines() {
    let mut h = HttpHeaders::new();
    h.insert("Alpha", String::from("1"));
    h.insert("Beta", String::from("2"));
    let mut out: Vec<u8> = Vec::new();
    h.write_to(&mut out);
    assert_eq!(b"alpha: 1\r\nbeta: 2\r\n".to_vec(), out);
}

#[test]
fn read_from_collects_until_blank_line() {
    let mut h = HttpHeaders::new();
    let input = b"One: a\r\nTwo: b\r\n\r\nrest";
    match h.read_from(input, 0, false) {
        minihttp::common::DecodeStep::Done((), next) => {
            assert_eq!(input.len() - 4, next);
            assert_eq!(2, h.len());
            assert_eq!(Some(&String::from("a")), h.get("one"));
            assert_eq!(Some(&String::from("b")), h.get("two"));
        },
        _ => panic!("expected a complete header block"),
    }
}

#[test]
fn read_from_duplicate_names_overwrite() {
    let mut h = HttpHeaders::new();
    let input = b"K: first\r\nk: second\r\n\r\n";
    match h.read_from(input, 0, false) {
        minihttp::common::DecodeStep::Done((), _) => {
            assert_eq!(1, h.len());
            assert_eq!(Some(&String::from("second")), h.get("k"));
        },
        _ => panic!("expected a complete header block"),
    }
}
