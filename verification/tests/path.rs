use hyperlight_unikraft::path::{shown_bytes, split_pieces, HostPath};

fn text(p: &HostPath) -> String {
    String::from_utf8(p.to_bytes()).unwrap()
}

#[test]
fn paths_are_parsed_lexically() {
    let parse = |s: &str| HostPath::parse(s.as_bytes()).map(|p| text(&p));
    assert_eq!(parse("/").unwrap(), "/");
    assert_eq!(parse("//a/./b//").unwrap(), "/a/b");
    assert_eq!(parse("/a/../b").unwrap(), "/b");
    assert_eq!(parse("/..."), Some("/...".to_string()));
    assert_eq!(parse("/a/../.."), None);
    assert_eq!(parse("a/b"), None);
    assert_eq!(parse(""), None);
}

#[test]
fn prefixes_are_by_name() {
    let p = HostPath::parse(b"/ab/c").unwrap();
    assert!(p.starts_with(&HostPath::parse(b"/ab").unwrap()));
    assert!(p.starts_with(&HostPath::root_dir()));
    assert!(!p.starts_with(&HostPath::parse(b"/a").unwrap()));
    assert_eq!(text(&p.prefix(1)), "/ab");
    assert_eq!(p.depth(), 2);
}

#[test]
fn paths_grow_and_shrink() {
    let mut p = HostPath::root_dir();
    assert!(!p.pop());
    p.push(b"x");
    p.push(b"y");
    assert_eq!(text(&p), "/x/y");
    assert!(p.pop());
    assert_eq!(text(&p), "/x");
}

#[test]
fn pieces_between_slashes() {
    assert_eq!(split_pieces(b""), [b"".to_vec()]);
    assert_eq!(split_pieces(b"a//b"), [b"a".to_vec(), b"".to_vec(), b"b".to_vec()]);
}

#[test]
fn paths_are_shown_as_std_shows_them() {
    for text in ["/a b", "/say \"hi\"", "it's", "tab\there", "", "e\u{301}", "\u{301}x", "\u{200b}\u{7f}\0", "日本/é😀"] {
        assert_eq!(
            shown_bytes(text.as_bytes()),
            format!("{:?}", std::path::Path::new(text))
        );
    }
    assert_eq!(shown_bytes(b"/say \"hi\""), "\"/say \\\"hi\\\"\"");
    // Bytes that are part of no character.
    assert_eq!(shown_bytes(b"x\xff"), r#""x\xFF""#);
    assert_eq!(shown_bytes(b"\xe2\x82A\xc3\xa9\x0f"), r#""\xE2\x82Aé\u{f}""#);
    assert_eq!(shown_bytes(b"\xed\xa0\x80\xf0\x9f"), r#""\xED\xA0\x80\xF0\x9F""#);
}
