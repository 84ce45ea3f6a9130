use iconic_statusbar::x11_util::parse_xprop_wm_class;

#[test]
fn test_parse_xprop_wm_class() {
    assert_eq!(parse_xprop_wm_class(vec![0, 1, 2, 3, 4]), None);
    assert_eq!(parse_xprop_wm_class(vec![0, 0, 0, 0]), None);
    assert_eq!(
        parse_xprop_wm_class("hell world!".as_bytes().to_owned()),
        None
    );
    assert_eq!(
        parse_xprop_wm_class("WM_CLASS:  not found.".as_bytes().to_owned()),
        None
    );
    assert_eq!(
        parse_xprop_wm_class(
            "WM_CLASS = \"Navigator\", \"firefox\""
                .as_bytes()
                .to_owned()
        ),
        Some(("Navigator".to_owned(), "firefox".to_owned()))
    );
}

#[test]
fn parse_rejects_invalid_utf8() {
    assert_eq!(parse_xprop_wm_class(vec![0xFF, 0xFE, 0x80]), None);
}

#[test]
fn parse_rejects_three_segments() {
    assert_eq!(
        parse_xprop_wm_class("WM_CLASS = \"a\", \"b\", \"c\"".as_bytes().to_owned()),
        None
    );
}

#[test]
fn parse_rejects_one_segment() {
    assert_eq!(
        parse_xprop_wm_class("WM_CLASS = \"alone\"".as_bytes().to_owned()),
        None
    );
}

#[test]
fn parse_accepts_surrounding_whitespace() {
    assert_eq!(
        parse_xprop_wm_class(
            "  WM_CLASS = \"spotify\", \"Spotify\"\n".as_bytes().to_owned()
        ),
        Some(("spotify".to_owned(), "Spotify".to_owned()))
    );
}

#[test]
fn parse_rejects_missing_quotes() {
    assert_eq!(
        parse_xprop_wm_class("WM_CLASS = Navigator, \"firefox\"".as_bytes().to_owned()),
        None
    );
    assert_eq!(
        parse_xprop_wm_class("WM_CLASS = \"Navigator\", firefox".as_bytes().to_owned()),
        None
    );
}

#[test]
fn parse_rejects_empty_segments() {
    assert_eq!(
        parse_xprop_wm_class("WM_CLASS = \"\", \"\"".as_bytes().to_owned()),
        None
    );
    assert_eq!(
        parse_xprop_wm_class("WM_CLASS = \"a\", \"\"".as_bytes().to_owned()),
        None
    );
    assert_eq!(
        parse_xprop_wm_class("WM_CLASS = \"\", \"b\"".as_bytes().to_owned()),
        None
    );
}

#[test]
fn parse_rejects_empty_input() {
    assert_eq!(parse_xprop_wm_class(Vec::new()), None);
}
