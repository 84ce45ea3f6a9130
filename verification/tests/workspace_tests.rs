use iconic_statusbar::workspace::parse_workspace_id;

#[test]
fn numeric_name_is_tracked() {
    assert_eq!(parse_workspace_id("3"), Some(3));
}

#[test]
fn non_numeric_name_is_excluded() {
    assert_eq!(parse_workspace_id("main"), None);
}

#[test]
fn signs_are_accepted() {
    assert_eq!(parse_workspace_id("+7"), Some(7));
    assert_eq!(parse_workspace_id("-12"), Some(-12));
}

#[test]
fn leading_zeros_are_accepted() {
    assert_eq!(parse_workspace_id("007"), Some(7));
    assert_eq!(parse_workspace_id("0"), Some(0));
}

#[test]
fn bounds_are_exact() {
    assert_eq!(parse_workspace_id("2147483647"), Some(i32::MAX));
    assert_eq!(parse_workspace_id("2147483648"), None);
    assert_eq!(parse_workspace_id("-2147483648"), Some(i32::MIN));
    assert_eq!(parse_workspace_id("-2147483649"), None);
    assert_eq!(parse_workspace_id("99999999999999999999"), None);
}

#[test]
fn malformed_names_are_rejected() {
    assert_eq!(parse_workspace_id(""), None);
    assert_eq!(parse_workspace_id("+"), None);
    assert_eq!(parse_workspace_id("-"), None);
    assert_eq!(parse_workspace_id("1x"), None);
    assert_eq!(parse_workspace_id(" 3"), None);
    assert_eq!(parse_workspace_id("3 "), None);
    assert_eq!(parse_workspace_id("--3"), None);
}
