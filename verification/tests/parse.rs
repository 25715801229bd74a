use configster::{get_ver, parse_line, parse_lines, OptionProperties};

#[test]
fn test_parse_line() {
    // Test with no attributes
    assert_eq!(
        parse_line("Option = /home/foo", ','),
        ("Option".to_string(), "/home/foo".to_string(), vec![])
    );

    // Test with 5 attributes and several spaces
    assert_eq!(
        parse_line("Option=/home/foo , another  ,   test,1,2,3", ','),
        (
            "Option".to_string(),
            "/home/foo".to_string(),
            vec![
                "another".to_string(),
                "test".to_string(),
                "1".to_string(),
                "2".to_string(),
                "3".to_string()
            ]
        )
    );

    // Test with leading '#' sign
    assert_eq!(
        parse_line("#Option = /home/foo", ','),
        ("".to_string(), "".to_string(), vec![])
    );

    // Test with two attributes, a single space after the commas
    assert_eq!(
        parse_line("Option = /home/foo, removable, test", ','),
        (
            "Option".to_string(),
            "/home/foo".to_string(),
            vec!["removable".to_string(), "test".to_string()]
        )
    );

    // Test for blank line
    assert_eq!(
        parse_line("        ", ','),
        ("".to_string(), "".to_string(), vec![])
    );

    // Test for whitespace in Option
    assert_eq!(
        parse_line("Option  /home/foo", ','),
        ("InvalidOption".to_string(), "".to_string(), vec![])
    );

    // Test for '=' after Option has already been marked as invalid.
    assert_eq!(
        parse_line("Option  /home/foo = value", ','),
        ("InvalidOption".to_string(), "".to_string(), vec![])
    );
}

#[test]
fn test_parse_lines() {
    let lines: Vec<String> = vec![
        "# A sample configuration".to_string(),
        "".to_string(),
        "option = Blue, light, shiny".to_string(),
        "max_users = 30".to_string(),
        "DelayOff".to_string(),
    ];
    let line1 = OptionProperties::new(
        "option".to_string(),
        "Blue".to_string(),
        vec!["light".to_string(), "shiny".to_string()],
    );
    let line2 = OptionProperties::new("max_users".to_string(), "30".to_string(), vec![]);
    let line3 = OptionProperties::new("DelayOff".to_string(), "".to_string(), vec![]);

    assert_eq!(parse_lines(&lines, ','), vec![line1, line2, line3]);
}

#[test]
fn test_duplicate_options_kept_in_order() {
    let lines: Vec<String> = vec![
        "color = Green".to_string(),
        "color = Blue".to_string(),
        "color = Black".to_string(),
    ];
    let records = parse_lines(&lines, ',');
    assert_eq!(records.len(), 3);
    assert_eq!(records[0].option, "color");
    assert_eq!(records[1].option, "color");
    assert_eq!(records[2].option, "color");
    assert_eq!(records[0].value.primary, "Green");
    assert_eq!(records[1].value.primary, "Blue");
    assert_eq!(records[2].value.primary, "Black");
}

#[test]
fn test_reparse_yields_identical_records() {
    let lines: Vec<String> = vec![
        "alpha = 1, x, y".to_string(),
        "# skip me".to_string(),
        "alpha = 2".to_string(),
        "beta".to_string(),
    ];
    let first = parse_lines(&lines, ',');
    let second = parse_lines(&lines, ',');
    assert_eq!(first, second);
}

#[test]
fn test_equals_only_line_yields_no_record() {
    assert_eq!(parse_line("=", ','), ("".to_string(), "".to_string(), vec![]));
    let lines: Vec<String> = vec!["=".to_string()];
    assert_eq!(parse_lines(&lines, ','), vec![]);
}

#[test]
fn test_no_delimiter_keeps_whole_value_as_primary() {
    assert_eq!(
        parse_line("path = /usr/local/share", ';'),
        ("path".to_string(), "/usr/local/share".to_string(), vec![])
    );
}

#[test]
fn test_trailing_empty_attributes_kept() {
    assert_eq!(
        parse_line("a = b,,", ','),
        (
            "a".to_string(),
            "b".to_string(),
            vec!["".to_string(), "".to_string()]
        )
    );
}

#[test]
fn test_whitespace_only_attribute_becomes_empty() {
    assert_eq!(
        parse_line("a = b,   ,c", ','),
        (
            "a".to_string(),
            "b".to_string(),
            vec!["".to_string(), "c".to_string()]
        )
    );
}

#[test]
fn test_comment_after_leading_whitespace_skipped() {
    assert_eq!(
        parse_line("   # note", ','),
        ("".to_string(), "".to_string(), vec![])
    );
}

#[test]
fn test_unicode_whitespace_trimmed() {
    assert_eq!(
        parse_line("\u{00A0}opt = val\u{3000}", ','),
        ("opt".to_string(), "val".to_string(), vec![])
    );
}

#[test]
fn test_unicode_whitespace_invalidates_option() {
    assert_eq!(
        parse_line("op\u{2003}t = val", ','),
        ("InvalidOption".to_string(), "".to_string(), vec![])
    );
}

#[test]
fn test_alternate_delimiter() {
    assert_eq!(
        parse_line("opt = a,b; c; d", ';'),
        (
            "opt".to_string(),
            "a,b".to_string(),
            vec!["c".to_string(), "d".to_string()]
        )
    );
}

#[test]
fn test_option_properties_new() {
    let rec = OptionProperties::new(
        "name".to_string(),
        "prim".to_string(),
        vec!["a".to_string()],
    );
    assert_eq!(rec.option, "name");
    assert_eq!(rec.value.primary, "prim");
    assert_eq!(rec.value.attributes, vec!["a".to_string()]);
}

#[test]
fn test_get_ver() {
    assert_eq!(get_ver(), "0.2.0");
}
