use swiftlearner::parse::parse_unsigned;
use swiftlearner::parse::split_fields;
use swiftlearner::parse::split_lines;

#[test]
fn test_split_lines_strips_terminators() {
    let lines = split_lines(b"alpha\r\nbeta\ngamma");
    assert_eq!(
        lines,
        vec![b"alpha".to_vec(), b"beta".to_vec(), b"gamma".to_vec()]
    );
}

#[test]
fn test_split_lines_empty_stream() {
    let lines = split_lines(b"");
    assert!(lines.is_empty());
}

#[test]
fn test_split_lines_trailing_line_feed() {
    let lines = split_lines(b"a\n");
    assert_eq!(lines, vec![b"a".to_vec()]);
}

#[test]
fn test_split_lines_empty_line_kept() {
    let lines = split_lines(b"a\n\nb");
    assert_eq!(lines, vec![b"a".to_vec(), b"".to_vec(), b"b".to_vec()]);
}

#[test]
fn test_split_lines_lone_carriage_return_kept() {
    let lines = split_lines(b"a\r");
    assert_eq!(lines, vec![b"a\r".to_vec()]);
}

#[test]
fn test_split_fields_simple() {
    let fields = split_fields(b"1,2.5,,3");
    assert_eq!(
        fields,
        vec![b"1".to_vec(), b"2.5".to_vec(), b"".to_vec(), b"3".to_vec()]
    );
}

#[test]
fn test_split_fields_no_comma_is_one_field() {
    assert_eq!(split_fields(b"abc"), vec![b"abc".to_vec()]);
    assert_eq!(split_fields(b""), vec![b"".to_vec()]);
}

#[test]
fn test_parse_unsigned_plain() {
    assert_eq!(parse_unsigned(b"42"), Some(42));
    assert_eq!(parse_unsigned(b"0"), Some(0));
    assert_eq!(parse_unsigned(b"007"), Some(7));
}

#[test]
fn test_parse_unsigned_plus_sign() {
    assert_eq!(parse_unsigned(b"+15"), Some(15));
    assert_eq!(parse_unsigned(b"+"), None);
}

#[test]
fn test_parse_unsigned_rejects_junk() {
    assert_eq!(parse_unsigned(b""), None);
    assert_eq!(parse_unsigned(b"-3"), None);
    assert_eq!(parse_unsigned(b"1 2"), None);
    assert_eq!(parse_unsigned(b"12a"), None);
    assert_eq!(parse_unsigned(b"1.5"), None);
}

#[test]
fn test_parse_unsigned_rejects_overflow() {
    assert_eq!(parse_unsigned(b"18446744073709551616"), None);
    assert_eq!(parse_unsigned(b"99999999999999999999999999"), None);
}
