use crypto_verity::records::{read_content_lines, read_lines, read_record};

fn chars(text: &str) -> Vec<char> {
    text.chars().collect()
}

fn lines_of(text: &str) -> Vec<String> {
    read_lines(text).iter().map(|line| line.iter().collect::<String>()).collect()
}

fn record(line: &str) -> Option<(String, String)> {
    read_record(&chars(line))
}

#[test]
fn read_lines_cuts_at_line_feeds() {
    assert_eq!(lines_of("a\nb"), vec!["a", "b"]);
    assert_eq!(lines_of("a\nb\n"), vec!["a", "b", ""]);
    assert_eq!(lines_of("a\n\nb"), vec!["a", "", "b"]);
    assert_eq!(lines_of(""), vec![""]);
}

#[test]
fn read_lines_leaves_carriage_returns_in_place() {
    assert_eq!(lines_of("a\r\nb"), vec!["a\r", "b"]);
}

#[test]
fn read_content_lines_drops_blank_lines() {
    assert_eq!(read_content_lines("/etc/a\n\n/etc/b\n"), vec!["/etc/a", "/etc/b"]);
    assert_eq!(read_content_lines("\n\n/etc/a"), vec!["/etc/a"]);
    assert_eq!(read_content_lines(""), Vec::<String>::new());
    assert_eq!(read_content_lines("\n\n"), Vec::<String>::new());
}

#[test]
fn read_content_lines_keeps_lines_of_spaces() {
    assert_eq!(read_content_lines(" \n/etc/a"), vec![" ", "/etc/a"]);
}

#[test]
fn read_content_lines_gives_the_same_with_and_without_a_blank_line() {
    assert_eq!(read_content_lines("/etc/a\n\n/etc/b"), read_content_lines("/etc/a\n/etc/b"));
    assert_eq!(read_content_lines("\n\n/etc/b"), read_content_lines("\n/etc/b"));
    assert_eq!(read_content_lines("/etc/a\n\n"), read_content_lines("/etc/a\n"));
}

#[test]
fn read_record_gives_path_and_checksum() {
    assert_eq!(
        record("d41d8cd98f00b204e9800998ecf8427e  /etc/foo.conf"),
        Some(("/etc/foo.conf".to_string(), "d41d8cd98f00b204e9800998ecf8427e".to_string()))
    );
}

#[test]
fn read_record_allows_single_spaces_in_a_path() {
    assert_eq!(
        record("abc  /usr/share/my file.txt"),
        Some(("/usr/share/my file.txt".to_string(), "abc".to_string()))
    );
}

#[test]
fn read_record_allows_empty_fields() {
    assert_eq!(record("  /etc/foo.conf"), Some(("/etc/foo.conf".to_string(), "".to_string())));
    assert_eq!(record("abc  "), Some(("".to_string(), "abc".to_string())));
    assert_eq!(record("  "), Some(("".to_string(), "".to_string())));
}

#[test]
fn read_record_gives_the_third_space_to_the_path() {
    assert_eq!(record("abc   /etc/x"), Some((" /etc/x".to_string(), "abc".to_string())));
}

#[test]
fn read_record_refuses_a_line_without_the_delimiter() {
    assert_eq!(record("d41d8cd98f00b204e9800998ecf8427e /etc/foo.conf"), None);
    assert_eq!(record("/etc/foo.conf"), None);
    assert_eq!(record(" "), None);
    assert_eq!(record(""), None);
}

#[test]
fn read_record_refuses_a_line_of_three_fields() {
    assert_eq!(record("abc  /etc/foo  bar"), None);
    assert_eq!(record("abc    /etc/foo"), None);
}
