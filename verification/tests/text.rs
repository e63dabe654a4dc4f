use spop::error::ProtocolError;
use spop::frames::version::{
    offers_version, parse_versions, select_version, versions_text, Version,
};
use spop::text::{join_chars, push_decimal, split_chars, str_eq, trim_chars};

fn chars(s: &str) -> Vec<char> {
    s.chars().collect()
}

#[test]
fn split_keeps_empty_pieces() {
    let pieces = |s: &str| -> Vec<String> {
        split_chars(&chars(s), ',')
            .into_iter()
            .map(|p| p.into_iter().collect())
            .collect()
    };
    assert_eq!(pieces(""), vec![""]);
    assert_eq!(pieces("a"), vec!["a"]);
    assert_eq!(pieces("a,b"), vec!["a", "b"]);
    assert_eq!(pieces("a,,b,"), vec!["a", "", "b", ""]);
    assert_eq!(pieces(","), vec!["", ""]);
    assert_eq!(pieces(" 2.0, 1.5 "), vec![" 2.0", " 1.5 "]);
}

#[test]
fn trim_removes_white_space_at_both_ends() {
    let trimmed = |s: &str| -> String { trim_chars(&chars(s)).iter().collect() };
    assert_eq!(trimmed(""), "");
    assert_eq!(trimmed("   "), "");
    assert_eq!(trimmed("a"), "a");
    assert_eq!(trimmed("  a b \t\n"), "a b");
    assert_eq!(trimmed("\u{a0}x\u{3000}"), "x");
    assert_eq!(trimmed("x y"), "x y");
}

#[test]
fn decimal_numerals() {
    let decimal = |n: u64| -> String {
        let mut out = vec!['#'];
        push_decimal(&mut out, n);
        out.into_iter().collect()
    };
    assert_eq!(decimal(0), "#0");
    assert_eq!(decimal(7), "#7");
    assert_eq!(decimal(10), "#10");
    assert_eq!(decimal(16380), "#16380");
    assert_eq!(decimal(u64::MAX), "#18446744073709551615");
}

#[test]
fn join_puts_the_separator_between() {
    let join = |parts: &[&str], sep: &str| -> String {
        let parts: Vec<Vec<char>> = parts.iter().map(|p| chars(p)).collect();
        join_chars(&parts, &chars(sep)).into_iter().collect()
    };
    assert_eq!(join(&[], ", "), "");
    assert_eq!(join(&["a"], ", "), "a");
    assert_eq!(join(&["a", "b", ""], ", "), "a, b, ");
    assert_eq!(join(&["", ""], "-"), "-");
}

#[test]
fn strings_are_compared_by_content() {
    assert!(str_eq("", ""));
    assert!(str_eq("pipelining", "pipelining"));
    assert!(!str_eq("pipelining", "pipelinin"));
    assert!(!str_eq("a", "b"));
    assert!(str_eq("é", "\u{e9}"));
    assert!(!str_eq("é", "e\u{301}"));
}

#[test]
fn versions_are_read_with_or_without_patch() {
    assert_eq!(
        parse_versions("2.0, 1.5"),
        Ok(vec![Version::new(2, 0, 0), Version::new(1, 5, 0)])
    );
    assert_eq!(parse_versions("2.0.3"), Ok(vec![Version::new(2, 0, 3)]));
    assert_eq!(
        parse_versions(" 10.20 ,3.4.5\t"),
        Ok(vec![Version::new(10, 20, 0), Version::new(3, 4, 5)])
    );
    assert_eq!(
        Version::parse(&chars("2.0")),
        Ok(Version::new(2, 0, 0))
    );
}

#[test]
fn bad_versions_are_reported_by_token() {
    assert_eq!(
        parse_versions(""),
        Err(ProtocolError::InvalidVersion("".to_string()))
    );
    assert_eq!(
        parse_versions("2"),
        Err(ProtocolError::InvalidVersion("2".to_string()))
    );
    assert_eq!(
        parse_versions("2.0, x.y ,1.0"),
        Err(ProtocolError::InvalidVersion("x.y".to_string()))
    );
    assert_eq!(
        parse_versions("2.0,"),
        Err(ProtocolError::InvalidVersion("".to_string()))
    );
    assert_eq!(
        parse_versions("2.01"),
        Err(ProtocolError::InvalidVersion("2.01".to_string()))
    );
    assert_eq!(
        parse_versions("1.2.3.4"),
        Err(ProtocolError::InvalidVersion("1.2.3.4".to_string()))
    );
}

#[test]
fn versions_are_written_as_major_minor() {
    assert_eq!(versions_text(&vec![]), "");
    assert_eq!(versions_text(&vec![Version::new(2, 0, 9)]), "2.0");
    assert_eq!(
        versions_text(&vec![Version::new(2, 0, 0), Version::new(1, 15, 0)]),
        "2.0, 1.15"
    );
    let text: String = Version::new(12, 345, 6).to_text().into_iter().collect();
    assert_eq!(text, "12.345");
}

#[test]
fn newest_common_version_is_selected() {
    let local = vec![Version::new(2, 0, 0), Version::new(1, 5, 0), Version::new(2, 1, 0)];
    assert_eq!(select_version(&vec![], &local), None);
    assert_eq!(select_version(&vec![Version::new(3, 0, 0)], &local), None);
    assert_eq!(
        select_version(&vec![Version::new(1, 5, 0), Version::new(3, 0, 0)], &local),
        Some((1, 5))
    );
    assert_eq!(
        select_version(
            &vec![
                Version::new(1, 5, 0),
                Version::new(2, 1, 7),
                Version::new(2, 0, 0),
                Version::new(9, 9, 9)
            ],
            &local
        ),
        Some((2, 1))
    );
    assert_eq!(select_version(&local, &vec![]), None);
    assert!(offers_version(&local, 1, 5));
    assert!(!offers_version(&local, 1, 4));
}
