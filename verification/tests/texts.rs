use ulatencyd::path::{file_extension, join_path, parent_path, path_components, same_path};
use ulatencyd::text::{
    after_prefix, append_left, append_right, drop_suffix, format_i64, format_u64, has_prefix,
    has_substring, has_suffix, join_with, parse_i32, parse_i8, parse_u32, parse_unsigned,
    same_text_ignoring_case, split_at_char, split_at_first, split_lines, split_words, trimmed,
    trimmed_nul, Space,
};

#[test]
fn numbers_are_written_and_read_back() {
    for n in [0u64, 1, 9, 10, 42, 4294967295, 18446744073709551615] {
        assert_eq!(format_u64(n), n.to_string());
        assert_eq!(parse_unsigned(&format_u64(n), u64::MAX), Some(n));
    }
    assert_eq!(format_i64(-1000), "-1000");
    assert_eq!(format_i64(i64::MIN), i64::MIN.to_string());
}

#[test]
fn numbers_are_read_as_std_reads_them() {
    for s in [
        "", "+", "-", "+5", "-5", "5", "05", " 5", "5 ", "4294967295", "4294967296", "127", "128",
        "-128", "-129", "+-5", "5x", "2147483647", "2147483648", "-2147483648", "-2147483649",
    ] {
        assert_eq!(parse_u32(s), s.parse::<u32>().ok(), "{:?}", s);
        assert_eq!(parse_i8(s), s.parse::<i8>().ok(), "{:?}", s);
        assert_eq!(parse_i32(s), s.parse::<i32>().ok(), "{:?}", s);
    }
}

#[test]
fn searching_agrees_with_std() {
    for s in ["", "a", "abc", "ababc", "aaab"] {
        for p in ["", "a", "ab", "abc", "bc", "aab"] {
            assert_eq!(has_prefix(s, p), s.starts_with(p));
            assert_eq!(has_suffix(s, p), s.ends_with(p));
            assert_eq!(has_substring(s, p), s.contains(p));
            assert_eq!(after_prefix(s, p).as_deref(), s.strip_prefix(p));
            assert_eq!(drop_suffix(s, p), s.strip_suffix(p).unwrap_or(s));
        }
    }
    assert!(same_text_ignoring_case("DisCharging", "discharging"));
    assert!(!same_text_ignoring_case("discharged", "discharging"));
}

#[test]
fn splitting_agrees_with_std() {
    for s in ["", "a", "a\n", "a\r\nb", "\n\n", "a b\tc", "  x  y ", "a\u{a0}b\u{2003}c", "a:b::c:"] {
        let lines: Vec<&str> = s.lines().collect();
        assert_eq!(split_lines(s), lines);
        let words: Vec<&str> = s.split_whitespace().collect();
        assert_eq!(split_words(s, Space::Unicode), words);
        let ascii: Vec<&str> = s.split_ascii_whitespace().collect();
        assert_eq!(split_words(s, Space::Ascii), ascii);
        let parts: Vec<&str> = s.split(':').collect();
        assert_eq!(split_at_char(s, ':'), parts);
        assert_eq!(trimmed(s), s.trim());
        assert_eq!(join_with(&split_at_char(s, ':'), ", "), parts.join(", "));
    }
    assert_eq!(trimmed_nul("abc\0\0"), "abc");
    assert_eq!(split_at_first("A=b=c", '='), ("A".to_string(), "b=c".to_string()));
    assert_eq!(split_at_first("A", '='), ("A".to_string(), "".to_string()));
}

#[test]
fn columns_agree_with_std() {
    let mut o = String::new();
    append_left(&mut o, "PID", 8);
    append_right(&mut o, "42", 6, '0');
    append_left(&mut o, "too long for it", 3);
    assert_eq!(o, format!("{:<8}{:06}{:<3}", "PID", 42, "too long for it"));
}

#[test]
fn paths_agree_with_std() {
    let all = [
        "", "/", "//", ".", "..", "/.", "./.", "a", "a/", "a/b", "/a", "//a", "a//b", "a/./b",
        "./b", "a/..", "a/b/.", "/run/ulatencyd/control.sock", "/a/./", "a/.b",
    ];
    for s in all {
        let std_parent = std::path::Path::new(s).parent().map(|p| p.to_str().unwrap().to_string());
        assert_eq!(parent_path(s), std_parent, "parent of {:?}", s);
        for t in all {
            assert_eq!(
                same_path(s, t),
                std::path::Path::new(s) == std::path::Path::new(t),
                "{:?} {:?}",
                s,
                t
            );
            assert_eq!(
                join_path(s, t),
                std::path::Path::new(s).join(t).to_str().unwrap(),
                "{:?} {:?}",
                s,
                t
            );
        }
    }
    for name in ["a.json", "a", ".json", "a.b.toml", "..", "a.", "..json", "."] {
        let ext = std::path::Path::new(name).extension().map(|e| e.to_str().unwrap().to_string());
        assert_eq!(file_extension(name), ext, "{:?}", name);
    }
    assert_eq!(path_components("/a//b/."), ["a", "b"]);
}
