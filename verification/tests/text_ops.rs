//! Tests of the text helpers the parsers are built on.

use pop_ci::text::{
    after_last, contains_char, ends_with, fields, index_of_char, lines, split_char, starts_with,
    str_eq, str_leq, substring, trim,
};

#[test]
fn prefix_suffix_equality() {
    assert!(starts_with("Source: shell", "Source:"));
    assert!(!starts_with("Sour", "Source:"));
    assert!(ends_with("shell-dbgsym", "-dbgsym"));
    assert!(!ends_with("dbg", "-dbgsym"));
    assert!(str_eq("udeb", "udeb"));
    assert!(!str_eq("udeb", "deb"));
}

#[test]
fn splitting() {
    let parts = split_char("amd64,arm64,all", ',');
    assert_eq!(parts, vec!["amd64", "arm64", "all"]);
    assert_eq!(split_char("", ','), vec![""]);
    assert_eq!(split_char("a,,b", ','), vec!["a", "", "b"]);
}

#[test]
fn line_discipline() {
    assert_eq!(lines("a\nb\n"), vec!["a", "b"]);
    assert_eq!(lines("a\nb"), vec!["a", "b"]);
    assert_eq!(lines(""), Vec::<String>::new());
    assert_eq!(lines("\n"), vec![""]);
    assert_eq!(lines("a\n\nb"), vec!["a", "", "b"]);
}

#[test]
fn whitespace_fields() {
    assert_eq!(fields("  a  deb\tmisc "), vec!["a", "deb", "misc"]);
    assert_eq!(fields("   "), Vec::<String>::new());
    assert_eq!(fields(""), Vec::<String>::new());
}

#[test]
fn trimming() {
    assert_eq!(trim("  shell \n"), "shell");
    assert_eq!(trim("shell"), "shell");
    assert_eq!(trim(" \t "), "");
}

#[test]
fn searching() {
    assert!(contains_char("experiments/x", '/'));
    assert!(!contains_char("release", '/'));
    assert_eq!(index_of_char("a b c", ' '), Some(1));
    assert_eq!(index_of_char("abc", ' '), None);
    assert_eq!(after_last("1:2.0.1~x", ':'), "2.0.1~x");
    assert_eq!(after_last("2.0.1~x", ':'), "2.0.1~x");
    assert_eq!(after_last("a:b:c", ':'), "c");
    assert_eq!(substring("abcdef", 1, 4), "bcd");
}

#[test]
fn lexicographic_order() {
    assert!(str_leq("master", "release"));
    assert!(!str_leq("release", "master"));
    assert!(str_leq("master", "master"));
    assert!(str_leq("master", "master_focal"));
}
