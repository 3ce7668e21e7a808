//! Tests of the control-data parsers and the deb enumeration.

use pop_ci::dpkg::expected_debs;
use pop_ci::dsc::{parse_dsc, parse_source_from_control};
use pop_ci::errors::ParseError;
use pop_ci::git::parse_local_heads;

const DSC: &str = "Format: 3.0 (native)\n\
Source: shell\n\
Binary: shell, shell-dbg\n\
Version: 1:2.0.1~1569931200~19.10~abc1234\n\
Package-List:\n shell deb misc optional arch=any\n shell-dbg deb debug optional arch=all\n shell-udeb udeb misc optional arch=any\n\
Checksums-Sha1:\n";

#[test]
fn dsc_fields_are_extracted() {
    let d = parse_dsc(DSC).unwrap();
    assert_eq!(d.source, "shell");
    assert_eq!(d.version, "1:2.0.1~1569931200~19.10~abc1234");
    assert_eq!(
        d.package_list,
        vec![
            " shell deb misc optional arch=any".to_string(),
            " shell-dbg deb debug optional arch=all".to_string(),
            " shell-udeb udeb misc optional arch=any".to_string(),
        ]
    );
}

#[test]
fn dsc_missing_fields_are_reported() {
    assert_eq!(
        parse_dsc("Version: 1\nPackage-List:\n a deb b c arch=any\n").unwrap_err(),
        ParseError::MissingSource
    );
    assert_eq!(
        parse_dsc("Source: shell\nPackage-List:\n a deb b c arch=any\n").unwrap_err(),
        ParseError::MissingVersion
    );
    assert_eq!(
        parse_dsc("Source: shell\nVersion: 1\n").unwrap_err(),
        ParseError::MissingPackageList
    );
}

#[test]
fn dsc_empty_package_list_is_allowed() {
    let d = parse_dsc("Source: shell\nVersion: 1\nPackage-List:\nFiles:\n").unwrap();
    assert!(d.package_list.is_empty());
}

#[test]
fn control_source_field() {
    let control = "Maintainer: Someone <someone@example.com>\nSource:  shell \nSection: misc\n";
    assert_eq!(parse_source_from_control(control).unwrap(), "shell");
    assert_eq!(
        parse_source_from_control("Binary: shell\n").unwrap_err(),
        ParseError::MissingSource
    );
}

#[test]
fn expected_debs_enumerates_architectures() {
    let list = vec![
        " shell deb misc optional arch=any".to_string(),
        " shell-data deb misc optional arch=all".to_string(),
        " shell-udeb udeb misc optional arch=any".to_string(),
    ];
    let debs = expected_debs(&list, "shell", "2.0.1~x", "amd64", true, "_build/binary").unwrap();
    assert_eq!(
        debs,
        vec![
            "_build/binary/shell_2.0.1~x_amd64.deb".to_string(),
            "_build/binary/shell-data_2.0.1~x_all.deb".to_string(),
        ]
    );

    // Without `build_all`, `all` entries are skipped.
    let debs = expected_debs(&list, "shell", "2.0.1~x", "amd64", false, "_build/binary").unwrap();
    assert_eq!(debs, vec!["_build/binary/shell_2.0.1~x_amd64.deb".to_string()]);
}

#[test]
fn expected_debs_multi_arch_entry() {
    let list = vec![" tool deb misc optional arch=amd64,arm64".to_string()];
    let debs = expected_debs(&list, "tool", "1~x", "amd64", false, "bin").unwrap();
    assert_eq!(debs, vec!["bin/tool_1~x_amd64.deb".to_string()]);
    let debs = expected_debs(&list, "tool", "1~x", "riscv64", false, "bin").unwrap();
    assert!(debs.is_empty());
}

#[test]
fn expected_debs_empty_list_is_empty() {
    let debs = expected_debs(&Vec::new(), "shell", "1~x", "amd64", true, "bin").unwrap();
    assert!(debs.is_empty());
}

#[test]
fn expected_debs_linux_and_systemd_filters() {
    let list = vec![
        " linux-image deb misc optional arch=any".to_string(),
        " linux-image-dbgsym deb debug optional arch=any".to_string(),
        " linux-udebs-generic deb misc optional arch=any".to_string(),
    ];
    let debs = expected_debs(&list, "linux", "5~x", "amd64", true, "bin").unwrap();
    assert_eq!(debs, vec!["bin/linux-image_5~x_amd64.deb".to_string()]);

    let list = vec![
        " systemd deb misc optional arch=any".to_string(),
        " systemd-boot-udeb deb misc optional arch=any".to_string(),
    ];
    let debs = expected_debs(&list, "systemd", "245~x", "amd64", true, "bin").unwrap();
    assert_eq!(debs, vec!["bin/systemd_245~x_amd64.deb".to_string()]);

    // The same names are kept for other repositories.
    let debs = expected_debs(
        &vec![" thing-dbgsym deb misc optional arch=any".to_string()],
        "shell",
        "1~x",
        "amd64",
        true,
        "bin",
    )
    .unwrap();
    assert_eq!(debs, vec!["bin/thing-dbgsym_1~x_amd64.deb".to_string()]);
}

#[test]
fn expected_debs_reports_short_entries() {
    assert_eq!(
        expected_debs(&vec![" lonely".to_string()], "s", "1", "amd64", true, "bin").unwrap_err(),
        ParseError::MissingKind
    );
    assert_eq!(
        expected_debs(&vec![" a deb misc optional".to_string()], "s", "1", "amd64", true, "bin")
            .unwrap_err(),
        ParseError::MissingArchitectures
    );
    // A udeb entry may be short: it is skipped before its architectures
    // are looked at.
    let debs = expected_debs(&vec![" a udeb".to_string()], "s", "1", "amd64", true, "bin")
        .unwrap();
    assert!(debs.is_empty());
}

#[test]
fn local_heads_parse() {
    let out = "master abc\nrelease def\n";
    let heads = parse_local_heads(out).unwrap();
    assert_eq!(heads.len(), 2);
    assert_eq!(heads[0].name, "master");
    assert_eq!(heads[0].sha, "abc");
    assert_eq!(heads[1].name, "release");
    assert_eq!(heads[1].sha, "def");
    assert!(parse_local_heads("master\n").is_none());
    assert!(parse_local_heads("").unwrap().is_empty());
}
