//! Tests of the version, file-name, URL and invocation compositions.

use pop_ci::apt::{
    dist_release_args, gpg_inrelease_args, gpg_release_args, packages_args, pool_path,
    release_file_contents, sources_args,
};
use pop_ci::config::{names_unique, ConfigDirs};
use pop_ci::errors::{DirError, FileError};
use pop_ci::dpkg::{changelog_rel_path, changelog_stamp, debuild_args, ppa_channels, sbuild_args};
use pop_ci::github::{next_page_needed, org_repos_path, page_url, repo_branches_path, status_url};
use pop_ci::runner::eval_status;
use pop_ci::text::{i64_to_dec, replace_slash_dash, u64_to_dec};
use pop_ci::version::{
    binary_log_name, compose_version, deb_name, dsc_name, extract_dir_name, join_path,
    path_version, source_log_name, tar_archive_name, tar_xz_name,
};
use pop_ci::git::{
    archive_args, checkout_args, clean_args, clone_args, datetime_args, fetch_args,
    local_branches_args, submodule_sync_args, submodule_update_args, timestamp_args,
};
use pop_ci::fetcher::clone_url;

#[test]
fn version_composition() {
    let v = compose_version("1:2.0.1", "1569931200", "19.10", "abc1234def5678");
    assert_eq!(v, "1:2.0.1~1569931200~19.10~abc1234");
    assert_eq!(path_version(&v), "2.0.1~1569931200~19.10~abc1234");
    // Without an epoch the version is its own path version.
    let v = compose_version("2.0.1", "1569931200", "19.10", "abc1234def5678");
    assert_eq!(path_version(&v), v);
    // Exactly seven commit characters are stamped.
    let v = compose_version("1", "2", "3", "abcdefg");
    assert_eq!(v, "1~2~3~abcdefg");
}

#[test]
fn artifact_names() {
    assert_eq!(tar_archive_name("abc123"), "abc123.tar");
    assert_eq!(dsc_name("shell", "2.0.1~x"), "shell_2.0.1~x.dsc");
    assert_eq!(tar_xz_name("shell", "2.0.1~x"), "shell_2.0.1~x.tar.xz");
    assert_eq!(source_log_name("shell", "2.0.1~x"), "shell_2.0.1~x_source.build");
    assert_eq!(binary_log_name("shell", "2.0.1~x", "amd64"), "shell_2.0.1~x_amd64.build");
    assert_eq!(deb_name("shell", "2.0.1~x", "amd64"), "shell_2.0.1~x_amd64.deb");
    assert_eq!(extract_dir_name("abc123", "focal"), "abc123_focal");
    assert_eq!(join_path("_build/git", "abc123.tar"), "_build/git/abc123.tar");
}

#[test]
fn directory_layout() {
    let dirs = ConfigDirs::derive("/srv/ci");
    assert_eq!(dirs.base, "/srv/ci");
    assert_eq!(dirs.build, "/srv/ci/_build");
    assert_eq!(dirs.binary, "/srv/ci/_build/binary");
    assert_eq!(dirs.git, "/srv/ci/_build/git");
    assert_eq!(dirs.repo, "/srv/ci/_build/repos");
    assert_eq!(dirs.source, "/srv/ci/_build/source");
}

#[test]
fn unique_names_check() {
    let names: Vec<String> = vec!["focal".to_string(), "jammy".to_string()];
    assert!(names_unique(&names));
    let dup: Vec<String> = vec!["focal".to_string(), "focal".to_string()];
    assert!(!names_unique(&dup));
}

#[test]
fn decimal_formatting() {
    assert_eq!(u64_to_dec(0), "0");
    assert_eq!(u64_to_dec(7), "7");
    assert_eq!(u64_to_dec(1569931200), "1569931200");
    assert_eq!(u64_to_dec(u64::MAX), "18446744073709551615");
    assert_eq!(i64_to_dec(-17), "-17");
    assert_eq!(i64_to_dec(139), "139");
    assert_eq!(i64_to_dec(-i64::MAX), "-9223372036854775807");
}

#[test]
fn error_messages() {
    assert_eq!(
        DirError::Create { dir: "_build/git".to_string() }.message(),
        "unable to create directory _build/git"
    );
    assert_eq!(
        DirError::Remove { dir: "_build/repos".to_string() }.message(),
        "unable to remove _build/repos"
    );
    assert_eq!(
        FileError::CreateFile { file: "Release".to_string() }.message(),
        "unable to create file Release"
    );
    assert_eq!(
        FileError::WriteFile { file: "Release".to_string() }.message(),
        "unable to write file Release"
    );
}

#[test]
fn runner_messages() {
    assert!(eval_status("git", true, None, None).is_ok());
    assert_eq!(
        eval_status("sbuild", false, Some(2), None).unwrap_err(),
        "sbuild exited with status of 2"
    );
    assert_eq!(
        eval_status("debuild", false, None, Some(9)).unwrap_err(),
        "debuild terminated with signal 9"
    );
    assert_eq!(eval_status("tar", false, None, None).unwrap_err(), "tar status is unknown");
}

#[test]
fn forge_urls() {
    assert_eq!(org_repos_path("pop-os"), "/orgs/pop-os/repos");
    assert_eq!(repo_branches_path("pop-os", "shell"), "/repos/pop-os/shell/branches");
    assert_eq!(
        page_url("/orgs/pop-os/repos", 1, 100, None),
        "https://api.github.com/orgs/pop-os/repos?page=1&per_page=100"
    );
    assert_eq!(
        page_url("/orgs/pop-os/repos", 12, 100, Some("tok")),
        "https://api.github.com/orgs/pop-os/repos?page=12&per_page=100&access_token=tok"
    );
    assert_eq!(
        status_url("pop-os", "shell", "abc", None),
        "https://api.github.com/repos/pop-os/shell/statuses/abc"
    );
    assert!(next_page_needed(100, 100));
    assert!(!next_page_needed(99, 100));
    assert_eq!(clone_url("pop-os", "shell"), "https://github.com/pop-os/shell");
}

#[test]
fn git_invocations() {
    assert_eq!(clone_args("https://github.com/pop-os/shell"), vec![
        "clone",
        "--recursive",
        "https://github.com/pop-os/shell"
    ]);
    assert_eq!(fetch_args("origin"), vec!["fetch", "origin"]);
    assert_eq!(checkout_args("abc"), vec!["checkout", "--force", "--detach", "abc"]);
    assert_eq!(submodule_sync_args(), vec!["submodule", "sync", "--recursive"]);
    assert_eq!(submodule_update_args(), vec!["submodule", "update", "--init", "--recursive"]);
    assert_eq!(clean_args(), vec!["clean", "-xfd"]);
    assert_eq!(archive_args("abc", "out.tar"), vec![
        "archive",
        "--format",
        "tar",
        "-o",
        "out.tar",
        "abc"
    ]);
    assert_eq!(datetime_args("abc"), vec!["log", "-1", "--pretty=format:%cD", "abc"]);
    assert_eq!(timestamp_args("abc"), vec!["log", "-1", "--pretty=format:%ct", "abc"]);
    assert_eq!(local_branches_args(), vec![
        "branch",
        "--format=%(refname:lstrip=2) %(objectname)"
    ]);
}

#[test]
fn build_tool_invocations() {
    let args = sbuild_args("focal", "amd64", true, false, "/srv/.ppa.asc", "/srv/s.dsc");
    assert_eq!(args[0], "--arch=amd64");
    assert_eq!(args[1], "--dist=focal");
    assert_eq!(
        args[2],
        "--extra-repository=deb http://us.archive.ubuntu.com/ubuntu/ focal-updates main restricted universe multiverse"
    );
    assert_eq!(
        args[5],
        "--extra-repository=deb-src http://us.archive.ubuntu.com/ubuntu/ focal-security main restricted universe multiverse"
    );
    assert_eq!(
        args[6],
        "--extra-repository=deb http://ppa.launchpad.net/system76/pop/ubuntu focal main"
    );
    assert_eq!(
        args[9],
        "--extra-repository=deb-src http://ppa.launchpad.net/system76/proposed/ubuntu focal main"
    );
    assert_eq!(args[10], "--extra-repository-key=/srv/.ppa.asc");
    assert_eq!(args[11], "--arch-all");
    assert_eq!(args[12], "/srv/s.dsc");
    assert_eq!(args.len(), 13);

    let args = sbuild_args("focal", "amd64", false, true, "k", "d");
    assert_eq!(
        args[6],
        "--extra-repository=deb http://ppa.launchpad.net/system76-dev/stable/ubuntu focal main"
    );
    assert_eq!(
        args[8],
        "--extra-repository=deb http://ppa.launchpad.net/system76-dev/pre-stable/ubuntu focal main"
    );
    assert_eq!(args.len(), 12);
    assert_eq!(args[11], "d");

    let (key, release, proposed) = ppa_channels(false);
    assert_eq!((key.as_str(), release.as_str(), proposed.as_str()), (
        ".ppa.asc",
        "system76/pop",
        "system76/proposed"
    ));
    let (key, release, proposed) = ppa_channels(true);
    assert_eq!((key.as_str(), release.as_str(), proposed.as_str()), (
        ".ppa-dev.asc",
        "system76-dev/stable",
        "system76-dev/pre-stable"
    ));

    assert_eq!(debuild_args("1569931200"), vec![
        "--preserve-envvar",
        "PATH",
        "--set-envvar",
        "SOURCE_DATE_EPOCH=1569931200",
        "--no-tgz-check",
        "-d",
        "-S",
        "--source-option=--tar-ignore=.git"
    ]);
}

#[test]
fn changelog_stamping() {
    let s = changelog_stamp(
        "Jane Dev",
        "jane@example.com",
        "shell",
        "2.0.1~x",
        "focal",
        "Tue, 01 Oct 2019 12:00:00 +0000",
    );
    assert_eq!(s.author, "Jane Dev");
    assert_eq!(s.email, "jane@example.com");
    assert_eq!(s.package, "shell");
    assert_eq!(s.version, "2.0.1~x");
    assert_eq!(s.distribution, "focal");
    assert_eq!(s.changes, "* Auto Build");
    assert_eq!(s.urgency, "medium");
    assert_eq!(s.date_rfc2822, "Tue, 01 Oct 2019 12:00:00 +0000");
    assert_eq!(changelog_rel_path("linux"), "debian.master/changelog");
    assert_eq!(changelog_rel_path("shell"), "debian/changelog");
}

#[test]
fn publisher_compositions() {
    assert_eq!(pool_path("focal"), "pool/focal");
    assert_eq!(
        release_file_contents("amd64", "pop-os", "Pop CI", "focal", "19.10", "master"),
        "Archive: focal\nVersion: 19.10\nComponent: main\nOrigin: pop-os-master\nLabel: Pop CI master\nArchitecture: amd64\n"
    );
    assert_eq!(replace_slash_dash("pop-os/ci"), "pop-os-ci");
    assert_eq!(sources_args("pool/focal"), vec!["-qq", "sources", "pool/focal"]);
    assert_eq!(packages_args("amd64", "pool/focal"), vec![
        "--arch",
        "amd64",
        "packages",
        "pool/focal"
    ]);
    let args = dist_release_args("pop-os", "Pop CI", "master", "focal", "19.10", "amd64 arm64");
    assert_eq!(args[1], "APT::FTPArchive::Release::Origin=pop-os-master");
    assert_eq!(args[3], "APT::FTPArchive::Release::Label=Pop CI master");
    assert_eq!(args[5], "APT::FTPArchive::Release::Suite=focal");
    assert_eq!(args[7], "APT::FTPArchive::Release::Version=19.10");
    assert_eq!(args[9], "APT::FTPArchive::Release::Codename=focal");
    assert_eq!(args[11], "APT::FTPArchive::Release::Architectures=amd64 arm64");
    assert_eq!(args[13], "APT::FTPArchive::Release::Components=main");
    assert_eq!(
        args[15],
        "APT::FTPArchive::Release::Description=Pop!_OS Staging focal 19.10 master"
    );
    assert_eq!(&args[16..], &["release".to_string(), ".".to_string()]);
    let args = gpg_inrelease_args("dists/focal", "jane@example.com");
    assert_eq!(args, vec![
        "--clearsign",
        "--local-user",
        "jane@example.com",
        "--batch",
        "--yes",
        "--digest-algo",
        "sha512",
        "-o",
        "dists/focal/InRelease",
        "dists/focal/Release"
    ]);
    let args = gpg_release_args("dists/focal", "jane@example.com");
    assert_eq!(args[0], "-abs");
    assert_eq!(args[8], "dists/focal/Release.gpg");
}
