//! Scenario tests over the collation grid, the caching decisions and the
//! blacklist.

use pop_ci::blacklist::{blacklist_line, is_blacklisted, parse_blacklist, starts_empty};
use pop_ci::collate::{build_queue, parse_branch, SeriesQueue, TarredBranch};
use pop_ci::config::ConfigOrganization;
use pop_ci::dpkg::{binary_action, source_build_needed, BinaryAction};
use pop_ci::fetcher::{
    any_checkout_required, filter_namespaced, plan_checkouts, repo_filter, sort_branches, Branch,
    LocalHead,
};
use pop_ci::git::GitTar;
use pop_ci::github;
use pop_ci::version::tar_archive_name;

fn tar(sha: &str) -> GitTar {
    GitTar {
        id: sha.to_string(),
        datetime: "Tue, 01 Oct 2019 12:00:00 +0000".to_string(),
        timestamp: "1569931200".to_string(),
        archive: format!("_build/git/{}.tar", sha),
    }
}

fn tb(name: &str, sha: &str) -> TarredBranch {
    TarredBranch {
        name: name.to_string(),
        git: tar(sha),
    }
}

fn series(names: &[&str]) -> Vec<String> {
    names.iter().map(|s| s.to_string()).collect()
}

fn grid_lookup<'a>(g: &'a [SeriesQueue], codename: &str, pocket: &str) -> Option<&'a GitTar> {
    g.iter()
        .find(|sq| sq.codename == codename)
        .and_then(|sq| sq.pockets.iter().find(|p| p.pocket == pocket))
        .map(|p| &p.git)
}

#[test]
fn parse_branch_splits_on_first_underscore() {
    let (pocket, series) = parse_branch("master");
    assert_eq!(pocket, "master");
    assert_eq!(series, None);

    let (pocket, series) = parse_branch("master_focal");
    assert_eq!(pocket, "master");
    assert_eq!(series.as_deref(), Some("focal"));

    let (pocket, series) = parse_branch("a_b_c");
    assert_eq!(pocket, "a");
    assert_eq!(series.as_deref(), Some("b_c"));
}

#[test]
fn wildcard_fills_only_free_cells() {
    // A wildcard `master` beside `master_A` with series {A, B}: the pinned
    // branch holds A, the wildcard lands in B only.
    let names = series(&["seriesa", "seriesb"]);
    let branches = vec![tb("master", "1111111aaaa"), tb("master_seriesa", "2222222bbbb")];
    let g = build_queue(&names, &branches);
    assert_eq!(grid_lookup(&g, "seriesa", "master").unwrap().id, "2222222bbbb");
    assert_eq!(grid_lookup(&g, "seriesb", "master").unwrap().id, "1111111aaaa");

    // The same grid comes out with the branches the other way around.
    let branches = vec![tb("master_seriesa", "2222222bbbb"), tb("master", "1111111aaaa")];
    let g = build_queue(&names, &branches);
    assert_eq!(grid_lookup(&g, "seriesa", "master").unwrap().id, "2222222bbbb");
    assert_eq!(grid_lookup(&g, "seriesb", "master").unwrap().id, "1111111aaaa");
}

#[test]
fn single_wildcard_two_series() {
    // Repo `foo` with one branch `release` over {focal, jammy}: both
    // series get a `release` pocket holding the same commit.
    let names = series(&["focal", "jammy"]);
    let branches = vec![tb("release", "abc1234def")];
    let g = build_queue(&names, &branches);
    assert_eq!(g.len(), 2);
    assert_eq!(grid_lookup(&g, "focal", "release").unwrap().id, "abc1234def");
    assert_eq!(grid_lookup(&g, "jammy", "release").unwrap().id, "abc1234def");
}

#[test]
fn series_pinned_override() {
    // Branches `release` and `release_focal`: focal uses the pinned
    // commit, jammy the wildcard's.
    let names = series(&["focal", "jammy"]);
    let branches = vec![tb("release", "aaaaaaa1111"), tb("release_focal", "bbbbbbb2222")];
    let g = build_queue(&names, &branches);
    assert_eq!(grid_lookup(&g, "focal", "release").unwrap().id, "bbbbbbb2222");
    assert_eq!(grid_lookup(&g, "jammy", "release").unwrap().id, "aaaaaaa1111");

    // Two distinct commits name two distinct archive files; equal commits
    // share one.
    assert_ne!(tar_archive_name("aaaaaaa1111"), tar_archive_name("bbbbbbb2222"));
    assert_eq!(tar_archive_name("aaaaaaa1111"), tar_archive_name("aaaaaaa1111"));
}

#[test]
fn unconfigured_series_is_dropped() {
    let names = series(&["focal"]);
    let branches = vec![tb("release_bionic", "aaaaaaa1111")];
    let g = build_queue(&names, &branches);
    assert!(grid_lookup(&g, "focal", "release").is_none());
    assert!(g.iter().all(|sq| sq.codename != "bionic"));
}

#[test]
fn last_pinned_branch_wins() {
    let names = series(&["focal"]);
    let branches = vec![tb("release_focal", "aaaaaaa1111"), tb("release_focal", "bbbbbbb2222")];
    let g = build_queue(&names, &branches);
    assert_eq!(grid_lookup(&g, "focal", "release").unwrap().id, "bbbbbbb2222");
}

#[test]
fn blacklist_skip_is_per_series() {
    // Pre-seeded `<sha> focal`: the focal cell is skipped, jammy is not.
    let content = "abc1234def focal\n";
    let entries = parse_blacklist(content).unwrap();
    assert!(is_blacklisted(&entries, "abc1234def", "focal"));
    assert!(!is_blacklisted(&entries, "abc1234def", "jammy"));
    assert!(!is_blacklisted(&entries, "0000000abc", "focal"));
}

#[test]
fn idempotent_rerun_spawns_nothing() {
    // With both source artifacts present the source stage is skipped, and
    // with every deb present the binary stage reuses them.
    assert!(!source_build_needed(true, true));
    assert!(source_build_needed(false, true));
    assert!(source_build_needed(true, false));
    assert_eq!(binary_action(true, false), BinaryAction::Reuse);
    assert_eq!(binary_action(true, true), BinaryAction::Reuse);
    assert_eq!(binary_action(false, true), BinaryAction::SkipFailed);
    assert_eq!(binary_action(false, false), BinaryAction::Build);
}

#[test]
fn namespaced_branch_filtered() {
    let remote = vec![
        github::Branch {
            name: "release".to_string(),
            commit: github::Commit { sha: "aaa".to_string() },
        },
        github::Branch {
            name: "experiments/x".to_string(),
            commit: github::Commit { sha: "bbb".to_string() },
        },
    ];
    let kept = filter_namespaced(&remote);
    assert_eq!(kept.len(), 1);
    assert_eq!(kept[0].name, "release");
}

#[test]
fn retry_mode_truncates_blacklist() {
    // A pre-existing `aaa focal` entry is discarded on a retry startup,
    // so the cell builds again.
    let content = "aaa focal\n";
    assert!(parse_blacklist(content).is_some());
    assert!(starts_empty(true, true, true));
    let empty: Vec<(String, String)> = Vec::new();
    assert!(!is_blacklisted(&empty, "aaa", "focal"));

    // Without retry mode a readable, well-formed file is kept...
    assert!(!starts_empty(false, true, true));
    // ...but an absent or corrupt one starts empty.
    assert!(starts_empty(false, false, true));
    assert!(starts_empty(false, true, false));
}

#[test]
fn blacklist_lines_are_regular() {
    assert_eq!(blacklist_line("abc123", "focal"), "abc123 focal\n");
    let entries = parse_blacklist("abc123 focal").unwrap();
    assert_eq!(entries, vec![("abc123".to_string(), "focal".to_string())]);
    // A malformed line (no space) refuses the whole file.
    assert!(parse_blacklist("abc123 focal\ngarbage").is_none());
    // The split happens at the first space; trailing text stays with the
    // series field.
    let entries = parse_blacklist("abc focal  \n").unwrap();
    assert_eq!(entries[0].0, "abc");
    assert_eq!(entries[0].1, "focal  ");
    // An empty file is a well-formed empty blacklist.
    assert_eq!(parse_blacklist("").unwrap(), Vec::new());
}

#[test]
fn starts_filter_is_a_negative_prefix() {
    let org = ConfigOrganization {
        name: "example".to_string(),
        starts_filter: Some("infra-".to_string()),
    };
    assert!(!repo_filter(&org, "infra-anything"));
    assert!(repo_filter(&org, "shell"));
    assert!(repo_filter(&org, "my-infra-thing"));
    let open = ConfigOrganization { name: "example".to_string(), starts_filter: None };
    assert!(repo_filter(&open, "infra-anything"));
}

#[test]
fn checkout_planning_compares_local_heads() {
    let remote = vec![
        github::Branch {
            name: "master".to_string(),
            commit: github::Commit { sha: "new".to_string() },
        },
        github::Branch {
            name: "release".to_string(),
            commit: github::Commit { sha: "same".to_string() },
        },
        github::Branch {
            name: "extra".to_string(),
            commit: github::Commit { sha: "sha".to_string() },
        },
    ];
    let locals = vec![
        LocalHead { name: "master".to_string(), sha: "old".to_string() },
        LocalHead { name: "release".to_string(), sha: "same".to_string() },
    ];
    let plan = plan_checkouts(&remote, &locals);
    assert_eq!(plan.len(), 3);
    assert!(plan[0].required_checkout); // differing head
    assert!(!plan[1].required_checkout); // matching head
    assert!(plan[2].required_checkout); // absent locally
    assert!(any_checkout_required(&plan));

    let settled = vec![github::Branch {
        name: "release".to_string(),
        commit: github::Commit { sha: "same".to_string() },
    }];
    let quiet = plan_checkouts(&settled, &locals);
    assert!(!any_checkout_required(&quiet));
}

#[test]
fn branches_sort_by_name() {
    let mk = |name: &str| Branch {
        name: name.to_string(),
        sha: "s".to_string(),
        required_checkout: false,
    };
    let sorted = sort_branches(vec![mk("release"), mk("master"), mk("master_focal")]);
    let names: Vec<&str> = sorted.iter().map(|b| b.name.as_str()).collect();
    assert_eq!(names, vec!["master", "master_focal", "release"]);
}
