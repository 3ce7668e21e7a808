//! The git driver's data and its invocation contract: the argument lists
//! handed to the version-control tool, and the parsing of what it prints.
//! Running the tool happens outside; checkouts in one working tree must
//! never overlap.

use vstd::prelude::*;

use crate::fetcher::LocalHead;
use crate::text::{fields, lines, spec_fields, spec_lines, starts_with, str_views, substring};

verus! {

broadcast use crate::text::group_str_views;

/// A commit's archive on disk, with the commit metadata the builders
/// stamp into packages.
#[derive(Clone, Debug)]
pub struct GitTar {
    /// The commit id, as hex text.
    pub id: String,
    /// The commit date, RFC-2822.
    pub datetime: String,
    /// Seconds since the epoch, as decimal text.
    pub timestamp: String,
    /// Path of the `.tar` holding the tree at this commit.
    pub archive: String,
}

/// The mathematical value of a `GitTar`.
pub ghost struct GitTarView {
    pub id: Seq<char>,
    pub datetime: Seq<char>,
    pub timestamp: Seq<char>,
    pub archive: Seq<char>,
}

impl View for GitTar {
    type V = GitTarView;

    open spec fn view(&self) -> GitTarView {
        GitTarView {
            id: self.id@,
            datetime: self.datetime@,
            timestamp: self.timestamp@,
            archive: self.archive@,
        }
    }
}

impl GitTar {
    /// A copy whose fields hold the same text.
    pub fn duplicate(&self) -> (r: GitTar)
        ensures
            r@ == self@,
    {
        GitTar {
            id: self.id.clone(),
            datetime: self.datetime.clone(),
            timestamp: self.timestamp.clone(),
            archive: self.archive.clone(),
        }
    }
}

/// `clone --recursive <url>`.
pub fn clone_args(url: &str) -> (r: Vec<String>)
    ensures
        str_views(r@) == seq!["clone"@, "--recursive"@, url@],
{
    let mut r: Vec<String> = Vec::new();
    r.push("clone".to_owned());
    r.push("--recursive".to_owned());
    r.push(url.to_owned());
    proof {
        assert(str_views(r@) =~= seq!["clone"@, "--recursive"@, url@]);
    }
    r
}

/// `fetch <remote>`.
pub fn fetch_args(remote: &str) -> (r: Vec<String>)
    ensures
        str_views(r@) == seq!["fetch"@, remote@],
{
    let mut r: Vec<String> = Vec::new();
    r.push("fetch".to_owned());
    r.push(remote.to_owned());
    proof {
        assert(str_views(r@) =~= seq!["fetch"@, remote@]);
    }
    r
}

/// `checkout --force --detach <id>`; submodule sync, submodule update and
/// a clean follow it, serially, in the same working tree.
pub fn checkout_args(id: &str) -> (r: Vec<String>)
    ensures
        str_views(r@) == seq!["checkout"@, "--force"@, "--detach"@, id@],
{
    let mut r: Vec<String> = Vec::new();
    r.push("checkout".to_owned());
    r.push("--force".to_owned());
    r.push("--detach".to_owned());
    r.push(id.to_owned());
    proof {
        assert(str_views(r@) =~= seq!["checkout"@, "--force"@, "--detach"@, id@]);
    }
    r
}

/// `submodule sync --recursive`.
pub fn submodule_sync_args() -> (r: Vec<String>)
    ensures
        str_views(r@) == seq!["submodule"@, "sync"@, "--recursive"@],
{
    let mut r: Vec<String> = Vec::new();
    r.push("submodule".to_owned());
    r.push("sync".to_owned());
    r.push("--recursive".to_owned());
    proof {
        assert(str_views(r@) =~= seq!["submodule"@, "sync"@, "--recursive"@]);
    }
    r
}

/// `submodule update --init --recursive`.
pub fn submodule_update_args() -> (r: Vec<String>)
    ensures
        str_views(r@) == seq!["submodule"@, "update"@, "--init"@, "--recursive"@],
{
    let mut r: Vec<String> = Vec::new();
    r.push("submodule".to_owned());
    r.push("update".to_owned());
    r.push("--init".to_owned());
    r.push("--recursive".to_owned());
    proof {
        assert(str_views(r@) =~= seq!["submodule"@, "update"@, "--init"@, "--recursive"@]);
    }
    r
}

/// `clean -xfd`.
pub fn clean_args() -> (r: Vec<String>)
    ensures
        str_views(r@) == seq!["clean"@, "-xfd"@],
{
    let mut r: Vec<String> = Vec::new();
    r.push("clean".to_owned());
    r.push("-xfd".to_owned());
    proof {
        assert(str_views(r@) =~= seq!["clean"@, "-xfd"@]);
    }
    r
}

/// `archive --format tar -o <out> <id>`: an uncompressed tarball of the
/// tree at that commit.
pub fn archive_args(id: &str, out: &str) -> (r: Vec<String>)
    ensures
        str_views(r@) == seq!["archive"@, "--format"@, "tar"@, "-o"@, out@, id@],
{
    let mut r: Vec<String> = Vec::new();
    r.push("archive".to_owned());
    r.push("--format".to_owned());
    r.push("tar".to_owned());
    r.push("-o".to_owned());
    r.push(out.to_owned());
    r.push(id.to_owned());
    proof {
        assert(str_views(r@) =~= seq!["archive"@, "--format"@, "tar"@, "-o"@, out@, id@]);
    }
    r
}

/// `log -1 --pretty=format:%cD <id>`: the commit date, RFC-2822.
pub fn datetime_args(id: &str) -> (r: Vec<String>)
    ensures
        str_views(r@) == seq!["log"@, "-1"@, "--pretty=format:%cD"@, id@],
{
    let mut r: Vec<String> = Vec::new();
    r.push("log".to_owned());
    r.push("-1".to_owned());
    r.push("--pretty=format:%cD".to_owned());
    r.push(id.to_owned());
    proof {
        assert(str_views(r@) =~= seq!["log"@, "-1"@, "--pretty=format:%cD"@, id@]);
    }
    r
}

/// `log -1 --pretty=format:%ct <id>`: the commit's UNIX timestamp.
pub fn timestamp_args(id: &str) -> (r: Vec<String>)
    ensures
        str_views(r@) == seq!["log"@, "-1"@, "--pretty=format:%ct"@, id@],
{
    let mut r: Vec<String> = Vec::new();
    r.push("log".to_owned());
    r.push("-1".to_owned());
    r.push("--pretty=format:%ct".to_owned());
    r.push(id.to_owned());
    proof {
        assert(str_views(r@) =~= seq!["log"@, "-1"@, "--pretty=format:%ct"@, id@]);
    }
    r
}

/// `branch --format=%(refname:lstrip=2) %(objectname)`: one line per
/// local branch, name then head commit.
pub fn local_branches_args() -> (r: Vec<String>)
    ensures
        str_views(r@) == seq!["branch"@, "--format=%(refname:lstrip=2) %(objectname)"@],
{
    let mut r: Vec<String> = Vec::new();
    r.push("branch".to_owned());
    r.push("--format=%(refname:lstrip=2) %(objectname)".to_owned());
    proof {
        assert(str_views(r@) =~= seq![
            "branch"@,
            "--format=%(refname:lstrip=2) %(objectname)"@,
        ]);
    }
    r
}

/// Whether every line of the tool's branch listing carries at least a
/// name and a commit.
pub open spec fn heads_well_formed(s: Seq<char>) -> bool {
    forall|i: int|
        0 <= i < spec_lines(s).len() ==> spec_fields(#[trigger] spec_lines(s)[i]).len() >= 2
}

/// Parses the branch listing into (name, head) pairs: the first two
/// whitespace-separated words of each line. `None` when a line lacks
/// them.
pub fn parse_local_heads(output: &str) -> (r: Option<Vec<LocalHead>>)
    ensures
        r is Some <==> heads_well_formed(output@),
        r matches Some(v) ==> {
            &&& v@.len() == spec_lines(output@).len()
            &&& forall|i: int|
                0 <= i < v@.len() ==> {
                    &&& (#[trigger] v@[i]).name@ == spec_fields(spec_lines(output@)[i])[0]
                    &&& v@[i].sha@ == spec_fields(spec_lines(output@)[i])[1]
                }
        },
{
    let ls = lines(output);
    let n = ls.len();
    let mut r: Vec<LocalHead> = Vec::new();
    let mut i: usize = 0;
    while i < n
        invariant
            i <= n == ls@.len(),
            str_views(ls@) == spec_lines(output@),
            r@.len() == i,
            forall|j: int| 0 <= j < i ==> spec_fields(spec_lines(output@)[j]).len() >= 2,
            forall|j: int|
                0 <= j < i ==> {
                    &&& (#[trigger] r@[j]).name@ == spec_fields(spec_lines(output@)[j])[0]
                    &&& r@[j].sha@ == spec_fields(spec_lines(output@)[j])[1]
                },
        decreases n - i,
    {
        let fs = fields(ls[i].as_str());
        if fs.len() < 2 {
            proof {
                assert(str_views(fs@).len() < 2);
                assert(spec_fields(spec_lines(output@)[i as int]).len() < 2);
            }
            return None;
        }
        proof {
            assert(str_views(fs@)[0] == spec_fields(spec_lines(output@)[i as int])[0]);
            assert(str_views(fs@)[1] == spec_fields(spec_lines(output@)[i as int])[1]);
        }
        let name = fs[0].clone();
        let sha = fs[1].clone();
        r.push(LocalHead { name, sha });
        i = i + 1;
    }
    Some(r)
}

/// `ls-remote --heads origin`: one line per remote head, commit id and
/// ref separated by a tab.
pub fn ls_remote_args() -> (r: Vec<String>)
    ensures
        str_views(r@) == seq!["ls-remote"@, "--heads"@, "origin"@],
{
    let mut r: Vec<String> = Vec::new();
    r.push("ls-remote".to_owned());
    r.push("--heads".to_owned());
    r.push("origin".to_owned());
    proof {
        assert(str_views(r@) =~= seq!["ls-remote"@, "--heads"@, "origin"@]);
    }
    r
}

/// What one `ls-remote --heads` line means: the commit id before the
/// first tab, and the branch name after the ref prefix.
pub open spec fn spec_ls_remote_line(l: Seq<char>) -> Option<(Seq<char>, Seq<char>)> {
    let k = crate::text::first_idx_of(l, '\t');
    if k >= l.len() {
        None
    } else {
        let rest = l.skip(k as int + 1);
        if "refs/heads/"@.is_prefix_of(rest) {
            Some((l.take(k as int), rest.skip("refs/heads/"@.len() as int)))
        } else {
            None
        }
    }
}

/// Parses the remote head listing into (commit, branch) pairs, in the
/// tool's order. `None` when a line lacks its tab or its ref prefix.
#[verifier::loop_isolation(false)]
pub fn parse_ls_remote(output: &str) -> (r: Option<Vec<(String, String)>>)
    ensures
        r is Some <==> (forall|i: int|
            0 <= i < spec_lines(output@).len() ==> spec_ls_remote_line(
                #[trigger] spec_lines(output@)[i],
            ) is Some),
        r matches Some(v) ==> {
            &&& v@.len() == spec_lines(output@).len()
            &&& forall|i: int|
                0 <= i < v@.len() ==> Some(((#[trigger] v@[i]).0@, v@[i].1@))
                    == spec_ls_remote_line(spec_lines(output@)[i])
        },
{
    proof {
        reveal_strlit("refs/heads/");
    }
    let ls = lines(output);
    let n = ls.len();
    let mut r: Vec<(String, String)> = Vec::new();
    let mut i: usize = 0;
    while i < n
        invariant
            i <= n == ls@.len(),
            str_views(ls@) == spec_lines(output@),
            r@.len() == i,
            forall|j: int|
                0 <= j < i ==> spec_ls_remote_line(#[trigger] spec_lines(output@)[j]) is Some,
            forall|j: int|
                0 <= j < i ==> Some(((#[trigger] r@[j]).0@, r@[j].1@)) == spec_ls_remote_line(
                    spec_lines(output@)[j],
                ),
        decreases n - i,
    {
        let line = ls[i].as_str();
        let llen = line.unicode_len();
        match crate::text::index_of_char(line, '\t') {
            Some(k) => {
                let id = substring(line, 0, k);
                let raw = substring(line, k + 1, llen);
                proof {
                    assert(raw@ =~= line@.skip(k as int + 1));
                }
                if !starts_with(raw.as_str(), "refs/heads/") {
                    proof {
                        assert(line@ == spec_lines(output@)[i as int]);
                        assert(spec_ls_remote_line(spec_lines(output@)[i as int]) is None);
                    }
                    return None;
                }
                let branch = substring(raw.as_str(), 11, raw.as_str().unicode_len());
                proof {
                    assert(branch@ =~= raw@.skip(11));
                    assert(line@.take(k as int) =~= id@);
                }
                r.push((id, branch));
            },
            None => {
                proof {
                    assert(line@ == spec_lines(output@)[i as int]);
                }
                return None;
            },
        }
        i = i + 1;
    }
    Some(r)
}

} // verus!
