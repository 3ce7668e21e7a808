//! The forge client's data shapes and its wire contract: the URLs it
//! queries, page by page, and when pagination stops. The transport itself
//! lives outside.

use vstd::prelude::*;

use crate::text::{spec_dec, u64_to_dec};

verus! {

/// A commit as the forge reports it.
#[derive(Debug)]
pub struct Commit {
    pub sha: String,
}

/// A branch as the forge reports it.
#[derive(Debug)]
pub struct Branch {
    pub name: String,
    pub commit: Commit,
}

impl View for Branch {
    type V = (Seq<char>, Seq<char>);

    /// A remote branch is its name and the commit it points at.
    open spec fn view(&self) -> (Seq<char>, Seq<char>) {
        (self.name@, self.commit.sha@)
    }
}

impl Branch {
    /// A copy whose fields hold the same text.
    pub fn duplicate(&self) -> (r: Branch)
        ensures
            r.name@ == self.name@,
            r.commit.sha@ == self.commit.sha@,
    {
        Branch { name: self.name.clone(), commit: Commit { sha: self.commit.sha.clone() } }
    }
}

/// A repository as the forge reports it; the push date is carried as the
/// wire's own text.
#[derive(Debug)]
pub struct Repo {
    pub name: String,
    pub url: String,
    pub pushed_at: String,
}

/// A commit status report.
#[derive(Debug)]
pub struct StatusContext {
    pub context: String,
    pub description: String,
    pub state: String,
    pub target_url: String,
}

/// The URL of one page of a paginated listing: the endpoint path under
/// the API host, the 1-based page, the page size, and the credential if
/// one is configured.
pub fn page_url(path: &str, page: u32, per_page: u32, token: Option<&str>) -> (r: String)
    ensures
        r@ == "https://api.github.com"@ + path@ + "?page="@ + spec_dec(page as nat)
            + "&per_page="@ + spec_dec(per_page as nat) + (match token {
            Some(t) => "&access_token="@ + t@,
            None => Seq::<char>::empty(),
        }),
{
    let mut r = "https://api.github.com".to_owned();
    r.append(path);
    r.append("?page=");
    let p = u64_to_dec(page as u64);
    r.append(p.as_str());
    r.append("&per_page=");
    let pp = u64_to_dec(per_page as u64);
    r.append(pp.as_str());
    if let Some(t) = token {
        r.append("&access_token=");
        r.append(t);
    }
    proof {
        assert(r@ =~= "https://api.github.com"@ + path@ + "?page="@ + spec_dec(page as nat)
            + "&per_page="@ + spec_dec(per_page as nat) + (match token {
            Some(t) => "&access_token="@ + t@,
            None => Seq::<char>::empty(),
        }));
    }
    r
}

/// The endpoint path listing an organization's repositories.
pub fn org_repos_path(org: &str) -> (r: String)
    ensures
        r@ == "/orgs/"@ + org@ + "/repos"@,
{
    let mut r = "/orgs/".to_owned();
    r.append(org);
    r.append("/repos");
    proof {
        assert(r@ =~= "/orgs/"@ + org@ + "/repos"@);
    }
    r
}

/// The endpoint path listing a repository's branches.
pub fn repo_branches_path(owner: &str, repo: &str) -> (r: String)
    ensures
        r@ == "/repos/"@ + owner@ + "/"@ + repo@ + "/branches"@,
{
    let mut r = "/repos/".to_owned();
    r.append(owner);
    r.append("/");
    r.append(repo);
    r.append("/branches");
    proof {
        assert(r@ =~= "/repos/"@ + owner@ + "/"@ + repo@ + "/branches"@);
    }
    r
}

/// The URL a commit status is posted to.
pub fn status_url(owner: &str, repo: &str, id: &str, token: Option<&str>) -> (r: String)
    ensures
        r@ == "https://api.github.com/repos/"@ + owner@ + "/"@ + repo@ + "/statuses/"@ + id@ + (
        match token {
            Some(t) => "&access_token="@ + t@,
            None => Seq::<char>::empty(),
        }),
{
    let mut r = "https://api.github.com/repos/".to_owned();
    r.append(owner);
    r.append("/");
    r.append(repo);
    r.append("/statuses/");
    r.append(id);
    if let Some(t) = token {
        r.append("&access_token=");
        r.append(t);
    }
    proof {
        assert(r@ =~= "https://api.github.com/repos/"@ + owner@ + "/"@ + repo@ + "/statuses/"@
            + id@ + (match token {
            Some(t) => "&access_token="@ + t@,
            None => Seq::<char>::empty(),
        }));
    }
    r
}

/// Pagination stops at the first page shorter than the page size: fetch
/// another page exactly when this one was full.
pub fn next_page_needed(found: usize, per_page: usize) -> (r: bool)
    ensures
        r == (found >= per_page),
{
    found >= per_page
}

} // verus!
