//! Reconciling remote branch state with the local working tree: which
//! repositories take part, which remote branches are kept, which of them
//! require a checkout, and the order branches are handed on in.

use vstd::prelude::*;

use crate::config::ConfigOrganization;
use crate::github;
use crate::text::{contains_char, lemma_lex_leq_refl, lemma_lex_leq_total, lemma_lex_leq_trans,
    lex_leq, str_eq, str_leq, views_of};
use vstd::multiset::Multiset;

verus! {

broadcast use {vstd::seq_lib::group_to_multiset_ensures, vstd::multiset::group_multiset_axioms};

/// A branch after reconciliation: its remote head, and whether the local
/// tree had to be brought up to it.
#[derive(Debug, Clone)]
pub struct Branch {
    pub name: String,
    pub sha: String,
    pub required_checkout: bool,
}

/// The mathematical value of a `Branch`.
pub ghost struct BranchView {
    pub name: Seq<char>,
    pub sha: Seq<char>,
    pub required_checkout: bool,
}

impl View for Branch {
    type V = BranchView;

    open spec fn view(&self) -> BranchView {
        BranchView { name: self.name@, sha: self.sha@, required_checkout: self.required_checkout }
    }
}

/// A repository after fetching: its working tree and its branches, sorted
/// by name.
#[derive(Debug)]
pub struct Repository {
    pub name: String,
    pub directory: String,
    pub branches: Vec<Branch>,
}

/// One local branch head, as the version-control tool reports it.
#[derive(Debug)]
pub struct LocalHead {
    pub name: String,
    pub sha: String,
}

impl View for LocalHead {
    type V = (Seq<char>, Seq<char>);

    open spec fn view(&self) -> (Seq<char>, Seq<char>) {
        (self.name@, self.sha@)
    }
}

/// Whether a remote branch takes part in builds: namespaced branches —
/// those whose names contain `/` — are dropped at the fetch stage.
pub open spec fn spec_keep_branch(b: (Seq<char>, Seq<char>)) -> bool {
    !b.0.contains('/')
}

/// The remote branches kept for building, in remote order.
pub open spec fn spec_without_namespaced(s: Seq<(Seq<char>, Seq<char>)>) -> Seq<
    (Seq<char>, Seq<char>),
>
    decreases s.len(),
{
    if s.len() == 0 {
        s
    } else if spec_keep_branch(s[0]) {
        seq![s[0]] + spec_without_namespaced(s.drop_first())
    } else {
        spec_without_namespaced(s.drop_first())
    }
}

/// Drops remote branches whose names contain `/`.
pub fn filter_namespaced(remote: &Vec<github::Branch>) -> (r: Vec<github::Branch>)
    ensures
        views_of(r@) == spec_without_namespaced(views_of(remote@)),
{
    let n = remote.len();
    let mut r: Vec<github::Branch> = Vec::new();
    let mut i: usize = 0;
    proof {
        assert(views_of(remote@).skip(0) =~= views_of(remote@));
        assert(views_of(r@) + spec_without_namespaced(views_of(remote@)) =~= spec_without_namespaced(
            views_of(remote@),
        ));
    }
    while i < n
        invariant
            i <= n == remote@.len(),
            spec_without_namespaced(views_of(remote@)) == views_of(r@) + spec_without_namespaced(
                views_of(remote@).skip(i as int),
            ),
        decreases n - i,
    {
        let b = &remote[i];
        proof {
            assert(views_of(remote@).skip(i as int).drop_first() =~= views_of(remote@).skip(
                i as int + 1,
            ));
            assert(views_of(remote@).skip(i as int)[0] == b@);
        }
        if !contains_char(b.name.as_str(), '/') {
            let d = b.duplicate();
            proof {
                assert(views_of(r@.push(d)) =~= views_of(r@) + seq![b@]);
                assert(views_of(r@) + (seq![b@] + spec_without_namespaced(
                    views_of(remote@).skip(i as int + 1),
                )) =~= views_of(r@.push(d)) + spec_without_namespaced(
                    views_of(remote@).skip(i as int + 1),
                ));
            }
            r.push(d);
        }
        i = i + 1;
    }
    proof {
        assert(views_of(remote@).skip(n as int) =~= Seq::<(Seq<char>, Seq<char>)>::empty());
        assert(views_of(r@) + spec_without_namespaced(
            Seq::<(Seq<char>, Seq<char>)>::empty(),
        ) =~= views_of(r@));
    }
    r
}

/// The local head for `name`, if the working tree has that branch.
pub open spec fn local_lookup(locals: Seq<(Seq<char>, Seq<char>)>, name: Seq<char>) -> Option<
    Seq<char>,
>
    decreases locals.len(),
{
    if locals.len() == 0 {
        None
    } else if locals[0].0 == name {
        Some(locals[0].1)
    } else {
        local_lookup(locals.drop_first(), name)
    }
}

proof fn lemma_local_lookup_is(locals: Seq<(Seq<char>, Seq<char>)>, name: Seq<char>, k: nat)
    requires
        k <= locals.len(),
        forall|j: int| 0 <= j < k ==> locals[j].0 != name,
        k < locals.len() ==> locals[k as int].0 == name,
    ensures
        local_lookup(locals, name) == if k < locals.len() {
            Some(locals[k as int].1)
        } else {
            Option::<Seq<char>>::None
        },
    decreases locals.len(),
{
    if locals.len() > 0 && locals[0].0 != name {
        lemma_local_lookup_is(locals.drop_first(), name, (k - 1) as nat);
    }
}

/// A remote branch requires a checkout when the local tree lacks it or
/// holds a different commit for it.
pub open spec fn spec_requires_checkout(
    locals: Seq<(Seq<char>, Seq<char>)>,
    name: Seq<char>,
    sha: Seq<char>,
) -> bool {
    match local_lookup(locals, name) {
        None => true,
        Some(c) => c != sha,
    }
}

/// The local head for `name`, if any.
fn lookup_local(locals: &Vec<LocalHead>, name: &str) -> (r: Option<String>)
    ensures
        match r {
            Some(c) => local_lookup(views_of(locals@), name@) == Some(c@),
            None => local_lookup(views_of(locals@), name@) is None,
        },
{
    let n = locals.len();
    let mut i: usize = 0;
    while i < n
        invariant
            i <= n == locals@.len(),
            forall|j: int| 0 <= j < i ==> views_of(locals@)[j].0 != name@,
        decreases n - i,
    {
        if str_eq(locals[i].name.as_str(), name) {
            proof {
                lemma_local_lookup_is(views_of(locals@), name@, i as nat);
            }
            return Some(locals[i].sha.clone());
        }
        i = i + 1;
    }
    proof {
        lemma_local_lookup_is(views_of(locals@), name@, n as nat);
    }
    None
}

/// Decides, for each remote branch in remote order, whether it requires a
/// checkout: the local head is missing or differs from the remote head.
pub fn plan_checkouts(remote: &Vec<github::Branch>, locals: &Vec<LocalHead>) -> (r: Vec<Branch>)
    ensures
        r@.len() == remote@.len(),
        forall|i: int|
            0 <= i < r@.len() ==> {
                &&& (#[trigger] r@[i])@.name == remote@[i].name@
                &&& r@[i]@.sha == remote@[i].commit.sha@
                &&& r@[i]@.required_checkout == spec_requires_checkout(
                    views_of(locals@),
                    remote@[i].name@,
                    remote@[i].commit.sha@,
                )
            },
{
    let n = remote.len();
    let mut r: Vec<Branch> = Vec::new();
    let mut i: usize = 0;
    while i < n
        invariant
            i <= n == remote@.len(),
            r@.len() == i,
            forall|j: int|
                0 <= j < i ==> {
                    &&& (#[trigger] r@[j])@.name == remote@[j].name@
                    &&& r@[j]@.sha == remote@[j].commit.sha@
                    &&& r@[j]@.required_checkout == spec_requires_checkout(
                        views_of(locals@),
                        remote@[j].name@,
                        remote@[j].commit.sha@,
                    )
                },
        decreases n - i,
    {
        let b = &remote[i];
        let required_checkout = match lookup_local(locals, b.name.as_str()) {
            None => true,
            Some(c) => !str_eq(c.as_str(), b.commit.sha.as_str()),
        };
        r.push(
            Branch { name: b.name.clone(), sha: b.commit.sha.clone(), required_checkout },
        );
        i = i + 1;
    }
    r
}

/// Whether any branch of the plan requires a checkout — exactly then is a
/// single `fetch` of the remote performed first.
pub fn any_checkout_required(plan: &Vec<Branch>) -> (r: bool)
    ensures
        r == exists|i: int| 0 <= i < plan@.len() && plan@[i].required_checkout,
{
    let n = plan.len();
    let mut i: usize = 0;
    while i < n
        invariant
            i <= n == plan@.len(),
            forall|j: int| 0 <= j < i ==> !plan@[j].required_checkout,
        decreases n - i,
    {
        if plan[i].required_checkout {
            return true;
        }
        i = i + 1;
    }
    false
}

/// Sorted by branch name.
pub open spec fn branches_sorted(s: Seq<Branch>) -> bool {
    forall|i: int, j: int| 0 <= i < j < s.len() ==> lex_leq(s[i].name@, s[j].name@)
}

/// The branches reordered by name, ascending. The result holds exactly
/// the given branches.
pub fn sort_branches(branches: Vec<Branch>) -> (r: Vec<Branch>)
    ensures
        branches_sorted(r@),
        r@.to_multiset() == branches@.to_multiset(),
        r@.len() == branches@.len(),
{
    let mut rest = branches;
    let mut out: Vec<Branch> = Vec::new();
    let ghost orig = rest@;
    while rest.len() > 0
        invariant
            out@.to_multiset().add(rest@.to_multiset()) =~= orig.to_multiset(),
            out@.len() + rest@.len() == orig.len(),
            branches_sorted(out@),
            forall|i: int, j: int|
                0 <= i < out@.len() && 0 <= j < rest@.len() ==> lex_leq(
                    out@[i].name@,
                    rest@[j].name@,
                ),
        decreases rest@.len(),
    {
        let n = rest.len();
        let mut mi: usize = 0;
        let mut k: usize = 1;
        proof {
            lemma_lex_leq_refl(rest@[0].name@);
        }
        while k < n
            invariant
                mi < k <= n == rest@.len(),
                forall|j: int| 0 <= j < k ==> lex_leq(rest@[mi as int].name@, rest@[j].name@),
            decreases n - k,
        {
            if str_leq(rest[k].name.as_str(), rest[mi].name.as_str()) {
                proof {
                    assert forall|j: int| 0 <= j < k + 1 implies lex_leq(
                        rest@[k as int].name@,
                        rest@[j].name@,
                    ) by {
                        if j < k {
                            lemma_lex_leq_trans(
                                rest@[k as int].name@,
                                rest@[mi as int].name@,
                                rest@[j].name@,
                            );
                        } else {
                            lemma_lex_leq_refl(rest@[k as int].name@);
                        }
                    }
                }
                mi = k;
            } else {
                proof {
                    lemma_lex_leq_total(rest@[k as int].name@, rest@[mi as int].name@);
                }
            }
            k = k + 1;
        }
        let ghost rest0 = rest@;
        let b = rest.remove(mi);
        proof {
            assert(out@.push(b).to_multiset() =~= out@.to_multiset().insert(b));
            assert(rest@.to_multiset() =~= rest0.to_multiset().remove(b));
            assert(rest0.to_multiset().count(b) > 0);
            assert(out@.push(b).to_multiset().add(rest@.to_multiset()) =~= orig.to_multiset());
            assert forall|i: int, j: int|
                0 <= i < out@.push(b).len() && 0 <= j < rest@.len() implies lex_leq(
                out@.push(b)[i].name@,
                rest@[j].name@,
            ) by {
                let y = rest@[j];
                assert(rest0.contains(y) || y == b);
                if i < out@.len() {
                    if rest0.contains(y) {
                        let jj = choose|jj: int| 0 <= jj < rest0.len() && rest0[jj] == y;
                        assert(lex_leq(out@[i].name@, rest0[jj].name@));
                    }
                } else {
                    let jj = choose|jj: int| 0 <= jj < rest@.len() && rest@[jj] == y;
                    assert(exists|kk: int| 0 <= kk < rest0.len() && rest0[kk] == y);
                    let kk = choose|kk: int| 0 <= kk < rest0.len() && rest0[kk] == y;
                    assert(lex_leq(b.name@, rest0[kk].name@));
                }
            }
        }
        out.push(b);
    }
    proof {
        assert(rest@.to_multiset() =~= Multiset::<Branch>::empty());
        assert(out@.to_multiset() =~= orig.to_multiset());
    }
    out
}

/// Whether a repository takes part: a configured `starts_filter` is a
/// negative prefix — repositories whose names start with it are excluded,
/// and everything else is admitted.
pub fn repo_filter(org: &ConfigOrganization, repo_name: &str) -> (r: bool)
    ensures
        r == !(match org.starts_filter {
            Some(f) => f@.is_prefix_of(repo_name@),
            None => false,
        }),
{
    match &org.starts_filter {
        Some(f) => !crate::text::starts_with(repo_name, f.as_str()),
        None => true,
    }
}

/// The URL a repository is cloned from.
pub fn clone_url(org: &str, repo: &str) -> (r: String)
    ensures
        r@ == "https://github.com/"@ + org@ + "/"@ + repo@,
{
    let mut r = "https://github.com/".to_owned();
    r.append(org);
    r.append("/");
    r.append(repo);
    proof {
        assert(r@ =~= "https://github.com/"@ + org@ + "/"@ + repo@);
    }
    r
}

} // verus!
