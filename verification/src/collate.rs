//! Collation of branches onto the series × pocket build grid.
//!
//! A branch named `pocket_series` fills that series' pocket, overwriting
//! whatever is there. A branch named `pocket` alone is a wildcard: it
//! fills that pocket in every configured series that does not already
//! have one. The grid is modelled as a map from series codename to a map
//! from pocket name to the commit archive built for it.

use vstd::prelude::*;

use crate::git::{GitTar, GitTarView};
use crate::text::{first_idx_of, index_of_char, str_eq, str_views, substring};

verus! {

broadcast use crate::text::group_str_views;

/// A branch together with the archive of its commit: what the collator
/// receives for each branch of a repository.
pub struct TarredBranch {
    pub name: String,
    pub git: GitTar,
}

impl View for TarredBranch {
    type V = (Seq<char>, GitTarView);

    open spec fn view(&self) -> (Seq<char>, GitTarView) {
        (self.name@, self.git@)
    }
}

/// One pocket of one series in the build grid.
pub struct PocketEntry {
    pub pocket: String,
    pub git: GitTar,
}

/// One series of the build grid.
pub struct SeriesQueue {
    pub codename: String,
    pub pockets: Vec<PocketEntry>,
}

/// The pocket map of one series.
pub open spec fn pockets_view(ps: Seq<PocketEntry>) -> Map<Seq<char>, GitTarView>
    decreases ps.len(),
{
    if ps.len() == 0 {
        Map::empty()
    } else {
        pockets_view(ps.drop_last()).insert(ps.last().pocket@, ps.last().git@)
    }
}

/// The grid as a map of maps.
pub open spec fn grid_view(g: Seq<SeriesQueue>) -> Map<Seq<char>, Map<Seq<char>, GitTarView>>
    decreases g.len(),
{
    if g.len() == 0 {
        Map::empty()
    } else {
        grid_view(g.drop_last()).insert(g.last().codename@, pockets_view(g.last().pockets@))
    }
}

/// No two entries name the same pocket.
pub open spec fn pockets_unique(ps: Seq<PocketEntry>) -> bool {
    forall|i: int, j: int| 0 <= i < j < ps.len() ==> ps[i].pocket@ != ps[j].pocket@
}

/// No two series share a codename, and each series' pockets are unique.
pub open spec fn grid_wf(g: Seq<SeriesQueue>) -> bool {
    &&& forall|i: int, j: int| 0 <= i < j < g.len() ==> g[i].codename@ != g[j].codename@
    &&& forall|i: int| 0 <= i < g.len() ==> pockets_unique(#[trigger] g[i].pockets@)
}

/// A branch name split at its first underscore: the pocket, and the
/// series suffix when there is one.
pub open spec fn spec_parse_branch(n: Seq<char>) -> (Seq<char>, Option<Seq<char>>) {
    let i = first_idx_of(n, '_');
    if i >= n.len() {
        (n, None)
    } else {
        (n.take(i as int), Some(n.skip(i as int + 1)))
    }
}

/// Splits a branch name into its pocket and optional series suffix.
pub fn parse_branch(name: &str) -> (r: (String, Option<String>))
    ensures
        (r.0@, match r.1 {
            Some(s) => Some(s@),
            None => None,
        }) == spec_parse_branch(name@),
{
    let len = name.unicode_len();
    match index_of_char(name, '_') {
        Some(i) => {
            let pocket = substring(name, 0, i);
            let series = substring(name, i + 1, len);
            proof {
                assert(name@.skip(i as int + 1) =~= name@.subrange(i as int + 1, name@.len() as int));
            }
            (pocket, Some(series))
        },
        None => {
            let pocket = substring(name, 0, len);
            proof {
                assert(name@.subrange(0, name@.len() as int) =~= name@);
            }
            (pocket, None)
        },
    }
}

/// A pocket map extended with `pocket` only where it is still free.
pub open spec fn pockets_or_insert(
    pm: Map<Seq<char>, GitTarView>,
    pocket: Seq<char>,
    tar: GitTarView,
) -> Map<Seq<char>, GitTarView> {
    if pm.dom().contains(pocket) {
        pm
    } else {
        pm.insert(pocket, tar)
    }
}

/// One branch folded into the grid. A series-pinned branch overwrites its
/// cell when the series is configured and is dropped otherwise; a
/// wildcard branch fills its pocket in every series where it is free.
pub open spec fn grid_insert(
    m: Map<Seq<char>, Map<Seq<char>, GitTarView>>,
    name: Seq<char>,
    tar: GitTarView,
) -> Map<Seq<char>, Map<Seq<char>, GitTarView>> {
    let (pocket, series) = spec_parse_branch(name);
    match series {
        Some(s) => if m.dom().contains(s) {
            m.insert(s, m[s].insert(pocket, tar))
        } else {
            m
        },
        None => Map::new(
            |k: Seq<char>| m.dom().contains(k),
            |k: Seq<char>| pockets_or_insert(m[k], pocket, tar),
        ),
    }
}

/// The grid with every configured series and no pockets.
pub open spec fn empty_grid(series: Seq<Seq<char>>) -> Map<
    Seq<char>,
    Map<Seq<char>, GitTarView>,
>
    decreases series.len(),
{
    if series.len() == 0 {
        Map::empty()
    } else {
        empty_grid(series.drop_last()).insert(series.last(), Map::empty())
    }
}

/// The whole build grid: the branches folded, in order, into the empty
/// grid over the configured series.
pub open spec fn spec_build_queue(
    series: Seq<Seq<char>>,
    branches: Seq<(Seq<char>, GitTarView)>,
) -> Map<Seq<char>, Map<Seq<char>, GitTarView>>
    decreases branches.len(),
{
    if branches.len() == 0 {
        empty_grid(series)
    } else {
        grid_insert(
            spec_build_queue(series, branches.drop_last()),
            branches.last().0,
            branches.last().1,
        )
    }
}

pub proof fn lemma_pockets_view_contains(ps: Seq<PocketEntry>, i: int)
    requires
        0 <= i < ps.len(),
    ensures
        pockets_view(ps).dom().contains(ps[i].pocket@),
    decreases ps.len(),
{
    if i < ps.len() - 1 {
        lemma_pockets_view_contains(ps.drop_last(), i);
    }
}

pub proof fn lemma_pockets_view_not_contains(ps: Seq<PocketEntry>, x: Seq<char>)
    requires
        forall|i: int| 0 <= i < ps.len() ==> ps[i].pocket@ != x,
    ensures
        !pockets_view(ps).dom().contains(x),
    decreases ps.len(),
{
    if ps.len() > 0 {
        lemma_pockets_view_not_contains(ps.drop_last(), x);
    }
}

pub proof fn lemma_pockets_view_push(ps: Seq<PocketEntry>, e: PocketEntry)
    ensures
        pockets_view(ps.push(e)) == pockets_view(ps).insert(e.pocket@, e.git@),
{
    assert(ps.push(e).drop_last() =~= ps);
}

pub proof fn lemma_pockets_view_update(ps: Seq<PocketEntry>, i: int, e: PocketEntry)
    requires
        pockets_unique(ps),
        0 <= i < ps.len(),
        e.pocket@ == ps[i].pocket@,
    ensures
        pockets_view(ps.update(i, e)) == pockets_view(ps).insert(e.pocket@, e.git@),
    decreases ps.len(),
{
    let u = ps.update(i, e);
    if i == ps.len() - 1 {
        assert(u.drop_last() =~= ps.drop_last());
        assert(pockets_view(u) =~= pockets_view(ps).insert(e.pocket@, e.git@));
    } else {
        assert(u.drop_last() =~= ps.drop_last().update(i, e));
        lemma_pockets_view_update(ps.drop_last(), i, e);
        assert(u.last() == ps.last());
        assert(pockets_view(u) == pockets_view(ps.drop_last()).insert(e.pocket@, e.git@).insert(
            ps.last().pocket@,
            ps.last().git@,
        ));
        assert(pockets_view(ps.drop_last()).insert(e.pocket@, e.git@).insert(
            ps.last().pocket@,
            ps.last().git@,
        ) =~= pockets_view(ps).insert(e.pocket@, e.git@));
    }
}

pub proof fn lemma_grid_view_contains(g: Seq<SeriesQueue>, i: int)
    requires
        0 <= i < g.len(),
    ensures
        grid_view(g).dom().contains(g[i].codename@),
    decreases g.len(),
{
    if i < g.len() - 1 {
        lemma_grid_view_contains(g.drop_last(), i);
    }
}

pub proof fn lemma_grid_view_not_contains(g: Seq<SeriesQueue>, x: Seq<char>)
    requires
        forall|i: int| 0 <= i < g.len() ==> g[i].codename@ != x,
    ensures
        !grid_view(g).dom().contains(x),
    decreases g.len(),
{
    if g.len() > 0 {
        lemma_grid_view_not_contains(g.drop_last(), x);
    }
}

pub proof fn lemma_grid_view_dom_index(g: Seq<SeriesQueue>, x: Seq<char>)
    requires
        grid_view(g).dom().contains(x),
    ensures
        exists|i: int| 0 <= i < g.len() && g[i].codename@ == x,
    decreases g.len(),
{
    if g.len() > 0 && g.last().codename@ != x {
        lemma_grid_view_dom_index(g.drop_last(), x);
        let i = choose|i: int|
            0 <= i < g.drop_last().len() && g.drop_last()[i].codename@ == x;
        assert(g[i].codename@ == x);
    }
}

pub proof fn lemma_grid_view_index(g: Seq<SeriesQueue>, i: int)
    requires
        forall|a: int, b: int| 0 <= a < b < g.len() ==> g[a].codename@ != g[b].codename@,
        0 <= i < g.len(),
    ensures
        grid_view(g).dom().contains(g[i].codename@),
        grid_view(g)[g[i].codename@] == pockets_view(g[i].pockets@),
    decreases g.len(),
{
    lemma_grid_view_contains(g, i);
    if i < g.len() - 1 {
        lemma_grid_view_index(g.drop_last(), i);
    }
}

pub proof fn lemma_grid_view_update(g: Seq<SeriesQueue>, i: int, sq: SeriesQueue)
    requires
        forall|a: int, b: int| 0 <= a < b < g.len() ==> g[a].codename@ != g[b].codename@,
        0 <= i < g.len(),
        sq.codename@ == g[i].codename@,
    ensures
        grid_view(g.update(i, sq)) == grid_view(g).insert(sq.codename@, pockets_view(sq.pockets@)),
    decreases g.len(),
{
    let u = g.update(i, sq);
    if i == g.len() - 1 {
        assert(u.drop_last() =~= g.drop_last());
        assert(grid_view(u) =~= grid_view(g).insert(sq.codename@, pockets_view(sq.pockets@)));
    } else {
        assert(u.drop_last() =~= g.drop_last().update(i, sq));
        lemma_grid_view_update(g.drop_last(), i, sq);
        assert(u.last() == g.last());
        assert(grid_view(u) == grid_view(g.drop_last()).insert(
            sq.codename@,
            pockets_view(sq.pockets@),
        ).insert(g.last().codename@, pockets_view(g.last().pockets@)));
        assert(grid_view(g.drop_last()).insert(sq.codename@, pockets_view(sq.pockets@)).insert(
            g.last().codename@,
            pockets_view(g.last().pockets@),
        ) =~= grid_view(g).insert(sq.codename@, pockets_view(sq.pockets@)));
    }
}

/// Index of the entry for `pocket`, if one exists.
fn find_pocket(ps: &Vec<PocketEntry>, pocket: &str) -> (r: Option<usize>)
    ensures
        match r {
            Some(i) => i < ps@.len() && ps@[i as int].pocket@ == pocket@,
            None => forall|i: int| 0 <= i < ps@.len() ==> ps@[i].pocket@ != pocket@,
        },
{
    let n = ps.len();
    let mut i: usize = 0;
    while i < n
        invariant
            i <= n == ps@.len(),
            forall|j: int| 0 <= j < i ==> ps@[j].pocket@ != pocket@,
        decreases n - i,
    {
        if str_eq(ps[i].pocket.as_str(), pocket) {
            return Some(i);
        }
        i = i + 1;
    }
    None
}

/// Index of the series named `codename`, if one is configured.
fn find_series(g: &Vec<SeriesQueue>, codename: &str) -> (r: Option<usize>)
    ensures
        match r {
            Some(i) => i < g@.len() && g@[i as int].codename@ == codename@,
            None => forall|i: int| 0 <= i < g@.len() ==> g@[i].codename@ != codename@,
        },
{
    let n = g.len();
    let mut i: usize = 0;
    while i < n
        invariant
            i <= n == g@.len(),
            forall|j: int| 0 <= j < i ==> g@[j].codename@ != codename@,
        decreases n - i,
    {
        if str_eq(g[i].codename.as_str(), codename) {
            return Some(i);
        }
        i = i + 1;
    }
    None
}

/// Writes `pocket` into one series' pocket list: overwriting its entry
/// for a series-pinned branch, keeping the existing entry for a wildcard.
fn upsert_pocket(ps: &mut Vec<PocketEntry>, pocket: &str, git: &GitTar, overwrite: bool)
    requires
        pockets_unique(old(ps)@),
    ensures
        pockets_unique(final(ps)@),
        overwrite ==> pockets_view(final(ps)@) == pockets_view(old(ps)@).insert(pocket@, git@),
        !overwrite ==> pockets_view(final(ps)@) == pockets_or_insert(
            pockets_view(old(ps)@),
            pocket@,
            git@,
        ),
{
    match find_pocket(ps, pocket) {
        Some(i) => {
            proof {
                lemma_pockets_view_contains(ps@, i as int);
            }
            if overwrite {
                let e = PocketEntry { pocket: ps[i].pocket.clone(), git: git.duplicate() };
                proof {
                    lemma_pockets_view_update(ps@, i as int, e);
                }
                ps[i] = e;
            }
        },
        None => {
            let e = PocketEntry { pocket: pocket.to_owned(), git: git.duplicate() };
            proof {
                lemma_pockets_view_not_contains(ps@, pocket@);
                lemma_pockets_view_push(ps@, e);
            }
            ps.push(e);
        },
    }
}

/// Collates the build queue: every configured series starts empty, and
/// the branches are folded in, in the order given. Branch order matters
/// only between branches naming the same cell, so callers hand branches
/// sorted by name to make ties deterministic.
#[verifier::loop_isolation(false)]
pub fn build_queue(series_names: &Vec<String>, branches: &Vec<TarredBranch>) -> (g: Vec<
    SeriesQueue,
>)
    requires
        forall|a: int, b: int|
            0 <= a < b < series_names@.len() ==> series_names@[a]@ != series_names@[b]@,
    ensures
        grid_view(g@) == spec_build_queue(
            str_views(series_names@),
            branches@.map_values(|b: TarredBranch| b@),
        ),
        grid_wf(g@),
        g@.len() == series_names@.len(),
        forall|i: int| 0 <= i < g@.len() ==> g@[i].codename@ == series_names@[i]@,
{
    let ghost sv = str_views(series_names@);
    let ghost bv = branches@.map_values(|b: TarredBranch| b@);
    let mut g: Vec<SeriesQueue> = Vec::new();
    let n = series_names.len();
    let mut i: usize = 0;
    while i < n
        invariant
            i <= n,
            g@.len() == i,
            forall|j: int| 0 <= j < i ==> g@[j].codename@ == series_names@[j]@,
            forall|j: int| 0 <= j < i ==> g@[j].pockets@.len() == 0,
            grid_view(g@) == empty_grid(sv.take(i as int)),
        decreases n - i,
    {
        let sq = SeriesQueue { codename: series_names[i].clone(), pockets: Vec::new() };
        proof {
            assert(g@.push(sq).drop_last() =~= g@);
            assert(sv.take(i as int + 1).drop_last() =~= sv.take(i as int));
            assert(sv.take(i as int + 1).last() == series_names@[i as int]@);
            assert(pockets_view(sq.pockets@) =~= Map::<Seq<char>, GitTarView>::empty());
        }
        g.push(sq);
        i = i + 1;
    }
    proof {
        assert(sv.take(n as int) =~= sv);
        assert(bv.take(0) =~= Seq::<(Seq<char>, GitTarView)>::empty());
        assert forall|j: int| 0 <= j < g@.len() implies pockets_unique(
            #[trigger] g@[j].pockets@,
        ) by {
            assert(g@[j].pockets@.len() == 0);
        }
        assert forall|a: int, b: int| 0 <= a < b < g@.len() implies g@[a].codename@
            != g@[b].codename@ by {
            assert(series_names@[a]@ != series_names@[b]@);
        }
        assert(grid_wf(g@));
    }
    let bn = branches.len();
    let mut bi: usize = 0;
    while bi < bn
        invariant
            bi <= bn,
            g@.len() == series_names@.len(),
            forall|j: int| 0 <= j < g@.len() ==> g@[j].codename@ == series_names@[j]@,
            grid_wf(g@),
            grid_view(g@) == spec_build_queue(sv, bv.take(bi as int)),
        decreases bn - bi,
    {
        let ghost m0 = grid_view(g@);
        let branch = &branches[bi];
        let (pocket, series_opt) = parse_branch(branch.name.as_str());
        proof {
            assert(bv.take(bi as int + 1).drop_last() =~= bv.take(bi as int));
            assert(bv.take(bi as int + 1).last() == bv[bi as int]);
            assert(bv[bi as int] == (branch.name@, branch.git@));
        }
        match series_opt {
            Some(series) => {
                match find_series(&g, series.as_str()) {
                    Some(idx) => {
                        let ghost gpre = g@;
                        proof {
                            lemma_grid_view_index(gpre, idx as int);
                        }
                        let mut sq = g.remove(idx);
                        upsert_pocket(&mut sq.pockets, pocket.as_str(), &branch.git, true);
                        proof {
                            assert(g@.insert(idx as int, sq) =~= gpre.update(idx as int, sq));
                            lemma_grid_view_update(gpre, idx as int, sq);
                        }
                        g.insert(idx, sq);
                    },
                    None => {
                        proof {
                            lemma_grid_view_not_contains(g@, series@);
                        }
                    },
                }
            },
            None => {
                let ghost g0 = g@;
                let mut idx: usize = 0;
                let gn = g.len();
                while idx < gn
                    invariant
                        idx <= gn,
                        g@.len() == gn == g0.len(),
                        forall|j: int| 0 <= j < g@.len() ==> g@[j].codename@ == g0[j].codename@,
                        grid_wf(g@),
                        forall|j: int|
                            idx <= j < g@.len() ==> g@[j] == g0[j],
                        forall|j: int|
                            0 <= j < idx ==> pockets_view(#[trigger] g@[j].pockets@)
                                == pockets_or_insert(
                                pockets_view(g0[j].pockets@),
                                pocket@,
                                branch.git@,
                            ),
                    decreases gn - idx,
                {
                    let ghost gpre = g@;
                    let mut sq = g.remove(idx);
                    upsert_pocket(&mut sq.pockets, pocket.as_str(), &branch.git, false);
                    proof {
                        assert(g@.insert(idx as int, sq) =~= gpre.update(idx as int, sq));
                    }
                    g.insert(idx, sq);
                    idx = idx + 1;
                }
                proof {
                    lemma_wildcard_applied(g0, g@, m0, pocket@, branch.git@);
                }
            },
        }
        bi = bi + 1;
    }
    proof {
        assert(bv.take(bn as int) =~= bv);
    }
    g
}

pub proof fn lemma_empty_grid_dom(series: Seq<Seq<char>>, k: Seq<char>)
    ensures
        empty_grid(series).dom().contains(k) <==> series.contains(k),
    decreases series.len(),
{
    if series.len() > 0 {
        lemma_empty_grid_dom(series.drop_last(), k);
        if series.last() == k {
            assert(series[series.len() - 1] == k);
        } else if series.drop_last().contains(k) {
            let i = choose|i: int| 0 <= i < series.drop_last().len() && series.drop_last()[i] == k;
            assert(series[i] == k);
        } else if series.contains(k) {
            let i = choose|i: int| 0 <= i < series.len() && series[i] == k;
            assert(series.drop_last()[i] == k);
        }
    }
}

pub proof fn lemma_empty_grid_index(series: Seq<Seq<char>>, k: Seq<char>)
    requires
        empty_grid(series).dom().contains(k),
    ensures
        empty_grid(series)[k] == Map::<Seq<char>, GitTarView>::empty(),
    decreases series.len(),
{
    if series.len() > 0 && series.last() != k {
        lemma_empty_grid_index(series.drop_last(), k);
    }
}

/// Folding branches never adds or removes a series: the grid's domain is
/// always exactly the configured series.
pub proof fn lemma_build_queue_dom(
    series: Seq<Seq<char>>,
    branches: Seq<(Seq<char>, GitTarView)>,
    k: Seq<char>,
)
    ensures
        spec_build_queue(series, branches).dom().contains(k) <==> series.contains(k),
    decreases branches.len(),
{
    if branches.len() == 0 {
        lemma_empty_grid_dom(series, k);
    } else {
        lemma_build_queue_dom(series, branches.drop_last(), k);
        let m = spec_build_queue(series, branches.drop_last());
        let b = branches.last();
        let pb = spec_parse_branch(b.0);
        if pb.1 is Some {
            let s = pb.1->0;
            if m.dom().contains(s) {
                lemma_build_queue_dom(series, branches.drop_last(), s);
            }
        }
    }
}

/// A cell that no branch names — neither pinned to this series nor as a
/// wildcard — stays empty.
pub proof fn lemma_no_pocket(
    series: Seq<Seq<char>>,
    branches: Seq<(Seq<char>, GitTarView)>,
    s: Seq<char>,
    p: Seq<char>,
)
    requires
        series.contains(s),
        forall|j: int|
            0 <= j < branches.len() ==> #[trigger] spec_parse_branch(branches[j].0) != (
            p,
            Some(s),
            ),
        forall|j: int|
            0 <= j < branches.len() ==> #[trigger] spec_parse_branch(branches[j].0) != (
            p,
            Option::<Seq<char>>::None,
            ),
    ensures
        !spec_build_queue(series, branches)[s].dom().contains(p),
    decreases branches.len(),
{
    lemma_build_queue_dom(series, branches, s);
    if branches.len() == 0 {
        lemma_empty_grid_dom(series, s);
        lemma_empty_grid_index(series, s);
    } else {
        lemma_no_pocket(series, branches.drop_last(), s, p);
        lemma_build_queue_dom(series, branches.drop_last(), s);
        let m = spec_build_queue(series, branches.drop_last());
        let b = branches.last();
        let pb = spec_parse_branch(b.0);
        assert(spec_parse_branch(branches[branches.len() - 1].0) == pb);
        if pb.1 is Some {
            let s2 = pb.1->0;
            if m.dom().contains(s2) && s2 == s {
                assert(pb.0 != p);
            }
        } else {
            assert(pb.0 != p);
        }
    }
}

/// A branch named `<pocket>_<series>` populates that series' pocket with
/// its commit — the last such branch wins, and no wildcard displaces it.
pub proof fn lemma_prefixed_branch(
    series: Seq<Seq<char>>,
    branches: Seq<(Seq<char>, GitTarView)>,
    i: int,
    p: Seq<char>,
    s: Seq<char>,
)
    requires
        0 <= i < branches.len(),
        spec_parse_branch(branches[i].0) == (p, Some(s)),
        series.contains(s),
        forall|j: int|
            i < j < branches.len() ==> #[trigger] spec_parse_branch(branches[j].0) != (
            p,
            Some(s),
            ),
    ensures
        spec_build_queue(series, branches).dom().contains(s),
        spec_build_queue(series, branches)[s].dom().contains(p),
        spec_build_queue(series, branches)[s][p] == branches[i].1,
    decreases branches.len(),
{
    lemma_build_queue_dom(series, branches, s);
    lemma_build_queue_dom(series, branches.drop_last(), s);
    let m = spec_build_queue(series, branches.drop_last());
    let b = branches.last();
    let pb = spec_parse_branch(b.0);
    if i == branches.len() - 1 {
        assert(pb == (p, Some(s)));
    } else {
        lemma_prefixed_branch(series, branches.drop_last(), i, p, s);
        assert(spec_parse_branch(branches[branches.len() - 1].0) == pb);
        if pb.1 is Some {
            let s2 = pb.1->0;
            if m.dom().contains(s2) && s2 == s {
                assert(pb.0 != p);
            }
        }
    }
}

/// A wildcard branch named `<pocket>` alone populates that pocket in
/// every configured series that no branch pins: the first such wildcard
/// wins, and later wildcards do not displace it.
pub proof fn lemma_wildcard_branch(
    series: Seq<Seq<char>>,
    branches: Seq<(Seq<char>, GitTarView)>,
    i: int,
    p: Seq<char>,
    s: Seq<char>,
)
    requires
        0 <= i < branches.len(),
        spec_parse_branch(branches[i].0) == (p, Option::<Seq<char>>::None),
        series.contains(s),
        forall|j: int|
            0 <= j < branches.len() ==> #[trigger] spec_parse_branch(branches[j].0) != (
            p,
            Some(s),
            ),
        forall|j: int|
            0 <= j < i ==> #[trigger] spec_parse_branch(branches[j].0) != (
            p,
            Option::<Seq<char>>::None,
            ),
    ensures
        spec_build_queue(series, branches).dom().contains(s),
        spec_build_queue(series, branches)[s].dom().contains(p),
        spec_build_queue(series, branches)[s][p] == branches[i].1,
    decreases branches.len(),
{
    lemma_build_queue_dom(series, branches, s);
    lemma_build_queue_dom(series, branches.drop_last(), s);
    let m = spec_build_queue(series, branches.drop_last());
    let b = branches.last();
    let pb = spec_parse_branch(b.0);
    assert(spec_parse_branch(branches[branches.len() - 1].0) == pb);
    if i == branches.len() - 1 {
        lemma_no_pocket(series, branches.drop_last(), s, p);
    } else {
        lemma_wildcard_branch(series, branches.drop_last(), i, p, s);
        if pb.1 is Some {
            let s2 = pb.1->0;
            if m.dom().contains(s2) && s2 == s {
                assert(pb.0 != p);
            }
        }
    }
}

/// After the wildcard pass, the grid view is exactly `grid_insert` of the
/// wildcard branch on the grid before the pass.
proof fn lemma_wildcard_applied(
    g0: Seq<SeriesQueue>,
    g1: Seq<SeriesQueue>,
    m0: Map<Seq<char>, Map<Seq<char>, GitTarView>>,
    pocket: Seq<char>,
    tar: GitTarView,
)
    requires
        g0.len() == g1.len(),
        forall|j: int| 0 <= j < g1.len() ==> g1[j].codename@ == g0[j].codename@,
        forall|a: int, b: int| 0 <= a < b < g0.len() ==> g0[a].codename@ != g0[b].codename@,
        grid_wf(g1),
        m0 == grid_view(g0),
        forall|j: int|
            0 <= j < g1.len() ==> pockets_view(#[trigger] g1[j].pockets@) == pockets_or_insert(
                pockets_view(g0[j].pockets@),
                pocket,
                tar,
            ),
    ensures
        grid_view(g1) == Map::new(
            |k: Seq<char>| m0.dom().contains(k),
            |k: Seq<char>| pockets_or_insert(m0[k], pocket, tar),
        ),
{
    let target = Map::new(
        |k: Seq<char>| m0.dom().contains(k),
        |k: Seq<char>| pockets_or_insert(m0[k], pocket, tar),
    );
    assert forall|k: Seq<char>| grid_view(g1).dom().contains(k) implies target.dom().contains(
        k,
    ) by {
        lemma_grid_view_dom_index(g1, k);
        let i = choose|i: int| 0 <= i < g1.len() && g1[i].codename@ == k;
        lemma_grid_view_contains(g0, i);
    }
    assert forall|k: Seq<char>| target.dom().contains(k) implies grid_view(g1).dom().contains(
        k,
    ) by {
        lemma_grid_view_dom_index(g0, k);
        let i = choose|i: int| 0 <= i < g0.len() && g0[i].codename@ == k;
        lemma_grid_view_contains(g1, i);
    }
    assert forall|k: Seq<char>| grid_view(g1).dom().contains(k) implies grid_view(g1)[k]
        == target[k] by {
        lemma_grid_view_dom_index(g1, k);
        let i = choose|i: int| 0 <= i < g1.len() && g1[i].codename@ == k;
        lemma_grid_view_index(g1, i);
        lemma_grid_view_index(g0, i);
    }
    assert(grid_view(g1) =~= target);
}

} // verus!
