//! The persistent failure blacklist: `<commit> <series>` lines, one per
//! source-build failure. A cell matching an entry is skipped. The file is
//! append-only during a run and truncated on a retry-mode startup or when
//! a malformed line is found.

use vstd::prelude::*;

use crate::text::{first_idx_of, index_of_char, is_space, lines, spec_lines, str_eq, str_views,
    substring};

verus! {

broadcast use crate::text::group_str_views;

/// What one blacklist line means: the commit id up to the first space,
/// the series after it.
pub open spec fn spec_entry_of_line(l: Seq<char>) -> (Seq<char>, Seq<char>) {
    let k = first_idx_of(l, ' ');
    (l.take(k as int), l.skip(k as int + 1))
}

/// Whether every line of the file holds a space, so each can be split
/// into a commit and a series.
pub open spec fn blacklist_well_formed(s: Seq<char>) -> bool {
    forall|i: int|
        0 <= i < spec_lines(s).len() ==> first_idx_of(#[trigger] spec_lines(s)[i], ' ')
            < spec_lines(s)[i].len()
}

/// Parses the blacklist file: one `(commit, series)` pair per line, split
/// at the line's first space. `None` when any line lacks one — the caller
/// then recreates the file empty.
pub fn parse_blacklist(content: &str) -> (r: Option<Vec<(String, String)>>)
    ensures
        r is Some <==> blacklist_well_formed(content@),
        r matches Some(v) ==> {
            &&& v@.len() == spec_lines(content@).len()
            &&& forall|i: int|
                0 <= i < v@.len() ==> ((#[trigger] v@[i]).0@, v@[i].1@) == spec_entry_of_line(
                    spec_lines(content@)[i],
                )
        },
{
    let ls = lines(content);
    let n = ls.len();
    let mut r: Vec<(String, String)> = Vec::new();
    let mut i: usize = 0;
    while i < n
        invariant
            i <= n == ls@.len(),
            str_views(ls@) == spec_lines(content@),
            r@.len() == i,
            forall|j: int|
                0 <= j < i ==> first_idx_of(#[trigger] spec_lines(content@)[j], ' ')
                    < spec_lines(content@)[j].len(),
            forall|j: int|
                0 <= j < i ==> ((#[trigger] r@[j]).0@, r@[j].1@) == spec_entry_of_line(
                    spec_lines(content@)[j],
                ),
        decreases n - i,
    {
        let line = ls[i].as_str();
        let llen = line.unicode_len();
        match index_of_char(line, ' ') {
            Some(k) => {
                let sha = substring(line, 0, k);
                let series = substring(line, k + 1, llen);
                proof {
                    assert(line@.take(k as int) =~= line@.subrange(0, k as int));
                    assert(line@.skip(k as int + 1) =~= line@.subrange(
                        k as int + 1,
                        line@.len() as int,
                    ));
                }
                r.push((sha, series));
            },
            None => {
                proof {
                    assert(line@ == spec_lines(content@)[i as int]);
                    assert(first_idx_of(spec_lines(content@)[i as int], ' ')
                        >= spec_lines(content@)[i as int].len());
                }
                return None;
            },
        }
        i = i + 1;
    }
    Some(r)
}

/// The line appended for one failure: `<commit> <series>` and a newline.
pub fn blacklist_line(sha: &str, series: &str) -> (r: String)
    ensures
        r@ == sha@ + " "@ + series@ + "\n"@,
{
    let mut r = sha.to_owned();
    r.append(" ");
    r.append(series);
    r.append("\n");
    proof {
        assert(r@ =~= sha@ + " "@ + series@ + "\n"@);
    }
    r
}

/// Whether `(sha, series)` is among the blacklist entries.
pub fn is_blacklisted(entries: &Vec<(String, String)>, sha: &str, series: &str) -> (r: bool)
    ensures
        r == exists|i: int|
            0 <= i < entries@.len() && (#[trigger] entries@[i]).0@ == sha@ && entries@[i].1@
                == series@,
{
    let n = entries.len();
    let mut i: usize = 0;
    while i < n
        invariant
            i <= n == entries@.len(),
            forall|j: int|
                0 <= j < i ==> !((#[trigger] entries@[j]).0@ == sha@ && entries@[j].1@
                    == series@),
        decreases n - i,
    {
        if str_eq(entries[i].0.as_str(), sha) && str_eq(entries[i].1.as_str(), series) {
            return true;
        }
        i = i + 1;
    }
    false
}

/// Whether startup begins with an empty blacklist: in retry mode, when
/// the file is absent, and when its content does not parse.
pub fn starts_empty(retry: bool, file_exists: bool, parse_ok: bool) -> (r: bool)
    ensures
        r == (retry || !file_exists || !parse_ok),
{
    retry || !file_exists || !parse_ok
}

/// A lowercase hex digit.
pub open spec fn is_hex_digit(c: char) -> bool {
    (('0' as u32) <= (c as u32) && (c as u32) <= ('9' as u32)) || (('a' as u32) <= (c as u32) && (
    c as u32) <= ('f' as u32))
}

/// One well-shaped blacklist line (without its newline): hex digits, one
/// space, then a series name free of whitespace.
pub open spec fn line_regular(l: Seq<char>) -> bool {
    exists|k: int|
        {
            &&& 0 < k < l.len() - 1
            &&& l[k] == ' '
            &&& (forall|j: int| 0 <= j < k ==> is_hex_digit(#[trigger] l[j]))
            &&& (forall|j: int| k < j < l.len() ==> !is_space(#[trigger] l[j]))
        }
}

/// What the writer appends keeps the file line-regular: for a hex commit
/// id and a series name free of whitespace, the appended line (before its
/// newline) is one commit, one space, one series.
pub proof fn lemma_blacklist_line_regular(sha: Seq<char>, series: Seq<char>)
    requires
        sha.len() > 0,
        series.len() > 0,
        forall|j: int| 0 <= j < sha.len() ==> is_hex_digit(#[trigger] sha[j]),
        forall|j: int| 0 <= j < series.len() ==> !is_space(#[trigger] series[j]),
    ensures
        line_regular(sha + " "@ + series),
{
    reveal_strlit(" ");
    let l = sha + " "@ + series;
    let k = sha.len() as int;
    assert(l[k] == ' ');
    assert(forall|j: int| 0 <= j < k ==> l[j] == sha[j]);
    assert(forall|j: int| k < j < l.len() ==> l[j] == series[j - k - 1]);
    assert(0 < k < l.len() - 1);
    assert(forall|j: int| 0 <= j < k ==> is_hex_digit(#[trigger] l[j]));
    assert(forall|j: int| k < j < l.len() ==> !is_space(#[trigger] l[j]));
}

} // verus!
