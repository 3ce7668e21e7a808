//! Reading the Debian control data this pipeline consumes: the `Source:`
//! field of `debian/control`, and the `Source:`, `Version:` and
//! `Package-List:` fields of a `.dsc` file.

use vstd::prelude::*;

use crate::errors::ParseError;
use crate::text::{lines, spec_lines, spec_trim, starts_with, str_views, substring, trim};

verus! {

broadcast use crate::text::group_str_views;

/// Index of the first line carrying prefix `p`, or `lines.len()` if none
/// does.
pub open spec fn first_with_prefix(ls: Seq<Seq<char>>, p: Seq<char>) -> nat
    decreases ls.len(),
{
    if ls.len() == 0 {
        0
    } else if p.is_prefix_of(ls[0]) {
        0
    } else {
        1 + first_with_prefix(ls.drop_first(), p)
    }
}

pub proof fn lemma_first_with_prefix_is(ls: Seq<Seq<char>>, p: Seq<char>, k: nat)
    requires
        k <= ls.len(),
        forall|j: int| 0 <= j < k ==> !p.is_prefix_of(ls[j]),
        k < ls.len() ==> p.is_prefix_of(ls[k as int]),
    ensures
        first_with_prefix(ls, p) == k,
    decreases ls.len(),
{
    if ls.len() > 0 && !p.is_prefix_of(ls[0]) {
        lemma_first_with_prefix_is(ls.drop_first(), p, (k - 1) as nat);
    }
}

/// Whether the text has a line carrying prefix `p`.
pub open spec fn has_line_with_prefix(s: Seq<char>, p: Seq<char>) -> bool {
    first_with_prefix(spec_lines(s), p) < spec_lines(s).len()
}

/// The trimmed remainder of the first line carrying prefix `p`.
pub open spec fn line_field_value(s: Seq<char>, p: Seq<char>) -> Seq<char> {
    let ls = spec_lines(s);
    spec_trim(ls[first_with_prefix(ls, p) as int].skip(p.len() as int))
}

/// The source package name declared by `debian/control`: the trimmed
/// remainder of its first `Source:` line.
pub fn parse_source_from_control(control: &str) -> (r: Result<String, ParseError>)
    ensures
        r is Ok <==> has_line_with_prefix(control@, "Source:"@),
        r matches Ok(v) ==> v@ == line_field_value(control@, "Source:"@),
        r matches Err(e) ==> e == ParseError::MissingSource,
{
    find_field(control, "Source:").ok_or(ParseError::MissingSource)
}

/// The trimmed value of the first line of `s` carrying prefix `p`.
fn find_field(s: &str, p: &str) -> (r: Option<String>)
    ensures
        r is Some <==> has_line_with_prefix(s@, p@),
        r matches Some(v) ==> v@ == line_field_value(s@, p@),
{
    let ls = lines(s);
    let n = ls.len();
    let mut i: usize = 0;
    while i < n
        invariant
            i <= n,
            n == ls@.len(),
            str_views(ls@) == spec_lines(s@),
            forall|j: int| 0 <= j < i ==> !p@.is_prefix_of(str_views(ls@)[j]),
        decreases n - i,
    {
        let line = ls[i].as_str();
        if starts_with(line, p) {
            proof {
                lemma_first_with_prefix_is(spec_lines(s@), p@, i as nat);
            }
            let p_len = p.unicode_len();
            let raw = substring(line, p_len, line.unicode_len());
            let v = trim(raw.as_str());
            proof {
                assert(raw@ =~= line@.skip(p@.len() as int));
            }
            return Some(v);
        }
        i = i + 1;
    }
    proof {
        lemma_first_with_prefix_is(spec_lines(s@), p@, n as nat);
    }
    None
}

/// Whether a line belongs to an indented continuation block.
fn is_indented(l: &str) -> (r: bool)
    ensures
        r == (l@.len() > 0 && l@[0] == ' '),
{
    l.unicode_len() > 0 && l.get_char(0) == ' '
}

/// What a `.dsc` file declares: the source name, the composed version and
/// the raw `Package-List:` continuation lines.
#[derive(Debug)]
pub struct DscInfo {
    pub source: String,
    pub version: String,
    pub package_list: Vec<String>,
}

/// End of the run of indented lines beginning at `k`: the first index at
/// or after `k` whose line does not start with a space.
pub open spec fn indented_run_end(ls: Seq<Seq<char>>, k: nat) -> nat
    decreases ls.len() - k,
{
    if k >= ls.len() {
        k
    } else if ls[k as int].len() > 0 && ls[k as int][0] == ' ' {
        indented_run_end(ls, k + 1)
    } else {
        k
    }
}

/// The package list block: the run of indented lines directly after the
/// first `Package-List:` line.
pub open spec fn dsc_package_list(s: Seq<char>) -> Seq<Seq<char>> {
    let ls = spec_lines(s);
    let start = first_with_prefix(ls, "Package-List:"@) + 1;
    ls.subrange(start as int, indented_run_end(ls, start) as int)
}

/// Reads the `Source:` and `Version:` fields and the `Package-List:`
/// block out of a `.dsc` file. Each field is the first line with that
/// prefix, trimmed; the package list is the indented block that follows
/// its marker line, possibly empty.
#[verifier::loop_isolation(false)]
pub fn parse_dsc(dsc: &str) -> (r: Result<DscInfo, ParseError>)
    ensures
        r is Ok <==> has_line_with_prefix(dsc@, "Source:"@) && has_line_with_prefix(
            dsc@,
            "Version:"@,
        ) && has_line_with_prefix(dsc@, "Package-List:"@),
        r matches Ok(d) ==> {
            &&& d.source@ == line_field_value(dsc@, "Source:"@)
            &&& d.version@ == line_field_value(dsc@, "Version:"@)
            &&& str_views(d.package_list@) == dsc_package_list(dsc@)
        },
        r matches Err(e) ==> {
            &&& (e == ParseError::MissingSource <==> !has_line_with_prefix(dsc@, "Source:"@))
            &&& (e == ParseError::MissingVersion <==> has_line_with_prefix(dsc@, "Source:"@)
                && !has_line_with_prefix(dsc@, "Version:"@))
            &&& (e == ParseError::MissingPackageList <==> has_line_with_prefix(dsc@, "Source:"@)
                && has_line_with_prefix(dsc@, "Version:"@) && !has_line_with_prefix(
                dsc@,
                "Package-List:"@,
            ))
        },
{
    let source = match find_field(dsc, "Source:") {
        Some(v) => v,
        None => {
            return Err(ParseError::MissingSource);
        },
    };
    let version = match find_field(dsc, "Version:") {
        Some(v) => v,
        None => {
            return Err(ParseError::MissingVersion);
        },
    };
    let ls = lines(dsc);
    let n = ls.len();
    let mut i: usize = 0;
    while i < n
        invariant
            i <= n,
            n == ls@.len(),
            str_views(ls@) == spec_lines(dsc@),
            forall|j: int| 0 <= j < i ==> !"Package-List:"@.is_prefix_of(str_views(ls@)[j]),
        decreases n - i,
    {
        if starts_with(ls[i].as_str(), "Package-List:") {
            proof {
                lemma_first_with_prefix_is(spec_lines(dsc@), "Package-List:"@, i as nat);
            }
            let mut package_list: Vec<String> = Vec::new();
            let mut j = i + 1;
            while j < n && is_indented(ls[j].as_str())
                invariant
                    i + 1 <= j <= n,
                    n == ls@.len(),
                    str_views(ls@) == spec_lines(dsc@),
                    forall|k: int|
                        i + 1 <= k < j ==> str_views(ls@)[k].len() > 0 && str_views(ls@)[k][0]
                            == ' ',
                    str_views(package_list@) =~= str_views(ls@).subrange(i + 1, j as int),
                decreases n - j,
            {
                let line = ls[j].clone();
                proof {
                    assert(line@ == ls@[j as int]@);
                    assert(line@ == str_views(ls@)[j as int]);
                    assert(str_views(package_list@).len() == j - i - 1);
                    assert(str_views(package_list@.push(line)) =~= str_views(ls@).subrange(
                        i + 1,
                        j as int + 1,
                    ));
                }
                package_list.push(line);
                j = j + 1;
            }
            proof {
                lemma_indented_run_end_is(spec_lines(dsc@), (i + 1) as nat, j as nat);
            }
            return Ok(DscInfo { source, version, package_list });
        }
        i = i + 1;
    }
    proof {
        lemma_first_with_prefix_is(spec_lines(dsc@), "Package-List:"@, n as nat);
    }
    Err(ParseError::MissingPackageList)
}

/// Converse characterization of `indented_run_end`.
pub proof fn lemma_indented_run_end_is(ls: Seq<Seq<char>>, k: nat, e: nat)
    requires
        k <= e <= ls.len(),
        forall|j: int| k <= j < e ==> ls[j].len() > 0 && ls[j][0] == ' ',
        e < ls.len() ==> !(ls[e as int].len() > 0 && ls[e as int][0] == ' '),
    ensures
        indented_run_end(ls, k) == e,
    decreases e - k,
{
    if k < e {
        lemma_indented_run_end_is(ls, k + 1, e);
    }
}

} // verus!
