//! Version strings and artifact file names.
//!
//! A build's version is the upstream changelog version extended with the
//! commit timestamp, the series release number and the first seven
//! characters of the commit id. The path version — the version as it
//! appears in file names — is what follows the last `:`, which strips any
//! Debian epoch prefix.

use vstd::prelude::*;

use crate::text::{after_last, lemma_after_last_none, spec_after_last, substring};

verus! {

/// The composed version: `<changelog>~<timestamp>~<release>~<sha[..7]>`.
pub fn compose_version(changelog_version: &str, timestamp: &str, release: &str, sha: &str) -> (r:
    String)
    requires
        sha@.len() >= 7,
    ensures
        r@ == changelog_version@ + "~"@ + timestamp@ + "~"@ + release@ + "~"@ + sha@.take(7),
{
    let sha7 = substring(sha, 0, 7);
    let mut r = changelog_version.to_owned();
    r.append("~");
    r.append(timestamp);
    r.append("~");
    r.append(release);
    r.append("~");
    r.append(sha7.as_str());
    proof {
        assert(r@ =~= changelog_version@ + "~"@ + timestamp@ + "~"@ + release@ + "~"@ + sha@.take(
            7,
        ));
    }
    r
}

/// The version with any epoch prefix stripped: what follows the last `:`,
/// or the whole version when it has none.
pub fn path_version(version: &str) -> (r: String)
    ensures
        r@ == spec_after_last(version@, ':'),
{
    after_last(version, ':')
}

/// Stripping everything up to the last occurrence of `c` keeps every
/// `c`-free suffix intact.
pub proof fn lemma_after_last_keeps_suffix(s: Seq<char>, t: Seq<char>, c: char)
    requires
        t.is_suffix_of(s),
        forall|j: int| 0 <= j < t.len() ==> t[j] != c,
    ensures
        t.is_suffix_of(spec_after_last(s, c)),
    decreases s.len(),
{
    if s.len() == 0 {
        assert(t =~= Seq::<char>::empty());
    } else if t.len() == 0 {
        assert(t.is_suffix_of(spec_after_last(s, c)));
    } else {
        assert(t.last() == s.last());
        if s.last() == c {
            assert(t[t.len() - 1] == c);
        } else {
            assert(t.drop_last().is_suffix_of(s.drop_last()));
            lemma_after_last_keeps_suffix(s.drop_last(), t.drop_last(), c);
            let a = spec_after_last(s.drop_last(), c);
            assert(spec_after_last(s, c) == a.push(s.last()));
            assert(t =~= t.drop_last().push(t.last()));
            assert(t.is_suffix_of(a.push(s.last())));
        }
    }
}

/// The composed version carries `~<timestamp>~<release>~<sha[..7]>` as a
/// suffix, and a proper one whenever the changelog version is nonempty.
pub proof fn lemma_version_suffix(
    changelog_version: Seq<char>,
    timestamp: Seq<char>,
    release: Seq<char>,
    sha7: Seq<char>,
)
    ensures
        ("~"@ + timestamp + "~"@ + release + "~"@ + sha7).is_suffix_of(
            changelog_version + "~"@ + timestamp + "~"@ + release + "~"@ + sha7,
        ),
        changelog_version.len() > 0 ==> ("~"@ + timestamp + "~"@ + release + "~"@ + sha7).len() < (
        changelog_version + "~"@ + timestamp + "~"@ + release + "~"@ + sha7).len(),
{
    let t = "~"@ + timestamp + "~"@ + release + "~"@ + sha7;
    let s = changelog_version + "~"@ + timestamp + "~"@ + release + "~"@ + sha7;
    assert(t =~= s.subrange(s.len() - t.len(), s.len() as int));
}

/// The path version of a composed version still carries the
/// `~<timestamp>~<release>~<sha[..7]>` suffix, provided those parts are
/// free of `:` — an epoch can only hide in the changelog version.
pub proof fn lemma_path_version_keeps_suffix(
    changelog_version: Seq<char>,
    timestamp: Seq<char>,
    release: Seq<char>,
    sha7: Seq<char>,
)
    requires
        forall|j: int| 0 <= j < timestamp.len() ==> timestamp[j] != ':',
        forall|j: int| 0 <= j < release.len() ==> release[j] != ':',
        forall|j: int| 0 <= j < sha7.len() ==> sha7[j] != ':',
    ensures
        ("~"@ + timestamp + "~"@ + release + "~"@ + sha7).is_suffix_of(
            spec_after_last(
                changelog_version + "~"@ + timestamp + "~"@ + release + "~"@ + sha7,
                ':',
            ),
        ),
{
    let t = "~"@ + timestamp + "~"@ + release + "~"@ + sha7;
    let s = changelog_version + "~"@ + timestamp + "~"@ + release + "~"@ + sha7;
    reveal_strlit("~");
    assert forall|j: int| 0 <= j < t.len() implies t[j] != ':' by {
        if j == 0 || j == 1 + timestamp.len() || j == 2 + timestamp.len() + release.len() {
            assert(t[j] == '~');
        }
    }
    lemma_version_suffix(changelog_version, timestamp, release, sha7);
    lemma_after_last_keeps_suffix(s, t, ':');
}

/// A commit's archive file name: `<sha>.tar`.
pub fn tar_archive_name(sha: &str) -> (r: String)
    ensures
        r@ == sha@ + ".tar"@,
{
    let mut r = sha.to_owned();
    r.append(".tar");
    r
}

/// Two commits share an archive file name only if they are the same
/// commit: archives are content-addressed by commit id.
pub proof fn lemma_tar_name_injective(sha1: Seq<char>, sha2: Seq<char>)
    requires
        sha1 + ".tar"@ == sha2 + ".tar"@,
    ensures
        sha1 == sha2,
{
    assert((sha1 + ".tar"@).len() == sha1.len() + ".tar"@.len());
    assert((sha2 + ".tar"@).len() == sha2.len() + ".tar"@.len());
    assert(sha1.len() == sha2.len());
    assert forall|j: int| 0 <= j < sha1.len() implies sha1[j] == sha2[j] by {
        assert((sha1 + ".tar"@)[j] == sha1[j]);
        assert((sha2 + ".tar"@)[j] == sha2[j]);
    }
    assert(sha1 =~= sha2);
}

/// `<dir>/<name>`.
pub fn join_path(dir: &str, name: &str) -> (r: String)
    ensures
        r@ == dir@ + "/"@ + name@,
{
    let mut r = dir.to_owned();
    r.append("/");
    r.append(name);
    proof {
        assert(r@ =~= dir@ + "/"@ + name@);
    }
    r
}

/// The source package control file name: `<source>_<path version>.dsc`.
pub fn dsc_name(source: &str, path_version: &str) -> (r: String)
    ensures
        r@ == source@ + "_"@ + path_version@ + ".dsc"@,
{
    let mut r = source.to_owned();
    r.append("_");
    r.append(path_version);
    r.append(".dsc");
    proof {
        assert(r@ =~= source@ + "_"@ + path_version@ + ".dsc"@);
    }
    r
}

/// The source tarball name: `<source>_<path version>.tar.xz`.
pub fn tar_xz_name(source: &str, path_version: &str) -> (r: String)
    ensures
        r@ == source@ + "_"@ + path_version@ + ".tar.xz"@,
{
    let mut r = source.to_owned();
    r.append("_");
    r.append(path_version);
    r.append(".tar.xz");
    proof {
        assert(r@ =~= source@ + "_"@ + path_version@ + ".tar.xz"@);
    }
    r
}

/// The source build log name: `<source>_<path version>_source.build`.
pub fn source_log_name(source: &str, path_version: &str) -> (r: String)
    ensures
        r@ == source@ + "_"@ + path_version@ + "_source.build"@,
{
    let mut r = source.to_owned();
    r.append("_");
    r.append(path_version);
    r.append("_source.build");
    proof {
        assert(r@ =~= source@ + "_"@ + path_version@ + "_source.build"@);
    }
    r
}

/// The binary build log name: `<source>_<path version>_<arch>.build`.
pub fn binary_log_name(source: &str, path_version: &str, arch: &str) -> (r: String)
    ensures
        r@ == source@ + "_"@ + path_version@ + "_"@ + arch@ + ".build"@,
{
    let mut r = source.to_owned();
    r.append("_");
    r.append(path_version);
    r.append("_");
    r.append(arch);
    r.append(".build");
    proof {
        assert(r@ =~= source@ + "_"@ + path_version@ + "_"@ + arch@ + ".build"@);
    }
    r
}

/// A binary package file name: `<binary>_<path version>_<arch>.deb` — one
/// file name for each (binary, path version, architecture) triple.
pub fn deb_name(binary: &str, path_version: &str, arch: &str) -> (r: String)
    ensures
        r@ == binary@ + "_"@ + path_version@ + "_"@ + arch@ + ".deb"@,
{
    let mut r = binary.to_owned();
    r.append("_");
    r.append(path_version);
    r.append("_");
    r.append(arch);
    r.append(".deb");
    proof {
        assert(r@ =~= binary@ + "_"@ + path_version@ + "_"@ + arch@ + ".deb"@);
    }
    r
}

/// The directory a commit's tree is extracted into for one series:
/// `<sha>_<codename>`.
pub fn extract_dir_name(sha: &str, codename: &str) -> (r: String)
    ensures
        r@ == sha@ + "_"@ + codename@,
{
    let mut r = sha.to_owned();
    r.append("_");
    r.append(codename);
    proof {
        assert(r@ =~= sha@ + "_"@ + codename@);
    }
    r
}

} // verus!
