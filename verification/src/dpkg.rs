//! The source and binary build stages, as decisions and compositions.
//!
//! The binary stage enumerates the `.deb` files a `.dsc`'s package list
//! promises, skips entries a repository never ships, and decides from the
//! artifacts already on disk whether a build is run at all. The source
//! stage composes the stamped version, the expected artifact names and
//! the build-tool invocations. Running the tools, and testing which files
//! exist, happens outside; the decisions here are total over what those
//! tests report.

use vstd::prelude::*;

use crate::errors::ParseError;
use crate::text::{ends_with, fields, spec_fields, spec_split, split_char, starts_with, str_eq,
    str_views, substring};

verus! {

broadcast use crate::text::group_str_views;

/// Entries never shipped: `udeb` packages everywhere; debug symbols and
/// installer udebs for the `linux` repository; udebs for `systemd`.
pub open spec fn spec_skip_entry(binary: Seq<char>, kind: Seq<char>, repo: Seq<char>) -> bool {
    ||| kind == "udeb"@
    ||| (repo == "linux"@ && ("-dbgsym"@.is_suffix_of(binary) || "linux-udebs-"@.is_prefix_of(
        binary,
    )))
    ||| (repo == "systemd"@ && "-udeb"@.is_suffix_of(binary))
}

fn skip_entry(binary: &str, kind: &str, repo: &str) -> (r: bool)
    ensures
        r == spec_skip_entry(binary@, kind@, repo@),
{
    if str_eq(kind, "udeb") {
        return true;
    }
    if str_eq(repo, "linux") && (ends_with(binary, "-dbgsym") || starts_with(
        binary,
        "linux-udebs-",
    )) {
        return true;
    }
    str_eq(repo, "systemd") && ends_with(binary, "-udeb")
}

/// The architectures field with its `arch=` marker removed.
pub open spec fn spec_strip_arch_prefix(a: Seq<char>) -> Seq<char> {
    if "arch="@.is_prefix_of(a) {
        a.skip("arch="@.len() as int)
    } else {
        a
    }
}

fn strip_arch_prefix(a: &str) -> (r: String)
    ensures
        r@ == spec_strip_arch_prefix(a@),
{
    proof {
        reveal_strlit("arch=");
    }
    if starts_with(a, "arch=") {
        let r = substring(a, 5, a.unicode_len());
        proof {
            assert(a@.subrange(5, a@.len() as int) =~= a@.skip(5));
        }
        r
    } else {
        a.to_owned()
    }
}

/// The architecture one entry's declaration builds as: the build
/// architecture for `any`, `linux-any` and the build architecture itself;
/// `all` only on the architecture that builds independent packages; and
/// nothing otherwise.
pub open spec fn spec_eff_arch(a: Seq<char>, build_arch: Seq<char>, build_all: bool) -> Option<
    Seq<char>,
> {
    if a == "any"@ || a == "linux-any"@ || a == build_arch {
        Some(build_arch)
    } else if build_all && a == "all"@ {
        Some("all"@)
    } else {
        None
    }
}

fn eff_arch(a: &str, build_arch: &str, build_all: bool) -> (r: Option<String>)
    ensures
        (match r {
            Some(e) => Some(e@),
            None => None,
        }) == spec_eff_arch(a@, build_arch@, build_all),
{
    if str_eq(a, "any") || str_eq(a, "linux-any") || str_eq(a, build_arch) {
        Some(build_arch.to_owned())
    } else if build_all && str_eq(a, "all") {
        Some("all".to_owned())
    } else {
        None
    }
}

/// The expected path of one binary package.
pub open spec fn spec_deb_path(
    dir: Seq<char>,
    binary: Seq<char>,
    pv: Seq<char>,
    arch: Seq<char>,
) -> Seq<char> {
    dir + "/"@ + binary + "_"@ + pv + "_"@ + arch + ".deb"@
}

/// The deb paths one entry's architecture list yields, in declaration
/// order.
pub open spec fn spec_arch_debs(
    archs: Seq<Seq<char>>,
    binary: Seq<char>,
    pv: Seq<char>,
    build_arch: Seq<char>,
    build_all: bool,
    dir: Seq<char>,
) -> Seq<Seq<char>>
    decreases archs.len(),
{
    if archs.len() == 0 {
        Seq::empty()
    } else {
        let rest = spec_arch_debs(archs.drop_first(), binary, pv, build_arch, build_all, dir);
        match spec_eff_arch(archs[0], build_arch, build_all) {
            Some(e) => seq![spec_deb_path(dir, binary, pv, e)] + rest,
            None => rest,
        }
    }
}

fn arch_debs(
    archs: &Vec<String>,
    binary: &str,
    pv: &str,
    build_arch: &str,
    build_all: bool,
    dir: &str,
) -> (r: Vec<String>)
    ensures
        str_views(r@) == spec_arch_debs(
            str_views(archs@),
            binary@,
            pv@,
            build_arch@,
            build_all,
            dir@,
        ),
{
    let ghost av = str_views(archs@);
    let n = archs.len();
    let mut r: Vec<String> = Vec::new();
    let mut i: usize = 0;
    proof {
        assert(av.skip(0) =~= av);
        assert(str_views(r@) + spec_arch_debs(av, binary@, pv@, build_arch@, build_all, dir@)
            =~= spec_arch_debs(av, binary@, pv@, build_arch@, build_all, dir@));
    }
    while i < n
        invariant
            i <= n == archs@.len(),
            av == str_views(archs@),
            spec_arch_debs(av, binary@, pv@, build_arch@, build_all, dir@) == str_views(r@)
                + spec_arch_debs(
                av.skip(i as int),
                binary@,
                pv@,
                build_arch@,
                build_all,
                dir@,
            ),
        decreases n - i,
    {
        proof {
            assert(av.skip(i as int)[0] == archs@[i as int]@);
            assert(av.skip(i as int).drop_first() =~= av.skip(i as int + 1));
        }
        match eff_arch(archs[i].as_str(), build_arch, build_all) {
            Some(e) => {
                let deb = crate::version::deb_name(binary, pv, e.as_str());
                let path = crate::version::join_path(dir, deb.as_str());
                proof {
                    assert(path@ == spec_deb_path(dir@, binary@, pv@, e@));
                    assert(str_views(r@.push(path)) =~= str_views(r@) + seq![path@]);
                    assert(str_views(r@) + (seq![spec_deb_path(dir@, binary@, pv@, e@)]
                        + spec_arch_debs(
                        av.skip(i as int + 1),
                        binary@,
                        pv@,
                        build_arch@,
                        build_all,
                        dir@,
                    )) =~= str_views(r@.push(path)) + spec_arch_debs(
                        av.skip(i as int + 1),
                        binary@,
                        pv@,
                        build_arch@,
                        build_all,
                        dir@,
                    ));
                }
                r.push(path);
            },
            None => {},
        }
        i = i + 1;
    }
    proof {
        assert(av.skip(n as int) =~= Seq::<Seq<char>>::empty());
        assert(str_views(r@) + spec_arch_debs(
            Seq::<Seq<char>>::empty(),
            binary@,
            pv@,
            build_arch@,
            build_all,
            dir@,
        ) =~= str_views(r@));
    }
    r
}

/// What one package list line contributes: nothing for a blank line or a
/// skipped entry, its deb paths otherwise; an error when the line lacks
/// the kind or architectures field.
pub open spec fn spec_line_debs(
    l: Seq<char>,
    repo: Seq<char>,
    pv: Seq<char>,
    build_arch: Seq<char>,
    build_all: bool,
    dir: Seq<char>,
) -> Result<Seq<Seq<char>>, ParseError> {
    let f = spec_fields(l);
    if f.len() == 0 {
        Ok(Seq::empty())
    } else if f.len() < 2 {
        Err(ParseError::MissingKind)
    } else if spec_skip_entry(f[0], f[1], repo) {
        Ok(Seq::empty())
    } else if f.len() < 5 {
        Err(ParseError::MissingArchitectures)
    } else {
        Ok(
            spec_arch_debs(
                spec_split(spec_strip_arch_prefix(f[4]), ','),
                f[0],
                pv,
                build_arch,
                build_all,
                dir,
            ),
        )
    }
}

fn line_debs(
    line: &str,
    repo: &str,
    pv: &str,
    build_arch: &str,
    build_all: bool,
    dir: &str,
) -> (r: Result<Vec<String>, ParseError>)
    ensures
        match r {
            Ok(v) => spec_line_debs(line@, repo@, pv@, build_arch@, build_all, dir@) == Ok::<
                Seq<Seq<char>>,
                ParseError,
            >(str_views(v@)),
            Err(e) => spec_line_debs(line@, repo@, pv@, build_arch@, build_all, dir@) == Err::<
                Seq<Seq<char>>,
                ParseError,
            >(e),
        },
{
    let f = fields(line);
    if f.len() == 0 {
        let v: Vec<String> = Vec::new();
        proof {
            assert(str_views(v@) =~= Seq::<Seq<char>>::empty());
        }
        return Ok(v);
    }
    if f.len() < 2 {
        return Err(ParseError::MissingKind);
    }
    if skip_entry(f[0].as_str(), f[1].as_str(), repo) {
        let v: Vec<String> = Vec::new();
        proof {
            assert(str_views(v@) =~= Seq::<Seq<char>>::empty());
        }
        return Ok(v);
    }
    if f.len() < 5 {
        return Err(ParseError::MissingArchitectures);
    }
    let archs_text = strip_arch_prefix(f[4].as_str());
    let archs = split_char(archs_text.as_str(), ',');
    let v = arch_debs(&archs, f[0].as_str(), pv, build_arch, build_all, dir);
    Ok(v)
}

/// The deb paths a whole package list promises, in declaration order; the
/// first ill-formed entry's error otherwise.
pub open spec fn spec_expected_debs(
    ls: Seq<Seq<char>>,
    repo: Seq<char>,
    pv: Seq<char>,
    build_arch: Seq<char>,
    build_all: bool,
    dir: Seq<char>,
) -> Result<Seq<Seq<char>>, ParseError>
    decreases ls.len(),
{
    if ls.len() == 0 {
        Ok(Seq::empty())
    } else {
        match spec_line_debs(ls[0], repo, pv, build_arch, build_all, dir) {
            Err(e) => Err(e),
            Ok(d) => match spec_expected_debs(
                ls.drop_first(),
                repo,
                pv,
                build_arch,
                build_all,
                dir,
            ) {
                Err(e) => Err(e),
                Ok(rest) => Ok(d + rest),
            },
        }
    }
}

/// Enumerates the `.deb` paths the package list block of a `.dsc`
/// promises for one architecture. An empty package list yields an empty
/// list — the binary stage then has nothing to build and nothing to
/// publish.
pub fn expected_debs(
    package_list: &Vec<String>,
    repo_name: &str,
    path_version: &str,
    build_arch: &str,
    build_all: bool,
    binary_dir: &str,
) -> (r: Result<Vec<String>, ParseError>)
    ensures
        match r {
            Ok(v) => spec_expected_debs(
                str_views(package_list@),
                repo_name@,
                path_version@,
                build_arch@,
                build_all,
                binary_dir@,
            ) == Ok::<Seq<Seq<char>>, ParseError>(str_views(v@)),
            Err(e) => spec_expected_debs(
                str_views(package_list@),
                repo_name@,
                path_version@,
                build_arch@,
                build_all,
                binary_dir@,
            ) == Err::<Seq<Seq<char>>, ParseError>(e),
        },
{
    let ghost lv = str_views(package_list@);
    let n = package_list.len();
    let mut debs: Vec<String> = Vec::new();
    let mut i: usize = 0;
    proof {
        assert(lv.skip(0) =~= lv);
    }
    while i < n
        invariant
            i <= n == package_list@.len(),
            lv == str_views(package_list@),
            spec_expected_debs(lv, repo_name@, path_version@, build_arch@, build_all, binary_dir@)
                == (match spec_expected_debs(
                lv.skip(i as int),
                repo_name@,
                path_version@,
                build_arch@,
                build_all,
                binary_dir@,
            ) {
                Ok(rest) => Ok::<Seq<Seq<char>>, ParseError>(str_views(debs@) + rest),
                Err(e) => Err::<Seq<Seq<char>>, ParseError>(e),
            }),
        decreases n - i,
    {
        proof {
            assert(lv.skip(i as int)[0] == package_list@[i as int]@);
            assert(lv.skip(i as int).drop_first() =~= lv.skip(i as int + 1));
        }
        let mut d = match line_debs(
            package_list[i].as_str(),
            repo_name,
            path_version,
            build_arch,
            build_all,
            binary_dir,
        ) {
            Ok(d) => d,
            Err(e) => {
                return Err(e);
            },
        };
        let ghost debs0 = debs@;
        let ghost d0 = d@;
        debs.append(&mut d);
        proof {
            assert(str_views(debs@) =~= str_views(debs0) + str_views(d0));
            let tail = spec_expected_debs(
                lv.skip(i as int + 1),
                repo_name@,
                path_version@,
                build_arch@,
                build_all,
                binary_dir@,
            );
            if tail is Ok {
                assert(str_views(debs0) + (str_views(d0) + tail->Ok_0) =~= str_views(debs@)
                    + tail->Ok_0);
            }
        }
        i = i + 1;
    }
    proof {
        assert(lv.skip(n as int) =~= Seq::<Seq<char>>::empty());
        assert(str_views(debs@) + Seq::<Seq<char>>::empty() =~= str_views(debs@));
    }
    Ok(debs)
}

/// An empty package list promises nothing: the binary stage then returns
/// an empty list, builds nothing, and hands the publisher nothing for
/// this cell — the publisher itself still runs.
pub proof fn lemma_empty_package_list(
    repo: Seq<char>,
    pv: Seq<char>,
    build_arch: Seq<char>,
    build_all: bool,
    dir: Seq<char>,
)
    ensures
        spec_expected_debs(Seq::empty(), repo, pv, build_arch, build_all, dir) == Ok::<
            Seq<Seq<char>>,
            ParseError,
        >(Seq::<Seq<char>>::empty()),
{
}

/// What the binary stage does once the disk has been consulted.
#[derive(Clone, Copy, Debug, PartialEq, Eq, Structural)]
pub enum BinaryAction {
    /// Every expected deb already exists: reuse them, spawn nothing.
    Reuse,
    /// A previous build of this cell failed and left its log: do not
    /// retry, spawn nothing.
    SkipFailed,
    /// Something is missing and no failure is recorded: build.
    Build,
}

/// The binary stage's caching decision. A build process is spawned only
/// when an expected deb is missing and no previous failure is recorded.
pub fn binary_action(all_debs_present: bool, build_log_exists: bool) -> (r: BinaryAction)
    ensures
        all_debs_present ==> r == BinaryAction::Reuse,
        !all_debs_present && build_log_exists ==> r == BinaryAction::SkipFailed,
        !all_debs_present && !build_log_exists ==> r == BinaryAction::Build,
{
    if all_debs_present {
        BinaryAction::Reuse
    } else if build_log_exists {
        BinaryAction::SkipFailed
    } else {
        BinaryAction::Build
    }
}

/// The source stage's caching decision: the build runs unless both the
/// `.dsc` and the source tarball already exist.
pub fn source_build_needed(dsc_exists: bool, tar_exists: bool) -> (r: bool)
    ensures
        r == !(dsc_exists && tar_exists),
{
    !(dsc_exists && tar_exists)
}

/// The archive key file and the two personal archive channels, by the
/// `dev` flag.
pub open spec fn spec_ppa_key(dev: bool) -> Seq<char> {
    if dev {
        ".ppa-dev.asc"@
    } else {
        ".ppa.asc"@
    }
}

pub open spec fn spec_ppa_release(dev: bool) -> Seq<char> {
    if dev {
        "system76-dev/stable"@
    } else {
        "system76/pop"@
    }
}

pub open spec fn spec_ppa_proposed(dev: bool) -> Seq<char> {
    if dev {
        "system76-dev/pre-stable"@
    } else {
        "system76/proposed"@
    }
}

/// The key file name and the release and proposed channels.
pub fn ppa_channels(dev: bool) -> (r: (String, String, String))
    ensures
        r.0@ == spec_ppa_key(dev),
        r.1@ == spec_ppa_release(dev),
        r.2@ == spec_ppa_proposed(dev),
{
    if dev {
        (
            ".ppa-dev.asc".to_owned(),
            "system76-dev/stable".to_owned(),
            "system76-dev/pre-stable".to_owned(),
        )
    } else {
        (".ppa.asc".to_owned(), "system76/pop".to_owned(), "system76/proposed".to_owned())
    }
}

/// The chroot build tool's argument list: target architecture and
/// distribution, the distribution's updates and security channels and the
/// two personal archive channels (binary and source each), the archive
/// key, `--arch-all` on the architecture that builds independent
/// packages, and the `.dsc` last.
pub open spec fn spec_sbuild_args(
    codename: Seq<char>,
    build_arch: Seq<char>,
    build_all: bool,
    dev: bool,
    key_path: Seq<char>,
    dsc_path: Seq<char>,
) -> Seq<Seq<char>> {
    let ppa_release = spec_ppa_release(dev);
    let ppa_proposed = spec_ppa_proposed(dev);
    let base = seq![
        "--arch="@ + build_arch,
        "--dist="@ + codename,
        "--extra-repository=deb http://us.archive.ubuntu.com/ubuntu/ "@ + codename
            + "-updates main restricted universe multiverse"@,
        "--extra-repository=deb-src http://us.archive.ubuntu.com/ubuntu/ "@ + codename
            + "-updates main restricted universe multiverse"@,
        "--extra-repository=deb http://us.archive.ubuntu.com/ubuntu/ "@ + codename
            + "-security main restricted universe multiverse"@,
        "--extra-repository=deb-src http://us.archive.ubuntu.com/ubuntu/ "@ + codename
            + "-security main restricted universe multiverse"@,
        "--extra-repository=deb http://ppa.launchpad.net/"@ + ppa_release + "/ubuntu "@ + codename
            + " main"@,
        "--extra-repository=deb-src http://ppa.launchpad.net/"@ + ppa_release + "/ubuntu "@
            + codename + " main"@,
        "--extra-repository=deb http://ppa.launchpad.net/"@ + ppa_proposed + "/ubuntu "@
            + codename + " main"@,
        "--extra-repository=deb-src http://ppa.launchpad.net/"@ + ppa_proposed + "/ubuntu "@
            + codename + " main"@,
        "--extra-repository-key="@ + key_path,
    ];
    (if build_all {
        base.push("--arch-all"@)
    } else {
        base
    }).push(dsc_path)
}

fn repo_channel_arg(kind: &str, ppa: &str, codename: &str) -> (r: String)
    ensures
        r@ == kind@ + ppa@ + "/ubuntu "@ + codename@ + " main"@,
{
    let mut r = kind.to_owned();
    r.append(ppa);
    r.append("/ubuntu ");
    r.append(codename);
    r.append(" main");
    proof {
        assert(r@ =~= kind@ + ppa@ + "/ubuntu "@ + codename@ + " main"@);
    }
    r
}

fn ubuntu_channel_arg(kind: &str, codename: &str, tail: &str) -> (r: String)
    ensures
        r@ == kind@ + codename@ + tail@,
{
    let mut r = kind.to_owned();
    r.append(codename);
    r.append(tail);
    proof {
        assert(r@ =~= kind@ + codename@ + tail@);
    }
    r
}

/// Composes the chroot build tool's argument list.
pub fn sbuild_args(
    codename: &str,
    build_arch: &str,
    build_all: bool,
    dev: bool,
    key_path: &str,
    dsc_path: &str,
) -> (r: Vec<String>)
    ensures
        str_views(r@) == spec_sbuild_args(
            codename@,
            build_arch@,
            build_all,
            dev,
            key_path@,
            dsc_path@,
        ),
{
    let (_key, ppa_release, ppa_proposed) = ppa_channels(dev);
    let mut r: Vec<String> = Vec::new();
    let mut arch = "--arch=".to_owned();
    arch.append(build_arch);
    r.push(arch);
    let mut dist = "--dist=".to_owned();
    dist.append(codename);
    r.push(dist);
    r.push(
        ubuntu_channel_arg(
            "--extra-repository=deb http://us.archive.ubuntu.com/ubuntu/ ",
            codename,
            "-updates main restricted universe multiverse",
        ),
    );
    r.push(
        ubuntu_channel_arg(
            "--extra-repository=deb-src http://us.archive.ubuntu.com/ubuntu/ ",
            codename,
            "-updates main restricted universe multiverse",
        ),
    );
    r.push(
        ubuntu_channel_arg(
            "--extra-repository=deb http://us.archive.ubuntu.com/ubuntu/ ",
            codename,
            "-security main restricted universe multiverse",
        ),
    );
    r.push(
        ubuntu_channel_arg(
            "--extra-repository=deb-src http://us.archive.ubuntu.com/ubuntu/ ",
            codename,
            "-security main restricted universe multiverse",
        ),
    );
    r.push(
        repo_channel_arg(
            "--extra-repository=deb http://ppa.launchpad.net/",
            ppa_release.as_str(),
            codename,
        ),
    );
    r.push(
        repo_channel_arg(
            "--extra-repository=deb-src http://ppa.launchpad.net/",
            ppa_release.as_str(),
            codename,
        ),
    );
    r.push(
        repo_channel_arg(
            "--extra-repository=deb http://ppa.launchpad.net/",
            ppa_proposed.as_str(),
            codename,
        ),
    );
    r.push(
        repo_channel_arg(
            "--extra-repository=deb-src http://ppa.launchpad.net/",
            ppa_proposed.as_str(),
            codename,
        ),
    );
    let mut key = "--extra-repository-key=".to_owned();
    key.append(key_path);
    r.push(key);
    if build_all {
        r.push("--arch-all".to_owned());
    }
    r.push(dsc_path.to_owned());
    proof {
        assert(str_views(r@) =~= spec_sbuild_args(
            codename@,
            build_arch@,
            build_all,
            dev,
            key_path@,
            dsc_path@,
        ));
    }
    r
}

/// The source build tool's argument list: keep `PATH`, pin
/// `SOURCE_DATE_EPOCH` to the commit timestamp, skip the tarball check,
/// build unsigned source only, and keep `.git` out of the tarball. Its
/// invocations are serialized process-wide.
pub fn debuild_args(timestamp: &str) -> (r: Vec<String>)
    ensures
        str_views(r@) == seq![
            "--preserve-envvar"@,
            "PATH"@,
            "--set-envvar"@,
            "SOURCE_DATE_EPOCH="@ + timestamp@,
            "--no-tgz-check"@,
            "-d"@,
            "-S"@,
            "--source-option=--tar-ignore=.git"@,
        ],
{
    let mut r: Vec<String> = Vec::new();
    r.push("--preserve-envvar".to_owned());
    r.push("PATH".to_owned());
    r.push("--set-envvar".to_owned());
    let mut epoch = "SOURCE_DATE_EPOCH=".to_owned();
    epoch.append(timestamp);
    r.push(epoch);
    r.push("--no-tgz-check".to_owned());
    r.push("-d".to_owned());
    r.push("-S".to_owned());
    r.push("--source-option=--tar-ignore=.git".to_owned());
    proof {
        assert(str_views(r@) =~= seq![
            "--preserve-envvar"@,
            "PATH"@,
            "--set-envvar"@,
            "SOURCE_DATE_EPOCH="@ + timestamp@,
            "--no-tgz-check"@,
            "-d"@,
            "-S"@,
            "--source-option=--tar-ignore=.git"@,
        ]);
    }
    r
}

/// The changelog entry stamped onto a cell before its source build: the
/// configured author, the commit's date, the cell's series as the sole
/// distribution, the composed version, one change line, medium urgency.
#[derive(Debug)]
pub struct ChangelogStamp {
    pub author: String,
    pub email: String,
    pub package: String,
    pub version: String,
    pub distribution: String,
    pub changes: String,
    pub urgency: String,
    pub date_rfc2822: String,
}

/// Composes the changelog entry for one build cell.
pub fn changelog_stamp(
    fullname: &str,
    email: &str,
    source_name: &str,
    version: &str,
    codename: &str,
    datetime: &str,
) -> (r: ChangelogStamp)
    ensures
        r.author@ == fullname@,
        r.email@ == email@,
        r.package@ == source_name@,
        r.version@ == version@,
        r.distribution@ == codename@,
        r.changes@ == "* Auto Build"@,
        r.urgency@ == "medium"@,
        r.date_rfc2822@ == datetime@,
{
    ChangelogStamp {
        author: fullname.to_owned(),
        email: email.to_owned(),
        package: source_name.to_owned(),
        version: version.to_owned(),
        distribution: codename.to_owned(),
        changes: "* Auto Build".to_owned(),
        urgency: "medium".to_owned(),
        date_rfc2822: datetime.to_owned(),
    }
}

/// For the `linux` repository the changelog lives at
/// `debian.master/changelog`; everywhere else at `debian/changelog`.
pub fn changelog_rel_path(repo_name: &str) -> (r: String)
    ensures
        repo_name@ == "linux"@ ==> r@ == "debian.master/changelog"@,
        repo_name@ != "linux"@ ==> r@ == "debian/changelog"@,
{
    if str_eq(repo_name, "linux") {
        "debian.master/changelog".to_owned()
    } else {
        "debian/changelog".to_owned()
    }
}

} // verus!
