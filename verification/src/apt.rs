//! The publisher's compositions: the per-directory `Release` text, the
//! archive tool's invocations and the signing tool's invocations. Writing
//! files and running the tools happens outside, once all builders of a
//! pocket are done.

use vstd::prelude::*;

use crate::text::str_views;

verus! {

/// The pool directory of one series.
pub fn pool_path(codename: &str) -> (r: String)
    ensures
        r@ == "pool/"@ + codename@,
{
    let mut r = "pool/".to_owned();
    r.append(codename);
    r
}

/// The per-directory `Release` file: six fields, each line
/// newline-terminated, no trailing blank line. `arch` is the binary
/// architecture, or `source` for the source directory.
pub fn release_file_contents(
    arch: &str,
    context: &str,
    description: &str,
    codename: &str,
    version: &str,
    pocket: &str,
) -> (r: String)
    ensures
        r@ == "Archive: "@ + codename@ + "\n"@ + "Version: "@ + version@ + "\n"@
            + "Component: main\n"@ + "Origin: "@ + context@ + "-"@ + pocket@ + "\n"@ + "Label: "@
            + description@ + " "@ + pocket@ + "\n"@ + "Architecture: "@ + arch@ + "\n"@,
{
    let mut r = "Archive: ".to_owned();
    r.append(codename);
    r.append("\n");
    r.append("Version: ");
    r.append(version);
    r.append("\n");
    r.append("Component: main\n");
    r.append("Origin: ");
    r.append(context);
    r.append("-");
    r.append(pocket);
    r.append("\n");
    r.append("Label: ");
    r.append(description);
    r.append(" ");
    r.append(pocket);
    r.append("\n");
    r.append("Architecture: ");
    r.append(arch);
    r.append("\n");
    proof {
        assert(r@ =~= "Archive: "@ + codename@ + "\n"@ + "Version: "@ + version@ + "\n"@
            + "Component: main\n"@ + "Origin: "@ + context@ + "-"@ + pocket@ + "\n"@ + "Label: "@
            + description@ + " "@ + pocket@ + "\n"@ + "Architecture: "@ + arch@ + "\n"@);
    }
    r
}

/// The archive tool's invocation for the source index of one pool.
pub fn sources_args(pool: &str) -> (r: Vec<String>)
    ensures
        str_views(r@) == seq!["-qq"@, "sources"@, pool@],
{
    let mut r: Vec<String> = Vec::new();
    r.push("-qq".to_owned());
    r.push("sources".to_owned());
    r.push(pool.to_owned());
    proof {
        assert(str_views(r@) =~= seq!["-qq"@, "sources"@, pool@]);
    }
    r
}

/// The archive tool's invocation for one architecture's package index.
pub fn packages_args(build_arch: &str, pool: &str) -> (r: Vec<String>)
    ensures
        str_views(r@) == seq!["--arch"@, build_arch@, "packages"@, pool@],
{
    let mut r: Vec<String> = Vec::new();
    r.push("--arch".to_owned());
    r.push(build_arch.to_owned());
    r.push("packages".to_owned());
    r.push(pool.to_owned());
    proof {
        assert(str_views(r@) =~= seq!["--arch"@, build_arch@, "packages"@, pool@]);
    }
    r
}

fn opt_arg(key: &str, value: &str) -> (r: String)
    ensures
        r@ == key@ + value@,
{
    let mut r = key.to_owned();
    r.append(value);
    r
}

/// The archive tool's invocation for the top-level `Release` of one
/// dist directory: origin, label, suite, version, codename,
/// architectures, components and description as key=value options, then
/// `release .`.
pub fn dist_release_args(
    context: &str,
    description: &str,
    pocket: &str,
    codename: &str,
    version: &str,
    build_archs: &str,
) -> (r: Vec<String>)
    ensures
        str_views(r@) == seq![
            "-o"@,
            "APT::FTPArchive::Release::Origin="@ + context@ + "-"@ + pocket@,
            "-o"@,
            "APT::FTPArchive::Release::Label="@ + description@ + " "@ + pocket@,
            "-o"@,
            "APT::FTPArchive::Release::Suite="@ + codename@,
            "-o"@,
            "APT::FTPArchive::Release::Version="@ + version@,
            "-o"@,
            "APT::FTPArchive::Release::Codename="@ + codename@,
            "-o"@,
            "APT::FTPArchive::Release::Architectures="@ + build_archs@,
            "-o"@,
            "APT::FTPArchive::Release::Components=main"@,
            "-o"@,
            "APT::FTPArchive::Release::Description=Pop!_OS Staging "@ + codename@ + " "@ + version@
                + " "@ + pocket@,
            "release"@,
            "."@,
        ],
{
    let mut r: Vec<String> = Vec::new();
    r.push("-o".to_owned());
    let mut origin = "APT::FTPArchive::Release::Origin=".to_owned();
    origin.append(context);
    origin.append("-");
    origin.append(pocket);
    r.push(origin);
    r.push("-o".to_owned());
    let mut label = "APT::FTPArchive::Release::Label=".to_owned();
    label.append(description);
    label.append(" ");
    label.append(pocket);
    r.push(label);
    r.push("-o".to_owned());
    r.push(opt_arg("APT::FTPArchive::Release::Suite=", codename));
    r.push("-o".to_owned());
    r.push(opt_arg("APT::FTPArchive::Release::Version=", version));
    r.push("-o".to_owned());
    r.push(opt_arg("APT::FTPArchive::Release::Codename=", codename));
    r.push("-o".to_owned());
    r.push(opt_arg("APT::FTPArchive::Release::Architectures=", build_archs));
    r.push("-o".to_owned());
    r.push("APT::FTPArchive::Release::Components=main".to_owned());
    r.push("-o".to_owned());
    let mut desc = "APT::FTPArchive::Release::Description=Pop!_OS Staging ".to_owned();
    desc.append(codename);
    desc.append(" ");
    desc.append(version);
    desc.append(" ");
    desc.append(pocket);
    r.push(desc);
    r.push("release".to_owned());
    r.push(".".to_owned());
    proof {
        assert(str_views(r@) =~= seq![
            "-o"@,
            "APT::FTPArchive::Release::Origin="@ + context@ + "-"@ + pocket@,
            "-o"@,
            "APT::FTPArchive::Release::Label="@ + description@ + " "@ + pocket@,
            "-o"@,
            "APT::FTPArchive::Release::Suite="@ + codename@,
            "-o"@,
            "APT::FTPArchive::Release::Version="@ + version@,
            "-o"@,
            "APT::FTPArchive::Release::Codename="@ + codename@,
            "-o"@,
            "APT::FTPArchive::Release::Architectures="@ + build_archs@,
            "-o"@,
            "APT::FTPArchive::Release::Components=main"@,
            "-o"@,
            "APT::FTPArchive::Release::Description=Pop!_OS Staging "@ + codename@ + " "@ + version@
                + " "@ + pocket@,
            "release"@,
            "."@,
        ]);
    }
    r
}

/// The signing tool's invocation for the clearsigned `InRelease`.
pub fn gpg_inrelease_args(dist_dir: &str, email: &str) -> (r: Vec<String>)
    ensures
        str_views(r@) == seq![
            "--clearsign"@,
            "--local-user"@,
            email@,
            "--batch"@,
            "--yes"@,
            "--digest-algo"@,
            "sha512"@,
            "-o"@,
            dist_dir@ + "/InRelease"@,
            dist_dir@ + "/Release"@,
        ],
{
    let mut r: Vec<String> = Vec::new();
    r.push("--clearsign".to_owned());
    r.push("--local-user".to_owned());
    r.push(email.to_owned());
    r.push("--batch".to_owned());
    r.push("--yes".to_owned());
    r.push("--digest-algo".to_owned());
    r.push("sha512".to_owned());
    r.push("-o".to_owned());
    r.push(opt_arg(dist_dir, "/InRelease"));
    r.push(opt_arg(dist_dir, "/Release"));
    proof {
        assert(str_views(r@) =~= seq![
            "--clearsign"@,
            "--local-user"@,
            email@,
            "--batch"@,
            "--yes"@,
            "--digest-algo"@,
            "sha512"@,
            "-o"@,
            dist_dir@ + "/InRelease"@,
            dist_dir@ + "/Release"@,
        ]);
    }
    r
}

/// The signing tool's invocation for the detached `Release.gpg`.
pub fn gpg_release_args(dist_dir: &str, email: &str) -> (r: Vec<String>)
    ensures
        str_views(r@) == seq![
            "-abs"@,
            "--local-user"@,
            email@,
            "--batch"@,
            "--yes"@,
            "--digest-algo"@,
            "sha512"@,
            "-o"@,
            dist_dir@ + "/Release.gpg"@,
            dist_dir@ + "/Release"@,
        ],
{
    let mut r: Vec<String> = Vec::new();
    r.push("-abs".to_owned());
    r.push("--local-user".to_owned());
    r.push(email.to_owned());
    r.push("--batch".to_owned());
    r.push("--yes".to_owned());
    r.push("--digest-algo".to_owned());
    r.push("sha512".to_owned());
    r.push("-o".to_owned());
    r.push(opt_arg(dist_dir, "/Release.gpg"));
    r.push(opt_arg(dist_dir, "/Release"));
    proof {
        assert(str_views(r@) =~= seq![
            "-abs"@,
            "--local-user"@,
            email@,
            "--batch"@,
            "--yes"@,
            "--digest-algo"@,
            "sha512"@,
            "-o"@,
            dist_dir@ + "/Release.gpg"@,
            dist_dir@ + "/Release"@,
        ]);
    }
    r
}

} // verus!
