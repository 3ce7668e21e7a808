//! The pipeline's configuration, as plain values, and the layout of its
//! working directories.

use vstd::prelude::*;

use crate::version::join_path;

verus! {

/// One release series: its release number and whether wildcard branches
/// land in it.
#[derive(Debug)]
pub struct ConfigSeries {
    pub release: String,
    pub wildcard: bool,
}

/// One forge organization to mirror, with an optional negative name
/// prefix: repositories whose names start with it are excluded.
#[derive(Debug)]
pub struct ConfigOrganization {
    pub name: String,
    pub starts_filter: Option<String>,
}

/// The forge side of the configuration.
#[derive(Debug)]
pub struct ConfigGitHub {
    pub organizations: Vec<ConfigOrganization>,
    pub repos: Vec<String>,
}

/// The working directories the pipeline persists state under.
#[derive(Debug)]
pub struct ConfigDirs {
    pub base: String,
    pub binary: String,
    pub build: String,
    pub git: String,
    pub repo: String,
    pub source: String,
}

/// The whole configuration. Series and architectures are association
/// lists keyed by codename and architecture name; keys are unique.
#[derive(Debug)]
pub struct Config {
    pub archs: Vec<(String, bool)>,
    pub series: Vec<(String, ConfigSeries)>,
    pub github: ConfigGitHub,
    pub email: String,
    pub fullname: String,
    pub context: String,
    pub description: String,
    pub build_url: Option<String>,
    pub dirs: ConfigDirs,
    pub concurrent_builds: usize,
    pub dev: bool,
    pub retry: bool,
}

impl ConfigDirs {
    /// The directory layout under `<base>/_build`: each field is the
    /// canonical path of one artifact store.
    pub fn derive(base: &str) -> (r: ConfigDirs)
        ensures
            r.base@ == base@,
            r.build@ == base@ + "/"@ + "_build"@,
            r.binary@ == base@ + "/"@ + "_build"@ + "/"@ + "binary"@,
            r.git@ == base@ + "/"@ + "_build"@ + "/"@ + "git"@,
            r.repo@ == base@ + "/"@ + "_build"@ + "/"@ + "repos"@,
            r.source@ == base@ + "/"@ + "_build"@ + "/"@ + "source"@,
    {
        let build = join_path(base, "_build");
        ConfigDirs {
            base: base.to_owned(),
            binary: join_path(build.as_str(), "binary"),
            git: join_path(build.as_str(), "git"),
            repo: join_path(build.as_str(), "repos"),
            source: join_path(build.as_str(), "source"),
            build,
        }
    }
}

/// Whether no two strings in `v` hold the same text. `build_queue` and
/// the association-list lookups rely on unique keys; a caller that cannot
/// establish uniqueness tests it with this.
pub fn names_unique(v: &Vec<String>) -> (r: bool)
    ensures
        r == (forall|a: int, b: int| 0 <= a < b < v@.len() ==> v@[a]@ != v@[b]@),
{
    let n = v.len();
    let mut i: usize = 0;
    while i < n
        invariant
            i <= n == v@.len(),
            forall|a: int, b: int| 0 <= a < b < i ==> v@[a]@ != v@[b]@,
        decreases n - i,
    {
        let mut j: usize = 0;
        while j < i
            invariant
                j <= i < n == v@.len(),
                forall|a: int, b: int| 0 <= a < b < i ==> v@[a]@ != v@[b]@,
                forall|a: int| 0 <= a < j ==> v@[a]@ != v@[i as int]@,
            decreases i - j,
        {
            if crate::text::str_eq(v[j].as_str(), v[i].as_str()) {
                return false;
            }
            j = j + 1;
        }
        i = i + 1;
    }
    true
}

impl Config {
    /// The configured series codenames, in configuration order.
    pub fn series_names(&self) -> (r: Vec<String>)
        ensures
            r@.len() == self.series@.len(),
            forall|i: int| 0 <= i < r@.len() ==> r@[i]@ == self.series@[i].0@,
    {
        let n = self.series.len();
        let mut r: Vec<String> = Vec::new();
        let mut i: usize = 0;
        while i < n
            invariant
                i <= n == self.series@.len(),
                r@.len() == i,
                forall|j: int| 0 <= j < i ==> r@[j]@ == self.series@[j].0@,
            decreases n - i,
        {
            r.push(self.series[i].0.clone());
            i = i + 1;
        }
        r
    }
}

} // verus!
