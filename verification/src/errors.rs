//! Error types shared across the pipeline's components.

use vstd::prelude::*;

verus! {

/// A directory could not be prepared; the offending path is carried along.
#[derive(Clone, Debug)]
pub enum DirError {
    Create { dir: String },
    Remove { dir: String },
}

impl DirError {
    /// The error's text, naming the path.
    pub fn message(&self) -> (r: String)
        ensures
            (self matches DirError::Create { dir } ==> r@ == "unable to create directory "@
                + dir@),
            (self matches DirError::Remove { dir } ==> r@ == "unable to remove "@ + dir@),
    {
        match self {
            DirError::Create { dir } => {
                let mut r = "unable to create directory ".to_owned();
                r.append(dir.as_str());
                r
            },
            DirError::Remove { dir } => {
                let mut r = "unable to remove ".to_owned();
                r.append(dir.as_str());
                r
            },
        }
    }
}

/// A file could not be produced; the offending path is carried along.
#[derive(Clone, Debug)]
pub enum FileError {
    CreateFile { file: String },
    WriteFile { file: String },
}

impl FileError {
    /// The error's text, naming the path.
    pub fn message(&self) -> (r: String)
        ensures
            (self matches FileError::CreateFile { file } ==> r@ == "unable to create file "@
                + file@),
            (self matches FileError::WriteFile { file } ==> r@ == "unable to write file "@
                + file@),
    {
        match self {
            FileError::CreateFile { file } => {
                let mut r = "unable to create file ".to_owned();
                r.append(file.as_str());
                r
            },
            FileError::WriteFile { file } => {
                let mut r = "unable to write file ".to_owned();
                r.append(file.as_str());
                r
            },
        }
    }
}

/// A control file or package list could not be understood. Fatal for the
/// build cell only.
#[derive(Clone, Copy, Debug, PartialEq, Eq, Structural)]
pub enum ParseError {
    /// No `Source:` line in the control data.
    MissingSource,
    /// No `Version:` line in the `.dsc`.
    MissingVersion,
    /// No `Package-List:` line in the `.dsc`.
    MissingPackageList,
    /// A package list entry without a kind field.
    MissingKind,
    /// A package list entry without an architectures field.
    MissingArchitectures,
}

} // verus!
