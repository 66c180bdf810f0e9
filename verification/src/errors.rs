//! Error types of the scaffolding pipeline.

use vstd::prelude::*;

verus! {

/// Hard failures of a scaffold run.
#[derive(Debug)]
pub enum ProjectInitError {
    /// The target project directory already exists.
    ProjectDirExists,
    /// The target project directory could not be created.
    ProjectDirCreateFail,
    /// The clone failed for a transport or protocol reason other than a
    /// missing repository.
    GitCloneFail,
    /// The remote reported that the repository does not exist.
    GitRepoNotFound,
    /// A rendered file could not be written back; carries the file name.
    WriteFileFail(String),
    /// A template file could not be read; carries the file name.
    ReadFileFail(String),
}

/// Failures around the template's embedded question schema file.
#[derive(Clone, Copy, Debug, PartialEq, Eq, Structural)]
pub enum CPRConfigError {
    /// The schema file exists but could not be read.
    FileReadFail,
    /// The schema file exists but is not well-formed TOML.
    TomlParseFail,
}

/// Failures of template rendering; all of them are fatal for the run,
/// since they indicate a broken template.
#[derive(Clone, Copy, Debug, PartialEq, Eq, Structural)]
pub enum RenderError {
    /// A filter was applied to a non-string or absent value.
    FormatError,
    /// A placeholder without a filter names a value the environment lacks.
    MissingValue,
    /// A placeholder names a filter the engine does not define.
    UnknownFilter,
    /// An opening placeholder marker has no closing marker after it.
    Unclosed,
}

} // verus!
