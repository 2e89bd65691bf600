//! Where the kernel and its tools come from: two directories, or a version.

use vstd::prelude::*;
use crate::error::SourceError;
use crate::version::{parse_version, Version, VersionView};
use crate::views::{agrees, opt_view};

verus! {

/// Where the kernel and its tools come from.
#[derive(Debug, PartialEq, Eq)]
pub enum SeL4Source {
    /// A released version.
    Version(Version),
    /// Two directories on this machine. The paths are kept as they are
    /// written.
    LocalDirectories { kernel_dir: String, tools_dir: String },
}

/// What a `SeL4Source` holds.
pub enum SourceView {
    Version(VersionView),
    LocalDirectories { kernel_dir: Seq<char>, tools_dir: Seq<char> },
}

impl View for SeL4Source {
    type V = SourceView;

    open spec fn view(&self) -> SourceView {
        match self {
            SeL4Source::Version(v) => SourceView::Version(v@),
            SeL4Source::LocalDirectories { kernel_dir, tools_dir } => SourceView::LocalDirectories {
                kernel_dir: kernel_dir@,
                tools_dir: tools_dir@,
            },
        }
    }
}

impl Clone for SeL4Source {
    fn clone(&self) -> (r: Self)
        ensures
            r@ == self@,
    {
        match self {
            SeL4Source::Version(v) => SeL4Source::Version(v.clone()),
            SeL4Source::LocalDirectories { kernel_dir, tools_dir } => SeL4Source::LocalDirectories {
                kernel_dir: kernel_dir.clone(),
                tools_dir: tools_dir.clone(),
            },
        }
    }
}

/// The source that the three source fields of a document describe.
///
/// Both directories and no version are two local directories. A version and
/// no directory is that version, where the text is one. A version beside a
/// directory is ambiguous, and anything else describes no source.
pub open spec fn source_of(
    kernel_dir: Option<Seq<char>>,
    tools_dir: Option<Seq<char>>,
    version: Option<Seq<char>>,
) -> Result<SourceView, SourceError> {
    match version {
        Some(v) => if kernel_dir is Some || tools_dir is Some {
            Err(SourceError::AmbiguousSource)
        } else {
            match parse_version(v) {
                Some(x) => Ok(SourceView::Version(x)),
                None => Err(SourceError::InvalidVersion),
            }
        },
        None => match (kernel_dir, tools_dir) {
            (Some(k), Some(t)) => Ok(SourceView::LocalDirectories { kernel_dir: k, tools_dir: t }),
            _ => Err(SourceError::MissingSource),
        },
    }
}

impl SeL4Source {
    /// The source that the three source fields of a document describe.
    pub fn from_fields(
        kernel_dir: Option<String>,
        tools_dir: Option<String>,
        version: Option<String>,
    ) -> (r: Result<SeL4Source, SourceError>)
        ensures
            agrees(r, source_of(opt_view(kernel_dir), opt_view(tools_dir), opt_view(version))),
    {
        match version {
            Some(v) => {
                if kernel_dir.is_some() || tools_dir.is_some() {
                    Err(SourceError::AmbiguousSource)
                } else {
                    match Version::parse(v.as_str()) {
                        Some(x) => Ok(SeL4Source::Version(x)),
                        None => Err(SourceError::InvalidVersion),
                    }
                }
            },
            None => match (kernel_dir, tools_dir) {
                (Some(k), Some(t)) => Ok(SeL4Source::LocalDirectories { kernel_dir: k, tools_dir: t }),
                _ => Err(SourceError::MissingSource),
            },
        }
    }
}

/// A document that gives a version beside a directory, or neither both
/// directories nor a version, describes no source: exactly one of the two
/// groups of fields makes a source.
pub proof fn source_groups_exclude(
    kernel_dir: Option<Seq<char>>,
    tools_dir: Option<Seq<char>>,
    version: Option<Seq<char>>,
)
    ensures
        version is Some && (kernel_dir is Some || tools_dir is Some) ==> source_of(
            kernel_dir,
            tools_dir,
            version,
        ) == Err::<SourceView, SourceError>(SourceError::AmbiguousSource),
        version is None && (kernel_dir is None || tools_dir is None) ==> source_of(
            kernel_dir,
            tools_dir,
            version,
        ) == Err::<SourceView, SourceError>(SourceError::MissingSource),
        source_of(kernel_dir, tools_dir, version) is Ok ==> (version is Some) != (kernel_dir is Some
            && tools_dir is Some),
        source_of(kernel_dir, tools_dir, version) matches Ok(s) ==> (s is Version <==> version is Some),
{
}

} // verus!
