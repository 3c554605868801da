//! Where a report goes, and whether it may replace a file.

use vstd::prelude::*;

use crate::error::CoreError;

verus! {

/// The file that a report is written to.
#[derive(Debug)]
pub enum ExportTarget {
    /// A new file; one that exists is never replaced.
    File(String),
    /// A file that is replaced where it exists.
    FileOverwrite(String),
}

/// How a file has to be opened for writing.
#[derive(Debug, Clone, Copy, PartialEq, Eq, Structural)]
pub struct OpenMode {
    /// The file must not exist.
    pub create_new: bool,
    /// The file is created where it does not exist.
    pub create: bool,
    /// What the file holds is dropped.
    pub truncate: bool,
}

impl ExportTarget {
    /// The path of the file.
    pub open spec fn location(self) -> Seq<char> {
        match self {
            ExportTarget::File(p) => p@,
            ExportTarget::FileOverwrite(p) => p@,
        }
    }

    /// Whether a file that exists may be replaced.
    pub open spec fn may_replace(self) -> bool {
        self is FileOverwrite
    }

    /// The path of the file.
    pub fn path(&self) -> (r: &str)
        ensures
            r@ == self.location(),
    {
        match self {
            ExportTarget::File(p) => p.as_str(),
            ExportTarget::FileOverwrite(p) => p.as_str(),
        }
    }

    /// How the file has to be opened: a file that exists is truncated only where
    /// it may be replaced, and makes the opening fail otherwise.
    pub fn open_mode(&self) -> (r: OpenMode)
        ensures
            r.create_new == !self.may_replace(),
            r.create == self.may_replace(),
            r.truncate == self.may_replace(),
    {
        match self {
            ExportTarget::File(_) => OpenMode { create_new: true, create: false, truncate: false },
            ExportTarget::FileOverwrite(_) => OpenMode {
                create_new: false,
                create: true,
                truncate: true,
            },
        }
    }

    /// The error where the file could not be opened for `reason`.
    pub fn open_error(&self, reason: &str) -> (r: CoreError)
        ensures
            r matches CoreError::Export(m) && m@ == (if self.may_replace() {
                "Cannot open export file '"@ + self.location() + "' for overwrite: "@ + reason@
            } else {
                "Cannot create export file '"@ + self.location()
                    + "' (already exists or other error): "@ + reason@
            }),
    {
        CoreError::Export(
            match self {
                ExportTarget::File(p) => "Cannot create export file '".to_owned().concat(
                    p.as_str(),
                ).concat("' (already exists or other error): ").concat(reason),
                ExportTarget::FileOverwrite(p) => "Cannot open export file '".to_owned().concat(
                    p.as_str(),
                ).concat("' for overwrite: ").concat(reason),
            },
        )
    }
}

/// A file that exists is replaced only where the target says so, and the path is the one that
/// was given, either way.
pub proof fn law_only_overwriting_replaces(path: String)
    ensures
        !ExportTarget::File(path).may_replace(),
        ExportTarget::FileOverwrite(path).may_replace(),
        ExportTarget::File(path).location() == path@,
        ExportTarget::FileOverwrite(path).location() == path@,
{
}

} // verus!
