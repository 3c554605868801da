//! Scans of a single path.

use vstd::prelude::*;

use crate::analysis::{ScanRequest, ScanResult};
use crate::error::CoreError;
use crate::fs::acl;
use crate::fs::acl::{read_file_system_object, RawObject};
use crate::model::access::FileSystemObject;

verus! {

/// A scanner that reads one path, without recursion and without a cache.
pub struct NtfsScanner;

impl NtfsScanner {
    /// Scans the target of a request, given what the system replied for it. The result
    /// holds the object that was read, and no errors.
    pub fn scan(&self, request: ScanRequest, raw: RawObject) -> (r: Result<ScanResult, CoreError>)
        ensures
            (match r {
                Ok(result) => {
                    &&& result.objects@.len() == 1
                    &&& result.errors@.len() == 0
                    &&& acl::is_reading(
                        request.target@,
                        raw,
                        Ok::<FileSystemObject, CoreError>(result.objects@[0]),
                    )
                },
                Err(e) => acl::is_reading(
                    request.target@,
                    raw,
                    Err::<FileSystemObject, CoreError>(e),
                ),
            }),
    {
        let object: FileSystemObject = match read_file_system_object(
            request.target.as_str(),
            raw,
        ) {
            Ok(object) => object,
            Err(e) => {
                return Err(e);
            },
        };
        let mut objects: Vec<FileSystemObject> = Vec::new();
        objects.push(object);
        Ok(ScanResult { objects, errors: Vec::new() })
    }
}

/// Reads a single object (owner, entries of the DACL, attributes), given what the system
/// replied for it.
pub fn read_fso(path: &str, raw: RawObject) -> (r: Result<FileSystemObject, CoreError>)
    ensures
        acl::is_reading(path@, raw, r),
{
    read_file_system_object(path, raw)
}

} // verus!
