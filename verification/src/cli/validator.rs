//! Checks of command line values. An error carries the id of its message
//! in the message catalogue.
use vstd::prelude::*;
use crate::cli::classes::{driverClassKnown, has_wildcard, hasWildcard, is_driver_class};

verus! {

/// `Ok` when the path exists; else the message `path-not-exist`.
pub fn isValidPath(exists: bool) -> (r: Result<(), String>)
    ensures
        r is Ok <==> exists,
        r matches Err(m) ==> m@ == "path-not-exist"@,
{
    if !exists {
        return Err(String::from_str("path-not-exist"));
    }
    Ok(())
}

/// `Ok` when the path exists and is a directory; else `dir-not-exist` for a
/// missing path and `path-not-exist` for a path that is not a directory.
pub fn isValidDirectory(exists: bool, isDir: bool) -> (r: Result<(), String>)
    ensures
        r is Ok <==> exists && isDir,
        !exists ==> (r matches Err(m) && m@ == "dir-not-exist"@),
        exists && !isDir ==> (r matches Err(m) && m@ == "path-not-exist"@),
{
    if !exists {
        return Err(String::from_str("dir-not-exist"));
    }
    if !isDir {
        return Err(String::from_str("path-not-exist"));
    }
    Ok(())
}

/// `Ok` when the path exists and holds `Windows\System32\cmd.exe`; else
/// `path-not-exist` for a missing path and `not-system-path` for the other.
pub fn isValidSystemPath(exists: bool, hasCmd: bool) -> (r: Result<(), String>)
    ensures
        r is Ok <==> exists && hasCmd,
        !exists ==> (r matches Err(m) && m@ == "path-not-exist"@),
        exists && !hasCmd ==> (r matches Err(m) && m@ == "not-system-path"@),
{
    if !exists {
        return Err(String::from_str("path-not-exist"));
    }
    if !hasCmd {
        return Err(String::from_str("not-system-path"));
    }
    Ok(())
}

/// `Ok` when the path exists, or, when its file name `fileName` holds a
/// wildcard, when its parent directory exists; else `path-not-exist`.
pub fn isValidPathIncludeWildcard(fileName: &str, pathExists: bool, parentExists: bool) -> (r: Result<(), String>)
    ensures
        r is Ok <==> (if has_wildcard(fileName@) { parentExists } else { pathExists }),
        r matches Err(m) ==> m@ == "path-not-exist"@,
{
    if hasWildcard(fileName) {
        return if parentExists {
            Ok(())
        } else {
            Err(String::from_str("path-not-exist"))
        };
    }
    if !pathExists {
        return Err(String::from_str("path-not-exist"));
    }
    Ok(())
}

/// `Ok` when `class` names a driver class, ignoring case; else
/// `not-driver-category`.
pub fn isValidDriverClass(class: &str) -> (r: Result<(), String>)
    ensures
        r is Ok <==> is_driver_class(class@),
        r matches Err(m) ==> m@ == "not-driver-category"@,
{
    if driverClassKnown(class) {
        return Ok(());
    }
    Err(String::from_str("not-driver-category"))
}

} // verus!
