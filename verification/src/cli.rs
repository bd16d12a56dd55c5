//! Checks of command line values, with their messages in English.
pub mod classes;
pub mod validator;

use vstd::prelude::*;
use crate::cli::classes::{driverClassKnown, has_wildcard, hasWildcard, is_driver_class};

verus! {

/// `Ok` when the path exists.
pub fn isValidPath(exists: bool) -> (r: Result<(), String>)
    ensures
        r is Ok <==> exists,
        r matches Err(m) ==> m@ == "The path does not exist, please make sure the entered directory exists"@,
{
    if !exists {
        return Err(String::from_str("The path does not exist, please make sure the entered directory exists"));
    }
    Ok(())
}

/// `Ok` when the path exists and is a directory.
pub fn isValidDirectory(exists: bool, isDir: bool) -> (r: Result<(), String>)
    ensures
        r is Ok <==> exists && isDir,
        !exists ==> (r matches Err(m) && m@ == "The directory does not exist, please make sure the entered directory exists"@),
        exists && !isDir ==> (r matches Err(m) && m@ == "The path is not a directory, please make sure that the entered path is a directory"@),
{
    if !exists {
        return Err(String::from_str("The directory does not exist, please make sure the entered directory exists"));
    }
    if !isDir {
        return Err(String::from_str("The path is not a directory, please make sure that the entered path is a directory"));
    }
    Ok(())
}

/// `Ok` when the path exists, or, when its file name `fileName` holds a
/// wildcard, when its parent directory exists.
pub fn isValidPathIncludeWildcard(fileName: &str, pathExists: bool, parentExists: bool) -> (r: Result<(), String>)
    ensures
        r is Ok <==> (if has_wildcard(fileName@) { parentExists } else { pathExists }),
        r matches Err(m) ==> m@ == "The path does not exist, please make sure the entered path exists"@,
{
    if hasWildcard(fileName) {
        return if parentExists {
            Ok(())
        } else {
            Err(String::from_str("The path does not exist, please make sure the entered path exists"))
        };
    }
    if !pathExists {
        return Err(String::from_str("The path does not exist, please make sure the entered path exists"));
    }
    Ok(())
}

/// `Ok` when `class` names a driver class, ignoring case.
pub fn isValidDriverClass(class: &str) -> (r: Result<(), String>)
    ensures
        r is Ok <==> is_driver_class(class@),
        r matches Err(m) ==> m@ == "The driver category is incorrect, please enter the correct driver category"@,
{
    if driverClassKnown(class) {
        return Ok(());
    }
    Err(String::from_str("The driver category is incorrect, please enter the correct driver category"))
}

} // verus!
