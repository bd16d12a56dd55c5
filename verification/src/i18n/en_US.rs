//! The titles of console messages.
use vstd::prelude::*;

verus! {

/// The titles of the kinds of console messages in one language.
pub trait Language {
    /// The title of an information.
    fn info() -> (r: &'static str);

    /// The title of a success.
    fn success() -> (r: &'static str);

    /// The title of a warning.
    fn warning() -> (r: &'static str);

    /// The title of an error.
    fn error() -> (r: &'static str);
}

/// The titles used for Simplified Chinese.
pub struct Language_zh_CN {}

impl Language for Language_zh_CN {
    fn info() -> (r: &'static str)
        ensures
            r@ == "Info"@,
    {
        "Info"
    }

    fn success() -> (r: &'static str)
        ensures
            r@ == "Success"@,
    {
        "Success"
    }

    fn warning() -> (r: &'static str)
        ensures
            r@ == "Warning"@,
    {
        "Warning"
    }

    fn error() -> (r: &'static str)
        ensures
            r@ == "Error"@,
    {
        "Error"
    }
}

} // verus!
