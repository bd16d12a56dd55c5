//! The kinds of console messages.
use vstd::prelude::*;

verus! {

/// The kind of a console message, which decides its title and colour.
pub enum ConsoleType {
    Info,
    Success,
    Warning,
    Error,
}

impl ConsoleType {
    /// The id of the message title in the message catalogue.
    pub fn titleKey(&self) -> (r: &'static str)
        ensures
            r@ == match self {
                ConsoleType::Info => "Info"@,
                ConsoleType::Success => "Success"@,
                ConsoleType::Warning => "Warning"@,
                ConsoleType::Error => "Err"@,
            },
    {
        match self {
            ConsoleType::Info => "Info",
            ConsoleType::Success => "Success",
            ConsoleType::Warning => "Warning",
            ConsoleType::Error => "Err",
        }
    }
}

} // verus!
