#![allow(non_snake_case)]
#![allow(non_camel_case_types)]

pub mod text;
pub mod utils;
pub mod subCommand;
pub mod cli;
pub mod i18n;

use vstd::prelude::*;

verus! {

/// The programs this tool carries with it (`devcon.exe`, `7z.exe`, `7z.dll`)
/// for the processor architecture it is built for.
pub struct Asset;

} // verus!
