//! The 7-Zip console program as driven before passwords were supported: the
//! command lines that unpack driver packages, and how its report is read.
use vstd::prelude::*;
use crate::text::strings_view;
use crate::utils::extract::concat_str;
use crate::utils::sevenZIP::{mentions, mentionsStr};

verus! {

/// The 7-Zip console program, by the path of its executable.
pub struct Zip7z {
    zipProgram: String,
}

impl Zip7z {
    /// The program whose executable stands at `zipProgram`.
    pub fn with_program(zipProgram: String) -> (r: Zip7z)
        ensures
            r.program() == zipProgram@,
    {
        Zip7z { zipProgram }
    }

    /// The path of the executable.
    pub closed spec fn program(&self) -> Seq<char> {
        self.zipProgram@
    }

    /// The path of the executable.
    pub fn zipProgram(&self) -> (r: &String)
        ensures
            r@ == self.program(),
    {
        &self.zipProgram
    }

    /// The arguments that extract `extractPath` from `zipFile` into `outPath`
    /// without the directories of the archive, keeping existing files.
    pub fn extractFilesArgs(zipFile: &str, extractPath: &str, outPath: &str) -> (r: Vec<String>)
        ensures
            strings_view(r@) == seq!["e"@, zipFile@, extractPath@, "-y"@, "-aos"@, "-o"@ + outPath@],
    {
        let mut args: Vec<String> = Vec::new();
        args.push(String::from_str("e"));
        args.push(String::from_str(zipFile));
        args.push(String::from_str(extractPath));
        args.push(String::from_str("-y"));
        args.push(String::from_str("-aos"));
        args.push(concat_str("-o", outPath));
        assert(strings_view(args@) =~= seq!["e"@, zipFile@, extractPath@, "-y"@, "-aos"@, "-o"@ + outPath@]);
        args
    }

    /// The arguments that extract `extractPath` (everything when it is empty)
    /// from `zipFile` into `outPath` with full paths, keeping existing files.
    pub fn extractFilesFromPathArgs(zipFile: &str, extractPath: &str, outPath: &str) -> (r: Vec<String>)
        ensures
            strings_view(r@) == seq![
                "x"@,
                zipFile@,
                if extractPath@.len() > 0 { extractPath@ } else { "*"@ },
                "-y"@,
                "-aos"@,
                "-o"@ + outPath@,
            ],
    {
        let mut args: Vec<String> = Vec::new();
        args.push(String::from_str("x"));
        args.push(String::from_str(zipFile));
        if !extractPath.is_empty() {
            args.push(String::from_str(extractPath));
        } else {
            args.push(String::from_str("*"));
        }
        args.push(String::from_str("-y"));
        args.push(String::from_str("-aos"));
        args.push(concat_str("-o", outPath));
        assert(strings_view(args@) =~= seq![
            "x"@,
            zipFile@,
            if extractPath@.len() > 0 { extractPath@ } else { "*"@ },
            "-y"@,
            "-aos"@,
            "-o"@ + outPath@,
        ]);
        args
    }

    /// The arguments that extract the files matching `extractPath` from
    /// `zipFile` into `outPath`, recursing into subdirectories, keeping
    /// existing files.
    pub fn extractFilesFromPathRecurseSubdirectoriesArgs(zipFile: &str, extractPath: &str, outPath: &str) -> (r: Vec<String>)
        ensures
            strings_view(r@) == seq!["x"@, "-r"@, zipFile@, extractPath@, "-y"@, "-aos"@, "-o"@ + outPath@],
    {
        let mut args: Vec<String> = Vec::new();
        args.push(String::from_str("x"));
        args.push(String::from_str("-r"));
        args.push(String::from_str(zipFile));
        args.push(String::from_str(extractPath));
        args.push(String::from_str("-y"));
        args.push(String::from_str("-aos"));
        args.push(concat_str("-o", outPath));
        assert(strings_view(args@) =~= seq!["x"@, "-r"@, zipFile@, extractPath@, "-y"@, "-aos"@, "-o"@ + outPath@]);
        args
    }

    /// Extraction (plain or recursive) found something unless the report says
    /// `No files to process`.
    pub fn extractFilesSucceeded(output: &str) -> (r: bool)
        ensures
            r == !mentions(output@, "No files to process"@),
    {
        !mentionsStr(output, "No files to process")
    }

    /// Extraction with full paths succeeded when the report says
    /// `Everything is Ok`.
    pub fn extractFilesFromPathSucceeded(output: &str) -> (r: bool)
        ensures
            r == mentions(output@, "Everything is Ok"@),
    {
        mentionsStr(output, "Everything is Ok")
    }
}

} // verus!
