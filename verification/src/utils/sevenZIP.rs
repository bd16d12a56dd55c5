//! The 7-Zip console program (`7z.exe`): the command lines that pack and
//! unpack driver packages, and how its report is read.
use vstd::prelude::*;
use crate::text::{chars_of, contains_chars, find_spec, spec_to_lowercase, strings_view, to_lowercase};
use crate::utils::extract::concat_str;

verus! {

/// The 7-Zip console program, by the path of its executable.
pub struct sevenZip {
    zipProgram: String,
}

/// `p` occurs in `s`.
pub open spec fn mentions(s: Seq<char>, p: Seq<char>) -> bool {
    find_spec(s, p) is Some
}

/// Whether `p` occurs in `s`.
pub fn mentionsStr(s: &str, p: &str) -> (r: bool)
    ensures
        r == mentions(s@, p@),
{
    let sc = chars_of(s);
    let pc = chars_of(p);
    contains_chars(&sc, &pc)
}

/// The password switch: `-p` and the password, or `-p` alone.
pub open spec fn password_switch(password: Option<Seq<char>>) -> Seq<char> {
    "-p"@ + match password {
        Some(p) => p,
        None => Seq::<char>::empty(),
    }
}

fn password_switch_exec(password: Option<&str>) -> (r: String)
    ensures
        r@ == password_switch(match password {
            Some(p) => Some(p@),
            None => None,
        }),
{
    match password {
        Some(p) => concat_str("-p", p),
        None => {
            proof {
                reveal_strlit("-p");
            }
            let r = String::from_str("-p");
            assert(r@ =~= "-p"@ + Seq::<char>::empty());
            r
        },
    }
}

/// The password as a plain value.
pub open spec fn password_view(password: Option<&str>) -> Option<Seq<char>> {
    match password {
        Some(p) => Some(p@),
        None => None,
    }
}

impl sevenZip {
    /// The program whose executable stands at `zipProgram`.
    pub fn with_program(zipProgram: String) -> (r: sevenZip)
        ensures
            r.program() == zipProgram@,
    {
        sevenZip { zipProgram }
    }

    /// The path of the executable.
    pub closed spec fn program(&self) -> Seq<char> {
        self.zipProgram@
    }

    /// The path of the executable.
    pub fn zipProgram(&self) -> (r: &String)
        ensures
            r@ == self.program(),
    {
        &self.zipProgram
    }

    /// The arguments that pack everything under `inputPath` into the 7z
    /// archive `outPath`: strongest compression, 8 MB solid blocks,
    /// multithreaded, recursing into subdirectories.
    pub fn createArchivePageArgs(inputPath: &str, outPath: &str) -> (r: Vec<String>)
        ensures
            strings_view(r@) == seq![
                "a"@, "-t7z"@, outPath@, inputPath@ + "\\*"@, "-mx=9"@, "-ms=8m"@, "-mmt"@, "-r"@,
            ],
    {
        let mut args: Vec<String> = Vec::new();
        args.push(String::from_str("a"));
        args.push(String::from_str("-t7z"));
        args.push(String::from_str(outPath));
        args.push(concat_str(inputPath, "\\*"));
        args.push(String::from_str("-mx=9"));
        args.push(String::from_str("-ms=8m"));
        args.push(String::from_str("-mmt"));
        args.push(String::from_str("-r"));
        assert(strings_view(args@) =~= seq![
            "a"@, "-t7z"@, outPath@, inputPath@ + "\\*"@, "-mx=9"@, "-ms=8m"@, "-mmt"@, "-r"@,
        ]);
        args
    }

    /// Packing succeeded when the report says `Everything is Ok`.
    pub fn createArchivePageSucceeded(output: &str) -> (r: bool)
        ensures
            r == mentions(output@, "Everything is Ok"@),
    {
        mentionsStr(output, "Everything is Ok")
    }

    /// The arguments that extract `extractPath` from `zipFile` into `outPath`
    /// without the directories of the archive, keeping existing files.
    pub fn extractFilesArgs(zipFile: &str, password: Option<&str>, extractPath: &str, outPath: &str) -> (r: Vec<String>)
        ensures
            strings_view(r@) == seq![
                "e"@,
                zipFile@,
                extractPath@,
                "-y"@,
                "-aos"@,
                password_switch(password_view(password)),
                "-o"@ + outPath@,
            ],
    {
        let mut args: Vec<String> = Vec::new();
        args.push(String::from_str("e"));
        args.push(String::from_str(zipFile));
        args.push(String::from_str(extractPath));
        args.push(String::from_str("-y"));
        args.push(String::from_str("-aos"));
        args.push(password_switch_exec(password));
        args.push(concat_str("-o", outPath));
        assert(strings_view(args@) =~= seq![
            "e"@,
            zipFile@,
            extractPath@,
            "-y"@,
            "-aos"@,
            password_switch(password_view(password)),
            "-o"@ + outPath@,
        ]);
        args
    }

    /// Extraction found something unless the report says `No files to process`.
    pub fn extractFilesSucceeded(output: &str) -> (r: bool)
        ensures
            r == !mentions(output@, "No files to process"@),
    {
        !mentionsStr(output, "No files to process")
    }

    /// The arguments that extract `extractPath` (everything when it is empty)
    /// from `zipFile` into `outPath` with full paths, keeping existing files.
    pub fn extractFilesFromPathArgs(zipFile: &str, password: Option<&str>, extractPath: &str, outPath: &str) -> (r: Vec<String>)
        ensures
            strings_view(r@) == seq![
                "x"@,
                zipFile@,
                if extractPath@.len() > 0 { extractPath@ } else { "*"@ },
                "-y"@,
                "-aos"@,
                password_switch(password_view(password)),
                "-o"@ + outPath@,
            ],
    {
        let mut args: Vec<String> = Vec::new();
        args.push(String::from_str("x"));
        args.push(String::from_str(zipFile));
        if !extractPath.is_empty() {
            args.push(String::from_str(extractPath));
        } else {
            args.push(String::from_str("*"));
        }
        args.push(String::from_str("-y"));
        args.push(String::from_str("-aos"));
        args.push(password_switch_exec(password));
        args.push(concat_str("-o", outPath));
        assert(strings_view(args@) =~= seq![
            "x"@,
            zipFile@,
            if extractPath@.len() > 0 { extractPath@ } else { "*"@ },
            "-y"@,
            "-aos"@,
            password_switch(password_view(password)),
            "-o"@ + outPath@,
        ]);
        args
    }

    /// Extraction with full paths succeeded when the report says
    /// `Everything is Ok`.
    pub fn extractFilesFromPathSucceeded(output: &str) -> (r: bool)
        ensures
            r == mentions(output@, "Everything is Ok"@),
    {
        mentionsStr(output, "Everything is Ok")
    }

    /// The arguments that extract the files matching `extractPath` from
    /// `zipFile` into `outPath`, recursing into subdirectories, with full
    /// paths, keeping existing files.
    pub fn extractFilesFromPathRecurseSubdirectoriesArgs(zipFile: &str, password: Option<&str>, extractPath: &str, outPath: &str) -> (r: Vec<String>)
        ensures
            strings_view(r@) == seq![
                "x"@,
                "-r"@,
                zipFile@,
                extractPath@,
                "-y"@,
                "-aos"@,
                password_switch(password_view(password)),
                "-o"@ + outPath@,
            ],
    {
        let mut args: Vec<String> = Vec::new();
        args.push(String::from_str("x"));
        args.push(String::from_str("-r"));
        args.push(String::from_str(zipFile));
        args.push(String::from_str(extractPath));
        args.push(String::from_str("-y"));
        args.push(String::from_str("-aos"));
        args.push(password_switch_exec(password));
        args.push(concat_str("-o", outPath));
        assert(strings_view(args@) =~= seq![
            "x"@,
            "-r"@,
            zipFile@,
            extractPath@,
            "-y"@,
            "-aos"@,
            password_switch(password_view(password)),
            "-o"@ + outPath@,
        ]);
        args
    }

    /// Recursive extraction succeeded unless the report says `No files to
    /// process`, `Errors` or `Can't open as archive`.
    pub fn extractFilesFromPathRecurseSubdirectoriesSucceeded(output: &str) -> (r: bool)
        ensures
            r == (!mentions(output@, "No files to process"@) && !mentions(output@, "Errors"@)
                && !mentions(output@, "Can't open as archive"@)),
    {
        !mentionsStr(output, "No files to process") && !mentionsStr(output, "Errors")
            && !mentionsStr(output, "Can't open as archive")
    }

    /// The arguments that list the contents of `zipFile`, bare, in UTF-8.
    pub fn isDriverPackageArgs(zipFile: &str) -> (r: Vec<String>)
        ensures
            strings_view(r@) == seq!["l"@, "-ba"@, "-sccUTF-8"@, zipFile@],
    {
        let mut args: Vec<String> = Vec::new();
        args.push(String::from_str("l"));
        args.push(String::from_str("-ba"));
        args.push(String::from_str("-sccUTF-8"));
        args.push(String::from_str(zipFile));
        assert(strings_view(args@) =~= seq!["l"@, "-ba"@, "-sccUTF-8"@, zipFile@]);
        args
    }

    /// A listing shows a driver package when, lower-cased, it mentions `.inf`.
    pub fn isDriverPackageListing(output: &str) -> (r: bool)
        ensures
            r == mentions(spec_to_lowercase(output@), ".inf"@),
    {
        let lower = to_lowercase(output);
        mentionsStr(lower.as_str(), ".inf")
    }
}

} // verus!
