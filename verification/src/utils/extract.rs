//! The command lines of a 7-Zip program driven through a process.
use vstd::prelude::*;
use crate::text::strings_view;

verus! {

/// Where the 7-Zip program is looked for by default.
pub const __7Z_PATH: &'static str = "./lib7z.dll";

/// The program to run and the switches added to every command.
#[derive(Debug)]
pub struct SevenZipOptions {
    pub path: String,
    pub switches: Vec<String>,
}

impl Default for SevenZipOptions {
    fn default() -> (r: Self)
        ensures
            r.path@ == "./lib7z.dll"@,
            r.switches@.len() == 0,
    {
        SevenZipOptions { path: String::from_str(__7Z_PATH), switches: Vec::new() }
    }
}

/// A 7-Zip program with its options.
#[derive(Debug)]
pub struct SevenZip {
    options: SevenZipOptions,
}

/// `a` followed by `b`.
pub fn concat_str(a: &str, b: &str) -> (r: String)
    ensures
        r@ == a@ + b@,
{
    let mut r = String::from_str(a);
    r.append(b);
    r
}

/// A copy of a list of strings followed by another.
fn append_strings(out: &mut Vec<String>, more: &Vec<String>)
    ensures
        strings_view(final(out)@) == strings_view(old(out)@) + strings_view(more@),
{
    let ghost start = strings_view(out@);
    let n = more.len();
    let mut i: usize = 0;
    while i < n
        invariant
            i <= n,
            n == more@.len(),
            strings_view(out@) =~= start + strings_view(more@).take(i as int),
        decreases n - i,
    {
        let s = more[i].clone();
        let ghost prev = strings_view(out@);
        out.push(s);
        assert(strings_view(out@) =~= prev.push(more@[i as int]@));
        assert(strings_view(more@).take(i + 1) =~= strings_view(more@).take(i as int).push(
            more@[i as int]@,
        ));
        i = i + 1;
        assert(strings_view(out@) =~= start + strings_view(more@).take(i as int));
    }
    assert(strings_view(more@).take(n as int) =~= strings_view(more@));
}

impl SevenZip {
    /// The program with the given options.
    pub fn new(options: SevenZipOptions) -> (r: Self)
        ensures
            r.path() == options.path@,
            r.switches() == strings_view(options.switches@),
    {
        Self { options }
    }

    /// The path of the program.
    pub closed spec fn path(&self) -> Seq<char> {
        self.options.path@
    }

    /// The switches added to every command.
    pub closed spec fn switches(&self) -> Seq<Seq<char>> {
        strings_view(self.options.switches@)
    }

    /// The switches of an extraction of `archive` into `target` with full
    /// paths, recursing into subdirectories; existing files are overwritten
    /// when `overwrite`, else kept.
    pub fn unzipSwitches(archive: &str, target: &str, overwrite: bool) -> (r: Vec<String>)
        ensures
            strings_view(r@) == seq![
                archive@,
                "-o"@ + target@,
                "-r"@,
                if overwrite { "-aoa"@ } else { "-aos"@ },
            ],
    {
        let mut args: Vec<String> = Vec::new();
        args.push(String::from_str(archive));
        args.push(concat_str("-o", target));
        args.push(String::from_str("-r"));
        if overwrite {
            args.push(String::from_str("-aoa"));
        } else {
            args.push(String::from_str("-aos"));
        }
        assert(strings_view(args@) =~= seq![
            archive@,
            "-o"@ + target@,
            "-r"@,
            if overwrite { "-aoa"@ } else { "-aos"@ },
        ]);
        args
    }

    /// The full command line of `subcommand` with `switches`: the program,
    /// the subcommand, the given switches, then the switches of the options.
    pub fn callArgs(&self, subcommand: &str, switches: &Vec<String>) -> (r: Vec<String>)
        ensures
            strings_view(r@) == seq![self.path(), subcommand@] + strings_view(switches@)
                + self.switches(),
    {
        let mut args: Vec<String> = Vec::new();
        args.push(self.options.path.clone());
        args.push(String::from_str(subcommand));
        assert(strings_view(args@) =~= seq![self.path(), subcommand@]);
        append_strings(&mut args, switches);
        append_strings(&mut args, &self.options.switches);
        args
    }
}

} // verus!
