//! Driver information read from INF files: the hardware ids a driver serves,
//! its class, the architectures it supports, its date and version.
use vstd::prelude::*;
use crate::text::{
    ascii_lower, chars_of, find_chars_from, find_spec, lemma_find_from_props, occurs_at, pieces_view,
    replace_chars, replace_spec, split_at_char, split_chars, string_of, strings_view,
    to_uppercase, spec_to_uppercase, lemma_split_nonempty,
};
use crate::utils::devcon::clone_strings;

verus! {

/// The driver described by one INF file.
pub struct InfInfo {
    /// Directory of the INF file, relative to the package root.
    pub Path: String,
    /// File name of the INF file.
    pub Inf: String,
    /// Device class (`Class=`).
    pub Class: String,
    /// Supported architectures (`NTx86`, `NTamd64`, ...).
    pub Arch: Vec<String>,
    /// Driver date (first field of `DriverVer=`).
    pub Date: String,
    /// Driver version (second field of `DriverVer=`).
    pub Version: String,
    /// Hardware ids the driver serves, upper-cased, without repetition.
    pub DriverList: Vec<String>,
}

/// The plain contents of an [`InfInfo`].
pub struct InfModel {
    pub path: Seq<char>,
    pub inf: Seq<char>,
    pub class: Seq<char>,
    pub arch: Seq<Seq<char>>,
    pub date: Seq<char>,
    pub version: Seq<char>,
    pub driver_list: Seq<Seq<char>>,
}

impl View for InfInfo {
    type V = InfModel;

    open spec fn view(&self) -> InfModel {
        InfModel {
            path: self.Path@,
            inf: self.Inf@,
            class: self.Class@,
            arch: strings_view(self.Arch@),
            date: self.Date@,
            version: self.Version@,
            driver_list: strings_view(self.DriverList@),
        }
    }
}

impl InfInfo {
    /// A copy of this driver information.
    pub fn copy(&self) -> (r: InfInfo)
        ensures
            r@ == self@,
    {
        InfInfo {
            Path: self.Path.clone(),
            Inf: self.Inf.clone(),
            Class: self.Class.clone(),
            Arch: clone_strings(&self.Arch),
            Date: self.Date.clone(),
            Version: self.Version.clone(),
            DriverList: clone_strings(&self.DriverList),
        }
    }
}

impl Clone for InfInfo {
    fn clone(&self) -> (r: Self)
        ensures
            r@ == self@,
    {
        self.copy()
    }
}

// ---------------------------------------------------------------------------
// Case-insensitive matching of ASCII patterns
// ---------------------------------------------------------------------------

/// `c` matches the pattern character `x` ignoring case, by the Unicode simple
/// case folding that case-insensitive regular expressions use: the other
/// ASCII case, and the Kelvin sign for `k` and the long s for `s`.
pub open spec fn ci_char_eq(c: char, x: char) -> bool {
    ||| c == x
    ||| ('a' <= x && x <= 'z' && (c as int) == (x as int) - 32)
    ||| ('A' <= x && x <= 'Z' && (c as int) == (x as int) + 32)
    ||| ((x == 'k' || x == 'K') && c == '\u{212A}')
    ||| ((x == 's' || x == 'S') && c == '\u{17F}')
}

fn ci_char_eq_exec(c: char, x: char) -> (r: bool)
    ensures
        r == ci_char_eq(c, x),
{
    let cc = c as u32;
    let xx = x as u32;
    c == x || ('a' <= x && x <= 'z' && cc + 32 == xx) || ('A' <= x && x <= 'Z' && cc == xx + 32)
        || ((x == 'k' || x == 'K') && c == '\u{212A}') || ((x == 's' || x == 'S') && c
        == '\u{17F}')
}

/// `t` occurs in `s` at index `i`, ignoring case.
pub open spec fn ci_occurs_at(s: Seq<char>, t: Seq<char>, i: int) -> bool {
    &&& 0 <= i
    &&& i + t.len() <= s.len()
    &&& forall|j: int| 0 <= j < t.len() ==> ci_char_eq(#[trigger] s[i + j], t[j])
}

fn ci_matches_at(s: &Vec<char>, t: &Vec<char>, i: usize) -> (r: bool)
    ensures
        r == ci_occurs_at(s@, t@, i as int),
{
    let n = s.len();
    let m = t.len();
    if i > n || m > n - i {
        return false;
    }
    let mut j: usize = 0;
    while j < m
        invariant
            j <= m,
            n == s@.len(),
            m == t@.len(),
            i + m <= n,
            forall|k: int| 0 <= k < j ==> ci_char_eq(#[trigger] s@[i + k], t@[k]),
        decreases m - j,
    {
        if !ci_char_eq_exec(s[i + j], t[j]) {
            return false;
        }
        j = j + 1;
    }
    true
}

// ---------------------------------------------------------------------------
// Hardware ids
// ---------------------------------------------------------------------------

/// The bus types whose hardware ids an INF file is scanned for
/// (the enumerators under `HKLM\SYSTEM\ControlSet001\Enum`).
pub open spec fn driver_types() -> Seq<Seq<char>> {
    seq![
        "1394"@, "ACPI"@, "ACPI_HAL"@, "AVC"@, "BTH"@, "BTHENUM"@, "BTHHFENUM"@, "DISPLAY"@,
        "HDAUDIO"@, "HID"@, "HTREE"@, "PCI"@, "PCMCIA"@, "ROOT"@, "SCSI"@, "SCMLD"@, "SD"@,
        "SERENUM"@, "Sensors"@, "STORAGE"@, "SW"@, "SWD"@, "TERMINPUT_BUS"@,
        "TS_USB_HUB_Enumerator"@, "UEFI"@, "UMB"@, "USB"@, "USBSTOR"@, "VMBUS"@,
    ]
}

fn driver_types_exec() -> (r: Vec<&'static str>)
    ensures
        r@.len() == driver_types().len(),
        forall|i: int| 0 <= i < r@.len() ==> r@[i]@ == #[trigger] driver_types()[i],
{
    vec![
        "1394", "ACPI", "ACPI_HAL", "AVC", "BTH", "BTHENUM", "BTHHFENUM", "DISPLAY", "HDAUDIO",
        "HID", "HTREE", "PCI", "PCMCIA", "ROOT", "SCSI", "SCMLD", "SD", "SERENUM", "Sensors",
        "STORAGE", "SW", "SWD", "TERMINPUT_BUS", "TS_USB_HUB_Enumerator", "UEFI", "UMB", "USB",
        "USBSTOR", "VMBUS",
    ]
}

/// A character that ends a hardware id: `,`, `;` or white space.
pub open spec fn ends_hwid(c: char) -> bool {
    c == ',' || c == ';' || c == ' ' || c == '\x0C' || c == '\n' || c == '\r' || c == '\t' || c
        == '\x0B'
}

/// A character that ends the value of an INF entry: `;` or white space.
pub open spec fn ends_value(c: char) -> bool {
    c == ';' || c == ' ' || c == '\x0C' || c == '\n' || c == '\r' || c == '\t' || c == '\x0B'
}

fn ends_hwid_exec(c: char) -> (r: bool)
    ensures
        r == ends_hwid(c),
{
    c == ',' || c == ';' || c == ' ' || c == '\x0C' || c == '\n' || c == '\r' || c == '\t' || c
        == '\x0B'
}

fn ends_value_exec(c: char) -> (r: bool)
    ensures
        r == ends_value(c),
{
    c == ';' || c == ' ' || c == '\x0C' || c == '\n' || c == '\r' || c == '\t' || c == '\x0B'
}

/// The end of the run of characters that starts at `k` and stops before the
/// first character for which `hwid` (hardware ids) or otherwise an entry's
/// value ends.
pub open spec fn run_end(s: Seq<char>, k: int, hwid: bool) -> int
    decreases s.len() - k,
{
    if k < 0 {
        0
    } else if k >= s.len() {
        s.len() as int
    } else if (hwid && ends_hwid(s[k])) || (!hwid && ends_value(s[k])) {
        k
    } else {
        run_end(s, k + 1, hwid)
    }
}

proof fn lemma_run_end_bounds(s: Seq<char>, k: int, hwid: bool)
    requires
        0 <= k <= s.len(),
    ensures
        k <= run_end(s, k, hwid) <= s.len(),
    decreases s.len() - k,
{
    if k < s.len() && !((hwid && ends_hwid(s[k])) || (!hwid && ends_value(s[k]))) {
        lemma_run_end_bounds(s, k + 1, hwid);
    }
}

fn run_end_exec(s: &Vec<char>, k: usize, hwid: bool) -> (r: usize)
    requires
        k <= s@.len(),
    ensures
        r as int == run_end(s@, k as int, hwid),
{
    let n = s.len();
    let mut e: usize = k;
    while e < n
        invariant
            k <= e <= n,
            n == s@.len(),
            run_end(s@, k as int, hwid) == run_end(s@, e as int, hwid),
        decreases n - e,
    {
        let c = s[e];
        let stop = if hwid {
            ends_hwid_exec(c)
        } else {
            ends_value_exec(c)
        };
        if stop {
            return e;
        }
        e = e + 1;
    }
    e
}

/// A hardware id of bus type `t` starts at index `p`: `,` then `t` (ignoring
/// case), a backslash and at least one character that does not end an id.
/// This is where the pattern `,TYPE\\[^,; \f\n\r\t\v]+` matches; such matches
/// cannot overlap, since only their first character is a comma.
pub open spec fn hwid_match_at(s: Seq<char>, t: Seq<char>, p: int) -> bool {
    &&& 0 <= p
    &&& p + t.len() + 2 < s.len()
    &&& s[p] == ','
    &&& ci_occurs_at(s, t, p + 1)
    &&& s[p + 1 + t.len()] == '\\'
    &&& !ends_hwid(s[p + 2 + t.len()])
}

/// The hardware id found at `p`: the matched text without its comma, upper-cased.
pub open spec fn hwid_at(s: Seq<char>, t: Seq<char>, p: int) -> Seq<char> {
    spec_to_uppercase(
        replace_spec(s.subrange(p, run_end(s, p + 2 + t.len(), true)), ","@, Seq::<char>::empty()),
    )
}

/// The hardware ids of bus type `t` that start before index `k`, in order.
pub open spec fn hwids_upto(s: Seq<char>, t: Seq<char>, k: int) -> Seq<Seq<char>>
    decreases k,
{
    if k <= 0 || k > s.len() {
        Seq::<Seq<char>>::empty()
    } else if hwid_match_at(s, t, k - 1) {
        hwids_upto(s, t, k - 1).push(hwid_at(s, t, k - 1))
    } else {
        hwids_upto(s, t, k - 1)
    }
}

/// The hardware ids of the first `n` bus types, type by type.
pub open spec fn hwids_of_types(s: Seq<char>, n: int) -> Seq<Seq<char>>
    decreases n,
{
    if n <= 0 || n > driver_types().len() {
        Seq::<Seq<char>>::empty()
    } else {
        hwids_of_types(s, n - 1) + hwids_upto(s, driver_types()[n - 1], s.len() as int)
    }
}

/// `ids` without repetitions, each kept where it first appears.
pub open spec fn dedup(ids: Seq<Seq<char>>) -> Seq<Seq<char>>
    decreases ids.len(),
{
    if ids.len() == 0 {
        ids
    } else {
        let d = dedup(ids.drop_last());
        if d.contains(ids.last()) {
            d
        } else {
            d.push(ids.last())
        }
    }
}

/// Whether `list` holds a string equal to `s`.
pub fn contains_string(list: &Vec<String>, s: &String) -> (r: bool)
    ensures
        r == strings_view(list@).contains(s@),
{
    let n = list.len();
    let mut i: usize = 0;
    while i < n
        invariant
            i <= n,
            n == list@.len(),
            forall|j: int| 0 <= j < i ==> strings_view(list@)[j] != s@,
        decreases n - i,
    {
        if list[i] == *s {
            assert(strings_view(list@)[i as int] == s@);
            return true;
        }
        i = i + 1;
    }
    false
}

/// Appends to `idList` the hardware ids of bus type `t` that it does not hold yet.
fn collect_hwids(content: &Vec<char>, t: &Vec<char>, idList: &mut Vec<String>)
    ensures
        strings_view(final(idList)@) == dedup_append(
            strings_view(old(idList)@),
            hwids_upto(content@, t@, content@.len() as int),
        ),
{
    let n = content.len();
    let m = t.len();
    let comma = chars_of(",");
    let nothing: Vec<char> = Vec::new();
    proof {
        reveal_strlit(",");
    }
    let ghost start = strings_view(idList@);
    let mut p: usize = 0;
    while p < n
        invariant
            p <= n,
            n == content@.len(),
            m == t@.len(),
            comma@ == ","@,
            ","@.len() == 1,
            nothing@ == Seq::<char>::empty(),
            strings_view(idList@) == dedup_append(start, hwids_upto(content@, t@, p as int)),
        decreases n - p,
    {
        let ghost before = strings_view(idList@);
        let hit = n >= 2 && p < n - 2 && m < n - 2 - p && content[p] == ',' && ci_matches_at(
            content,
            t,
            p + 1,
        ) && content[p + 1 + m] == '\\' && !ends_hwid_exec(content[p + 2 + m]);
        assert(hit == hwid_match_at(content@, t@, p as int));
        if hit {
            let e = run_end_exec(content, p + 2 + m, true);
            proof {
                lemma_run_end_bounds(content@, p + 2 + m, true);
            }
            let mut text: Vec<char> = Vec::new();
            let mut j: usize = p;
            while j < e
                invariant
                    p <= j <= e,
                    e <= n,
                    n == content@.len(),
                    text@ == content@.subrange(p as int, j as int),
                decreases e - j,
            {
                text.push(content[j]);
                j = j + 1;
                assert(text@ =~= content@.subrange(p as int, j as int));
            }
            let stripped = replace_chars(&text, &comma, &nothing);
            let stripped = string_of(&stripped);
            let id = to_uppercase(stripped.as_str());
            assert(id@ == hwid_at(content@, t@, p as int));
            let ghost prev = hwids_upto(content@, t@, p as int);
            assert(hwids_upto(content@, t@, p + 1) == prev.push(hwid_at(content@, t@, p as int)));
            assert(prev.push(hwid_at(content@, t@, p as int)).drop_last() =~= prev);
            if !contains_string(idList, &id) {
                idList.push(id);
                assert(strings_view(idList@) =~= before.push(hwid_at(content@, t@, p as int)));
            }
        } else {
            assert(hwids_upto(content@, t@, p + 1) == hwids_upto(content@, t@, p as int));
        }
        p = p + 1;
    }
}

/// The strings of `ids`, in order, appended to `d` when `d` does not hold
/// them yet.
pub open spec fn dedup_append(d: Seq<Seq<char>>, ids: Seq<Seq<char>>) -> Seq<Seq<char>>
    decreases ids.len(),
{
    if ids.len() == 0 {
        d
    } else {
        let e = dedup_append(d, ids.drop_last());
        if e.contains(ids.last()) {
            e
        } else {
            e.push(ids.last())
        }
    }
}

proof fn lemma_dedup_append_concat(d: Seq<Seq<char>>, a: Seq<Seq<char>>, b: Seq<Seq<char>>)
    ensures
        dedup_append(dedup_append(d, a), b) == dedup_append(d, a + b),
    decreases b.len(),
{
    if b.len() > 0 {
        lemma_dedup_append_concat(d, a, b.drop_last());
        assert((a + b).drop_last() =~= a + b.drop_last());
        assert((a + b).last() == b.last());
    } else {
        assert(a + b =~= a);
    }
}

proof fn lemma_dedup_is_append(ids: Seq<Seq<char>>)
    ensures
        dedup(ids) == dedup_append(Seq::<Seq<char>>::empty(), ids),
    decreases ids.len(),
{
    if ids.len() > 0 {
        lemma_dedup_is_append(ids.drop_last());
    }
}

/// The hardware ids that an INF text names, upper-cased, bus type by bus
/// type, each kept once where it first appears.
pub open spec fn driver_list_spec(content: Seq<char>) -> Seq<Seq<char>> {
    dedup(hwids_of_types(content, driver_types().len() as int))
}

fn collect_all_hwids(content: &Vec<char>) -> (r: Vec<String>)
    ensures
        strings_view(r@) == driver_list_spec(content@),
{
    let types = driver_types_exec();
    let mut idList: Vec<String> = Vec::new();
    let nt = types.len();
    let mut k: usize = 0;
    proof {
        lemma_dedup_is_append(hwids_of_types(content@, 0));
    }
    while k < nt
        invariant
            k <= nt,
            nt == driver_types().len(),
            types@.len() == nt,
            forall|i: int| 0 <= i < types@.len() ==> types@[i]@ == #[trigger] driver_types()[i],
            strings_view(idList@) == dedup_append(
                Seq::<Seq<char>>::empty(),
                hwids_of_types(content@, k as int),
            ),
        decreases nt - k,
    {
        let t = chars_of(types[k]);
        assert(t@ == driver_types()[k as int]);
        collect_hwids(content, &t, &mut idList);
        proof {
            lemma_dedup_append_concat(
                Seq::<Seq<char>>::empty(),
                hwids_of_types(content@, k as int),
                hwids_upto(content@, t@, content@.len() as int),
            );
        }
        k = k + 1;
    }
    proof {
        lemma_dedup_is_append(hwids_of_types(content@, nt as int));
    }
    idList
}

/// The hardware ids that an INF file names never repeat.
pub proof fn law_driver_list_has_no_repetition(content: Seq<char>)
    ensures
        driver_list_spec(content).no_duplicates(),
{
    lemma_dedup_no_duplicates(hwids_of_types(content, driver_types().len() as int));
}

proof fn lemma_dedup_no_duplicates(ids: Seq<Seq<char>>)
    ensures
        dedup(ids).no_duplicates(),
    decreases ids.len(),
{
    if ids.len() > 0 {
        lemma_dedup_no_duplicates(ids.drop_last());
    }
}

// ---------------------------------------------------------------------------
// Entries, architectures, date and version
// ---------------------------------------------------------------------------

/// The value of the first entry `name=` in `s`: the text from that `name=`
/// up to the next `;` or white space, with every `name=` in it removed;
/// empty when there is no such entry.
pub open spec fn item_value(s: Seq<char>, name: Seq<char>) -> Seq<char> {
    let key = name + "="@;
    match find_spec(s, key) {
        Some(i) => replace_spec(
            s.subrange(i, run_end(s, i + key.len(), false)),
            key,
            Seq::<char>::empty(),
        ),
        None => Seq::<char>::empty(),
    }
}

fn item_value_exec(s: &Vec<char>, name: &str) -> (r: String)
    ensures
        r@ == item_value(s@, name@),
{
    proof {
        reveal_strlit("=");
    }
    let mut key = chars_of(name);
    key.push('=');
    assert(key@ == name@ + "="@);
    match find_chars_from(s, &key, 0) {
        Some(i) => {
            proof {
                lemma_find_from_props(s@, key@, 0);
                assert(occurs_at(s@, key@, i as int));
            }
            let klen = key.len();
            let slen = s.len();
            assert(i + klen <= slen);
            let e = run_end_exec(s, i + klen, false);
            proof {
                lemma_run_end_bounds(s@, i + key@.len(), false);
            }
            let mut text: Vec<char> = Vec::new();
            let mut j: usize = i;
            while j < e
                invariant
                    i <= j <= e,
                    e <= s@.len(),
                    text@ == s@.subrange(i as int, j as int),
                decreases e - j,
            {
                text.push(s[j]);
                j = j + 1;
                assert(text@ =~= s@.subrange(i as int, j as int));
            }
            let nothing: Vec<char> = Vec::new();
            let value = replace_chars(&text, &key, &nothing);
            assert(nothing@ =~= Seq::<char>::empty());
            string_of(&value)
        },
        None => String::new(),
    }
}

/// The architectures an INF file can name, in the order they are reported.
pub open spec fn system_archs() -> Seq<Seq<char>> {
    seq!["NTx86"@, "NTia64"@, "NTarm"@, "NTarm64"@, "NTamd64"@]
}

fn system_archs_exec() -> (r: Vec<&'static str>)
    ensures
        r@.len() == system_archs().len(),
        forall|i: int| 0 <= i < r@.len() ==> r@[i]@ == #[trigger] system_archs()[i],
{
    vec!["NTx86", "NTia64", "NTarm", "NTarm64", "NTamd64"]
}

/// `t` occurs somewhere in `s`, ignoring case.
pub open spec fn ci_contains(s: Seq<char>, t: Seq<char>) -> bool {
    exists|i: int| ci_occurs_at(s, t, i)
}

fn ci_contains_exec(s: &Vec<char>, t: &Vec<char>) -> (r: bool)
    ensures
        r == ci_contains(s@, t@),
{
    let n = s.len();
    let mut i: usize = 0;
    while i < n
        invariant
            i <= n,
            n == s@.len(),
            forall|j: int| 0 <= j < i ==> !ci_occurs_at(s@, t@, j),
        decreases n - i,
    {
        if ci_matches_at(s, t, i) {
            return true;
        }
        i = i + 1;
    }
    if ci_matches_at(s, t, n) {
        return true;
    }
    assert forall|j: int| !ci_occurs_at(s@, t@, j) by {
        if ci_occurs_at(s@, t@, j) {
            assert(j <= n);
        }
    }
    false
}

/// The architectures named anywhere in `s`, ignoring case, in the order of
/// [`system_archs`].
pub open spec fn archs_spec(s: Seq<char>) -> Seq<Seq<char>> {
    system_archs().filter(|a: Seq<char>| ci_contains(s, a))
}

fn archs_exec(s: &Vec<char>) -> (r: Vec<String>)
    ensures
        strings_view(r@) == archs_spec(s@),
{
    let archs = system_archs_exec();
    let mut out: Vec<String> = Vec::new();
    let n = archs.len();
    let mut i: usize = 0;
    while i < n
        invariant
            i <= n,
            n == system_archs().len(),
            archs@.len() == n,
            forall|j: int| 0 <= j < archs@.len() ==> archs@[j]@ == #[trigger] system_archs()[j],
            strings_view(out@) =~= system_archs().take(i as int).filter(
                |a: Seq<char>| ci_contains(s@, a),
            ),
        decreases n - i,
    {
        let a = chars_of(archs[i]);
        assert(system_archs().take(i + 1).drop_last() =~= system_archs().take(i as int));
        assert(system_archs().take(i + 1).last() == a@);
        reveal_with_fuel(Seq::filter, 1);
        if ci_contains_exec(s, &a) {
            let name = String::from_str(archs[i]);
            let ghost before = strings_view(out@);
            out.push(name);
            assert(strings_view(out@) =~= before.push(a@));
        }
        i = i + 1;
    }
    assert(system_archs().take(n as int) =~= system_archs());
    out
}

/// `a` occurs in `s` at index `i` when ASCII letters are compared without
/// regard to case.
pub open spec fn occurs_ignoring_ascii_case_at(s: Seq<char>, a: Seq<char>, i: int) -> bool {
    &&& 0 <= i
    &&& i + a.len() <= s.len()
    &&& forall|j: int| 0 <= j < a.len() ==> #[trigger] ascii_lower(s[i + j]) == ascii_lower(a[j])
}

/// A character of an architecture name: a digit, or an ASCII letter other
/// than those with a non-ASCII case partner (`k`, `s`).
spec fn plain_pattern_char(x: char) -> bool {
    ||| ('0' <= x && x <= '9')
    ||| ('a' <= x && x <= 'z' && x != 'k' && x != 's')
    ||| ('A' <= x && x <= 'Z' && x != 'K' && x != 'S')
}

proof fn lemma_plain_char(c: char, x: char)
    requires
        plain_pattern_char(x),
    ensures
        ci_char_eq(c, x) <==> ascii_lower(c) == ascii_lower(x),
{
    let cc = c as u32;
    let xx = x as u32;
    if 65 <= cc && cc <= 90 {
        assert((((cc + 32) as char) as u32) == cc + 32);
    }
    if 65 <= xx && xx <= 90 {
        assert((((xx + 32) as char) as u32) == xx + 32);
    }
}

proof fn lemma_arch_name_chars(a: Seq<char>)
    requires
        a == "NTx86"@ || a == "NTia64"@ || a == "NTarm"@ || a == "NTarm64"@ || a == "NTamd64"@,
    ensures
        forall|j: int| 0 <= j < a.len() ==> plain_pattern_char(#[trigger] a[j]),
{
    reveal_strlit("NTx86");
    reveal_strlit("NTia64");
    reveal_strlit("NTarm");
    reveal_strlit("NTarm64");
    reveal_strlit("NTamd64");
}

/// The architectures an INF file supports are found ignoring ASCII case:
/// an architecture name is reported exactly when it occurs in the text
/// (spaces and tabs removed) in any mix of upper and lower case, so an INF
/// that names `ntamd64` or `NTAMD64` reports `NTamd64`.
pub proof fn law_architectures_found_ignoring_case(
    path: Seq<char>,
    inf: Seq<char>,
    content: Seq<char>,
    a: Seq<char>,
)
    requires
        a == "NTx86"@ || a == "NTia64"@ || a == "NTarm"@ || a == "NTarm64"@ || a == "NTamd64"@,
    ensures
        inf_model(path, inf, content).arch.contains(a) <==> exists|i: int|
            occurs_ignoring_ascii_case_at(squeezed(content), a, i),
{
    let s = squeezed(content);
    let pred = |x: Seq<char>| ci_contains(s, x);
    lemma_arch_name_chars(a);
    assert forall|i: int| ci_occurs_at(s, a, i) <==> occurs_ignoring_ascii_case_at(s, a, i) by {
        if 0 <= i && i + a.len() <= s.len() {
            assert forall|j: int| 0 <= j < a.len() implies (ci_char_eq(#[trigger] s[i + j], a[j])
                <==> ascii_lower(s[i + j]) == ascii_lower(a[j])) by {
                lemma_plain_char(s[i + j], a[j]);
            }
        }
    }
    reveal_strlit("NTx86");
    reveal_strlit("NTia64");
    reveal_strlit("NTarm");
    reveal_strlit("NTarm64");
    reveal_strlit("NTamd64");
    let k: int = if a == "NTx86"@ {
        0
    } else if a == "NTia64"@ {
        1
    } else if a == "NTarm"@ {
        2
    } else if a == "NTarm64"@ {
        3
    } else {
        4
    };
    assert(system_archs()[k] == a);
    if ci_contains(s, a) {
        system_archs().lemma_filter_contains(pred, k);
        let i = choose|i: int| ci_occurs_at(s, a, i);
        assert(occurs_ignoring_ascii_case_at(s, a, i));
    }
    if inf_model(path, inf, content).arch.contains(a) {
        let f = system_archs().filter(pred);
        let m = choose|m: int| 0 <= m < f.len() && f[m] == a;
        system_archs().lemma_filter_pred(pred, m);
        assert(ci_contains(s, a));
    }
    if exists|i: int| occurs_ignoring_ascii_case_at(s, a, i) {
        let i = choose|i: int| occurs_ignoring_ascii_case_at(s, a, i);
        assert(ci_occurs_at(s, a, i));
        assert(ci_contains(s, a));
        system_archs().lemma_filter_contains(pred, k);
    }
}

/// The INF text with every space and tab removed.
pub open spec fn squeezed(content: Seq<char>) -> Seq<char> {
    replace_spec(replace_spec(content, " "@, Seq::<char>::empty()), "\t"@, Seq::<char>::empty())
}

/// The value of `DriverVer=`, cut at its commas.
pub open spec fn driver_ver_fields(s: Seq<char>) -> Seq<Seq<char>> {
    split_at_char(item_value(s, "DriverVer"@), ',')
}

/// What an INF file says of its driver, read from its text `content`; `path`
/// and `inf` are the directory and file name of the INF file.
pub open spec fn inf_model(path: Seq<char>, inf: Seq<char>, content: Seq<char>) -> InfModel {
    let s = squeezed(content);
    let ver = driver_ver_fields(s);
    InfModel {
        path: path,
        inf: inf,
        class: item_value(s, "Class"@),
        arch: archs_spec(s),
        date: ver[0],
        version: if ver.len() > 1 {
            ver[1]
        } else {
            Seq::<char>::empty()
        },
        driver_list: driver_list_spec(s),
    }
}

impl InfInfo {
    /// Reads the driver information from the text of an INF file: the
    /// hardware ids it names, its `Class`, the architectures it mentions, and
    /// the date and version of its `DriverVer`. `path` and `inf` are stored
    /// as they are given.
    pub fn parsingInfContent(path: String, inf: String, content: &str) -> (r: InfInfo)
        ensures
            r@ == inf_model(path@, inf@, content@),
    {
        proof {
            reveal_strlit(" ");
            reveal_strlit("\t");
        }
        let nothing: Vec<char> = Vec::new();
        let c = chars_of(content);
        let space = chars_of(" ");
        let tab = chars_of("\t");
        let c = replace_chars(&c, &space, &nothing);
        let c = replace_chars(&c, &tab, &nothing);
        assert(nothing@ =~= Seq::<char>::empty());
        assert(c@ == squeezed(content@));
        let idList = collect_all_hwids(&c);
        let class = item_value_exec(&c, "Class");
        let arch = archs_exec(&c);
        let dateAndVersion = item_value_exec(&c, "DriverVer");
        let dv = chars_of(dateAndVersion.as_str());
        let fields = split_chars(&dv, ',');
        proof {
            lemma_split_nonempty(dv@, ',');
        }
        assert(pieces_view(fields@) == driver_ver_fields(c@));
        let date = string_of(&fields[0]);
        let version = if fields.len() > 1 {
            string_of(&fields[1])
        } else {
            String::new()
        };
        InfInfo {
            Path: path,
            Inf: inf,
            Class: class,
            Arch: arch,
            Date: date,
            Version: version,
            DriverList: idList,
        }
    }
}

// ---------------------------------------------------------------------------
// Character set detection and decoding
// ---------------------------------------------------------------------------

/// What `chardet::detect` reports as the character set of `bytes` (the first
/// field of its answer).
pub uninterp spec fn spec_detected_charset(bytes: Seq<u8>) -> Seq<char>;

/// Whether `encoding::label::encoding_from_whatwg_label` knows `label`.
pub uninterp spec fn spec_label_known(label: Seq<char>) -> bool;

/// What the encoding named by `label` decodes `bytes` to, skipping what it
/// cannot decode (`DecoderTrap::Ignore`).
pub uninterp spec fn spec_decoded(label: Seq<char>, bytes: Seq<u8>) -> Seq<char>;

/// Bytes that `chardet::detect` may stop on: some data, an escape byte, and
/// no byte with the high bit set other than `0xA0`. On such data its detector
/// ends in a state its `close` treats as unreachable, unless the escape
/// sequence prober recognised the text; which of the two happens is not
/// worked out here.
pub open spec fn charset_detection_may_fail(bytes: Seq<u8>) -> bool {
    &&& bytes.len() > 0
    &&& exists|i: int| 0 <= i < bytes.len() && #[trigger] bytes[i] == 0x1Bu8
    &&& forall|i: int| 0 <= i < bytes.len() ==> (#[trigger] bytes[i] < 0x80u8 || bytes[i] == 0xA0u8)
}

/// Bytes of ASCII text only, without escape bytes (`0xA0` counts as ASCII
/// to the detector).
pub open spec fn plain_ascii_bytes(bytes: Seq<u8>) -> bool {
    &&& bytes.len() > 0
    &&& forall|i: int|
        0 <= i < bytes.len() ==> (#[trigger] bytes[i] < 0x80u8 || bytes[i] == 0xA0u8) && bytes[i]
            != 0x1Bu8
}

/// Whether `charset_detection_may_fail` holds of `bytes`.
pub fn charsetDetectionMayFail(bytes: &[u8]) -> (r: bool)
    ensures
        r == charset_detection_may_fail(bytes@),
{
    let n = bytes.len();
    if n == 0 {
        return false;
    }
    let mut esc = false;
    let mut high = false;
    let mut i: usize = 0;
    while i < n
        invariant
            i <= n,
            n == bytes@.len(),
            esc == exists|j: int| 0 <= j < i && #[trigger] bytes@[j] == 0x1Bu8,
            high == exists|j: int| 0 <= j < i && !(#[trigger] bytes@[j] < 0x80u8 || bytes@[j] == 0xA0u8),
        decreases n - i,
    {
        let b = bytes[i];
        if b == 0x1B {
            esc = true;
        }
        if !(b < 0x80 || b == 0xA0) {
            high = true;
        }
        i = i + 1;
    }
    esc && !high
}

/// Calls `chardet::detect` and keeps the character set it reports. Its
/// result is named. As the crate's source shows: nothing is detected in no
/// data (the empty name), and plain ASCII text is reported as `ascii`.
#[verifier::external_body]
fn detect_charset(bytes: &[u8]) -> (r: String)
    requires
        !charset_detection_may_fail(bytes@),
    ensures
        r@ == spec_detected_charset(bytes@),
        bytes@.len() == 0 ==> r@ == Seq::<char>::empty(),
        plain_ascii_bytes(bytes@) ==> r@ == "ascii"@,
{
    chardet::detect(bytes).0
}

/// The encoding label for a detected character set, as
/// `chardet::charset2encoding` translates it.
pub open spec fn charset_label(charset: Seq<char>) -> Seq<char> {
    if charset == "CP932"@ {
        "windows-31j"@
    } else if charset == "CP949"@ {
        "windows-949"@
    } else if charset == "MacCyrillic"@ {
        "x-mac-cyrillic"@
    } else {
        charset
    }
}

/// Calls `chardet::charset2encoding`: three character sets get another
/// label, the others keep their name.
#[verifier::external_body]
fn charset_to_label(charset: &String) -> (r: String)
    ensures
        r@ == charset_label(charset@),
{
    chardet::charset2encoding(charset).to_string()
}

/// Every byte is below `0x80` or is `0xA0`.
pub open spec fn ascii_or_nbsp_bytes(bytes: Seq<u8>) -> bool {
    forall|i: int| 0 <= i < bytes.len() ==> (#[trigger] bytes[i] < 0x80u8 || bytes[i] == 0xA0u8)
}

/// The characters whose codes are the bytes.
pub open spec fn ascii_text(bytes: Seq<u8>) -> Seq<char> {
    bytes.map_values(|b: u8| b as char)
}

/// Calls `encoding::label::encoding_from_whatwg_label` and decodes `bytes`
/// with the encoding found, skipping undecodable input. `None` exactly when
/// the label is unknown; the decoding itself cannot fail with that trap.
/// `ascii` is a known label; it names windows-1252, which decodes bytes
/// below `0x80`, and `0xA0`, to the characters with those codes.
#[verifier::external_body]
fn decode_with_label(label: &str, bytes: &[u8]) -> (r: Option<String>)
    ensures
        r is Some <==> spec_label_known(label@),
        label@ == "ascii"@ ==> r is Some,
        r matches Some(t) ==> t@ == spec_decoded(label@, bytes@),
        r matches Some(t) ==> (label@ == "ascii"@ && ascii_or_nbsp_bytes(bytes@) ==> t@ == ascii_text(
            bytes@,
        )),
{
    match encoding::label::encoding_from_whatwg_label(label) {
        Some(coder) => Some(coder.decode(bytes, encoding::DecoderTrap::Ignore).unwrap_or_default()),
        None => None,
    }
}

/// The label of the character set detected in `bytes`.
pub open spec fn detected_label(bytes: Seq<u8>) -> Seq<char> {
    charset_label(spec_detected_charset(bytes))
}

/// The text of an INF file held in `bytes`, decoded with the detected
/// character set.
pub open spec fn inf_text(bytes: Seq<u8>) -> Seq<char> {
    spec_decoded(detected_label(bytes), bytes)
}

/// The character set `ascii` keeps its name as a label.
proof fn lemma_ascii_label(charset: Seq<char>)
    ensures
        charset == "ascii"@ ==> charset_label(charset) == "ascii"@,
{
    reveal_strlit("ascii");
    reveal_strlit("CP932");
    reveal_strlit("CP949");
    reveal_strlit("MacCyrillic");
    if charset == "ascii"@ {
        assert(charset[0] != "CP932"@[0]);
        assert(charset[0] != "CP949"@[0]);
        assert(charset.len() != "MacCyrillic"@.len());
    }
}

impl InfInfo {
    /// Reads the driver information from the bytes of an INF file: the
    /// character set is detected, the bytes decoded with it, and the text
    /// read as [`InfInfo::parsingInfContent`] does.
    pub fn parsingInfBytes(path: String, inf: String, bytes: &[u8]) -> (r: InfInfo)
        requires
            !charset_detection_may_fail(bytes@),
            spec_label_known(detected_label(bytes@)),
        ensures
            r@ == inf_model(path@, inf@, inf_text(bytes@)),
            plain_ascii_bytes(bytes@) ==> r@ == inf_model(path@, inf@, ascii_text(bytes@)),
    {
        let charset = detect_charset(bytes);
        let label = charset_to_label(&charset);
        proof {
            lemma_ascii_label(charset@);
        }
        match decode_with_label(label.as_str(), bytes) {
            Some(content) => InfInfo::parsingInfContent(path, inf, content.as_str()),
            None => {
                // the label is known
                InfInfo::parsingInfContent(path, inf, "")
            },
        }
    }

    /// As [`InfInfo::parsingInfBytes`], where the detected character set has
    /// a known encoding; `None` where it has none.
    pub fn tryParsingInfBytes(path: String, inf: String, bytes: &[u8]) -> (r: Option<InfInfo>)
        requires
            !charset_detection_may_fail(bytes@),
        ensures
            r is Some <==> spec_label_known(detected_label(bytes@)),
            r matches Some(info) ==> info@ == inf_model(path@, inf@, inf_text(bytes@)),
            plain_ascii_bytes(bytes@) ==> (r matches Some(info) && info@ == inf_model(
                path@,
                inf@,
                ascii_text(bytes@),
            )),
    {
        let charset = detect_charset(bytes);
        let label = charset_to_label(&charset);
        proof {
            lemma_ascii_label(charset@);
        }
        if decode_with_label(label.as_str(), bytes).is_some() {
            Some(InfInfo::parsingInfBytes(path, inf, bytes))
        } else {
            None
        }
    }

    /// Reads the driver information from the bytes of an INF file whose
    /// character set was detected as `charset`: the bytes are decoded with
    /// the encoding of that character set and the text read as
    /// [`InfInfo::parsingInfContent`] does; `None` where the character set
    /// has no known encoding.
    pub fn parsingInfWithCharset(path: String, inf: String, charset: &String, bytes: &[u8]) -> (r: Option<InfInfo>)
        ensures
            r is Some <==> spec_label_known(charset_label(charset@)),
            r matches Some(info) ==> info@ == inf_model(
                path@,
                inf@,
                spec_decoded(charset_label(charset@), bytes@),
            ),
    {
        let label = charset_to_label(charset);
        match decode_with_label(label.as_str(), bytes) {
            Some(content) => Some(InfInfo::parsingInfContent(path, inf, content.as_str())),
            None => None,
        }
    }
}

// ---------------------------------------------------------------------------
// Building an index
// ---------------------------------------------------------------------------

/// The name of the index file made for a package named `stem`: `stem.index`.
pub fn defaultIndexName(stem: &str) -> (r: String)
    ensures
        r@ == stem@ + ".index"@,
{
    crate::utils::extract::concat_str(stem, ".index")
}

/// Where an index file goes, relative to the driver package.
pub enum IndexLocation {
    /// The path as given (an absolute path).
    AsGiven,
    /// The path taken inside the driver directory.
    InDriverDirectory,
    /// The path taken in the directory that holds the package file.
    BesidePackage,
}

/// Where the index of a package is saved: an absolute save path as given; a
/// relative one inside the package when the package is a directory, else
/// beside the package file.
pub fn indexSaveLocation(packageIsDir: bool, saveIsRelative: bool) -> (r: IndexLocation)
    ensures
        !saveIsRelative ==> r == IndexLocation::AsGiven,
        saveIsRelative && packageIsDir ==> r == IndexLocation::InDriverDirectory,
        saveIsRelative && !packageIsDir ==> r == IndexLocation::BesidePackage,
{
    if !saveIsRelative {
        IndexLocation::AsGiven
    } else if packageIsDir {
        IndexLocation::InDriverDirectory
    } else {
        IndexLocation::BesidePackage
    }
}

/// What became of the INF files read for an index: the drivers kept (those
/// that name at least one hardware id), how many were kept, how many could
/// not be read, and how many named no hardware id.
pub struct IndexSummary {
    pub infInfoList: Vec<InfInfo>,
    pub successCount: usize,
    pub errorCount: usize,
    pub blankCount: usize,
}

/// The drivers kept among the first `k` results, and the three counts.
pub open spec fn summary_upto(rs: Seq<Option<InfModel>>, k: int) -> (Seq<InfModel>, int, int, int)
    decreases k,
{
    if k <= 0 || k > rs.len() {
        (Seq::<InfModel>::empty(), 0, 0, 0)
    } else {
        let (kept, ok, err, blank) = summary_upto(rs, k - 1);
        match rs[k - 1] {
            None => (kept, ok, err + 1, blank),
            Some(info) => if info.driver_list.len() == 0 {
                (kept, ok, err, blank + 1)
            } else {
                (kept.push(info), ok + 1, err, blank)
            },
        }
    }
}

/// The results as plain values.
pub open spec fn results_view(rs: Seq<Option<InfInfo>>) -> Seq<Option<InfModel>> {
    rs.map_values(
        |o: Option<InfInfo>|
            match o {
                Some(i) => Some(i@),
                None => None,
            },
    )
}

/// Sorts the results of reading the INF files of a package, in order: a
/// driver that names no hardware id is counted as blank and left out, a file
/// that could not be read (`None`) is counted as an error, the others are
/// kept.
pub fn summarizeIndex(results: &Vec<Option<InfInfo>>) -> (r: IndexSummary)
    ensures
        ({
            let (kept, ok, err, blank) = summary_upto(results_view(results@), results@.len() as int);
            &&& crate::subCommand::load_driver::infs_view(r.infInfoList@) == kept
            &&& r.successCount == ok
            &&& r.errorCount == err
            &&& r.blankCount == blank
        }),
{
    let ghost rv = results_view(results@);
    let mut infInfoList: Vec<InfInfo> = Vec::new();
    let mut successCount: usize = 0;
    let mut errorCount: usize = 0;
    let mut blankCount: usize = 0;
    let n = results.len();
    let mut i: usize = 0;
    while i < n
        invariant
            i <= n,
            n == results@.len(),
            rv == results_view(results@),
            ({
                let (kept, ok, err, blank) = summary_upto(rv, i as int);
                &&& crate::subCommand::load_driver::infs_view(infInfoList@) == kept
                &&& successCount == ok
                &&& errorCount == err
                &&& blankCount == blank
            }),
            successCount + errorCount + blankCount == i,
        decreases n - i,
    {
        match &results[i] {
            None => {
                errorCount = errorCount + 1;
            },
            Some(info) => {
                assert(rv[i as int] == Some(info@));
                if info.DriverList.len() == 0 {
                    blankCount = blankCount + 1;
                } else {
                    let c = info.copy();
                    let ghost before = crate::subCommand::load_driver::infs_view(infInfoList@);
                    infInfoList.push(c);
                    assert(crate::subCommand::load_driver::infs_view(infInfoList@) =~= before.push(
                        info@,
                    ));
                    successCount = successCount + 1;
                }
            },
        }
        i = i + 1;
    }
    IndexSummary { infInfoList, successCount, errorCount, blankCount }
}

/// A result that goes into the index: an INF file that was read and names
/// at least one hardware id.
pub open spec fn is_kept(o: Option<InfModel>) -> bool {
    o is Some && o->Some_0.driver_list.len() > 0
}

/// A result counted as blank: an INF file that was read and names no
/// hardware id.
pub open spec fn is_blank(o: Option<InfModel>) -> bool {
    o is Some && o->Some_0.driver_list.len() == 0
}

/// A result counted as an error: an INF file that could not be read.
pub open spec fn is_unread(o: Option<InfModel>) -> bool {
    o is None
}

/// The driver information of each result.
pub open spec fn read_infos(rs: Seq<Option<InfModel>>) -> Seq<InfModel> {
    rs.map_values(|o: Option<InfModel>| o->Some_0)
}

proof fn lemma_summary_filters(rs: Seq<Option<InfModel>>, k: int)
    requires
        0 <= k <= rs.len(),
    ensures
        ({
            let (kept, ok, err, blank) = summary_upto(rs, k);
            let t = rs.take(k);
            &&& kept == read_infos(t.filter(|o: Option<InfModel>| is_kept(o)))
            &&& ok == t.filter(|o: Option<InfModel>| is_kept(o)).len()
            &&& err == t.filter(|o: Option<InfModel>| is_unread(o)).len()
            &&& blank == t.filter(|o: Option<InfModel>| is_blank(o)).len()
        }),
    decreases k,
{
    reveal_with_fuel(Seq::filter, 1);
    if k == 0 {
        assert(rs.take(0) =~= Seq::<Option<InfModel>>::empty());
        assert(read_infos(rs.take(0).filter(|o: Option<InfModel>| is_kept(o))) =~= Seq::<InfModel>::empty());
    } else {
        lemma_summary_filters(rs, k - 1);
        let t = rs.take(k);
        assert(t.drop_last() =~= rs.take(k - 1));
        assert(t.last() == rs[k - 1]);
        let before = rs.take(k - 1).filter(|o: Option<InfModel>| is_kept(o));
        if is_kept(rs[k - 1]) {
            assert(read_infos(before.push(rs[k - 1])) =~= read_infos(before).push(rs[k - 1]->Some_0));
        }
    }
}

/// An index keeps exactly the INF files that name hardware ids, in order,
/// and counts each file once by what became of it: a read file naming at
/// least one hardware id is kept and counted as a success, a read file naming
/// none is counted as blank, and a file that could not be read as an error.
pub proof fn law_index_keeps_the_files_naming_ids(rs: Seq<Option<InfModel>>)
    ensures
        ({
            let (kept, ok, err, blank) = summary_upto(rs, rs.len() as int);
            &&& kept == read_infos(rs.filter(|o: Option<InfModel>| is_kept(o)))
            &&& ok == rs.filter(|o: Option<InfModel>| is_kept(o)).len()
            &&& err == rs.filter(|o: Option<InfModel>| is_unread(o)).len()
            &&& blank == rs.filter(|o: Option<InfModel>| is_blank(o)).len()
            &&& forall|j: int| 0 <= j < rs.len() && is_kept(#[trigger] rs[j]) ==> kept.contains(rs[j]->Some_0)
        }),
{
    lemma_summary_filters(rs, rs.len() as int);
    assert(rs.take(rs.len() as int) =~= rs);
    let (kept, ok, err, blank) = summary_upto(rs, rs.len() as int);
    let f = rs.filter(|o: Option<InfModel>| is_kept(o));
    assert forall|j: int| 0 <= j < rs.len() && is_kept(#[trigger] rs[j]) implies kept.contains(rs[j]->Some_0) by {
        rs.lemma_filter_contains(|o: Option<InfModel>| is_kept(o), j);
        let m = choose|m: int| 0 <= m < f.len() && f[m] == rs[j];
        assert(kept[m] == rs[j]->Some_0);
    }
}

/// Every INF file read counts once: as kept, as an error or as blank.
pub proof fn law_index_counts_add_up(rs: Seq<Option<InfModel>>, k: int)
    requires
        0 <= k <= rs.len(),
    ensures
        ({
            let (kept, ok, err, blank) = summary_upto(rs, k);
            &&& ok + err + blank == k
            &&& kept.len() == ok
            &&& forall|j: int| 0 <= j < kept.len() ==> (#[trigger] kept[j]).driver_list.len() > 0
        }),
    decreases k,
{
    if k > 0 {
        law_index_counts_add_up(rs, k - 1);
    }
}

} // verus!
