//! Devices as the `devcon` tool lists them: the parsers for its `hwids` and
//! `status` listings, and the selection of the devices that report a problem.
use vstd::prelude::*;
use crate::text::{
    chars_of, contains_chars, find_from, find_spec, first_piece, lemma_find_from_props, lines_of,
    lines_spec, nonempty_pieces, nonempty_split, occurs_at, pieces_view, replace_spec,
    replace_str, spec_to_lowercase, split_at_char, split_chars, string_of, strings_view,
    to_lowercase, lemma_split_nonempty,
};
use crate::utils::util::{center_of, left_of, right_of, String_utils};

verus! {

/// A device: its instance path, display name, hardware ids and compatible ids.
pub struct HwID {
    /// Device instance path.
    pub DeviceInstancePath: String,
    /// Display name.
    pub Name: String,
    /// Hardware ids.
    pub HardwareIDs: Vec<String>,
    /// Compatible ids.
    pub CompatibleIDs: Vec<String>,
}

/// The plain contents of a [`HwID`].
pub struct HwIDModel {
    pub path: Seq<char>,
    pub name: Seq<char>,
    pub hardware_ids: Seq<Seq<char>>,
    pub compatible_ids: Seq<Seq<char>>,
}

impl View for HwID {
    type V = HwIDModel;

    open spec fn view(&self) -> HwIDModel {
        HwIDModel {
            path: self.DeviceInstancePath@,
            name: self.Name@,
            hardware_ids: strings_view(self.HardwareIDs@),
            compatible_ids: strings_view(self.CompatibleIDs@),
        }
    }
}

/// A copy of a list of strings.
pub fn clone_strings(v: &Vec<String>) -> (r: Vec<String>)
    ensures
        strings_view(r@) == strings_view(v@),
{
    let mut r: Vec<String> = Vec::new();
    let n = v.len();
    let mut i: usize = 0;
    while i < n
        invariant
            i <= n,
            n == v@.len(),
            strings_view(r@) =~= strings_view(v@).take(i as int),
        decreases n - i,
    {
        let s = v[i].clone();
        let ghost before = strings_view(r@);
        r.push(s);
        assert(strings_view(r@) =~= before.push(v@[i as int]@));
        i = i + 1;
    }
    assert(strings_view(v@).take(n as int) =~= strings_view(v@));
    r
}

impl HwID {
    /// A copy of this device.
    pub fn copy(&self) -> (r: HwID)
        ensures
            r@ == self@,
    {
        HwID {
            DeviceInstancePath: self.DeviceInstancePath.clone(),
            Name: self.Name.clone(),
            HardwareIDs: clone_strings(&self.HardwareIDs),
            CompatibleIDs: clone_strings(&self.CompatibleIDs),
        }
    }
}

impl Clone for HwID {
    fn clone(&self) -> (r: Self)
        ensures
            r@ == self@,
    {
        self.copy()
    }
}

/// Two devices are the same device when their instance paths are equal.
impl PartialEq for HwID {
    fn eq(&self, other: &Self) -> (r: bool) {
        self.DeviceInstancePath == other.DeviceInstancePath
    }
}

impl vstd::std_specs::cmp::PartialEqSpecImpl for HwID {
    open spec fn obeys_eq_spec() -> bool {
        true
    }

    open spec fn eq_spec(&self, other: &Self) -> bool {
        self.DeviceInstancePath@ == other.DeviceInstancePath@
    }
}

impl Eq for HwID {
}

// ---------------------------------------------------------------------------
// The `hwids` listing
// ---------------------------------------------------------------------------

/// The value, or the empty text when there is none.
pub open spec fn or_empty(o: Option<Seq<char>>) -> Seq<char> {
    match o {
        Some(t) => t,
        None => Seq::<char>::empty(),
    }
}

/// The `hwids` listing rewritten so that each device stands on one line:
/// `path|Name: ...|Hardware IDs:id,id|Compatible IDs:id,id|`.
pub open spec fn hwids_one_line_per_device(output: Seq<char>) -> Seq<char> {
    let c1 = replace_spec(output, "     Hardware IDs:"@, "\r\n    Hardware IDs:"@);
    let c2 = replace_spec(
        c1,
        "     Compatible IDs:"@,
        "\r\n    Hardware IDs:\r\n    Compatible IDs:"@,
    );
    let l1 = replace_spec(c2, "\r\n        "@, ","@);
    let l2 = replace_spec(l1, "\r\n    "@, "|"@);
    let l3 = replace_spec(l2, "  "@, ""@);
    replace_spec(l3, "\r\n"@, "|\r\n"@)
}

/// The device that one line of the rewritten listing describes.
pub open spec fn hwid_of_line(line: Seq<char>) -> HwIDModel {
    HwIDModel {
        path: or_empty(left_of(line, "|"@)),
        name: or_empty(center_of(line, "Name:"@, "|"@)),
        hardware_ids: nonempty_pieces(
            replace_spec(or_empty(center_of(line, "Hardware IDs:"@, "|"@)), "|"@, ""@),
            ',',
        ),
        compatible_ids: nonempty_pieces(
            replace_spec(or_empty(right_of(line, "Compatible IDs:"@)), "|"@, ""@),
            ',',
        ),
    }
}

/// The devices of a `devcon hwids` listing, one per line of the rewritten text.
pub open spec fn real_id_info_spec(output: Seq<char>) -> Seq<HwIDModel> {
    lines_spec(hwids_one_line_per_device(output)).map_values(|l: Seq<char>| hwid_of_line(l))
}

/// The text of a device line under its `Hardware IDs:` heading, the ids
/// separated by commas.
pub open spec fn hardware_section(line: Seq<char>) -> Seq<char> {
    replace_spec(or_empty(center_of(line, "Hardware IDs:"@, "|"@)), "|"@, ""@)
}

/// The text of a device line under its `Compatible IDs:` heading.
pub open spec fn compatible_section(line: Seq<char>) -> Seq<char> {
    replace_spec(or_empty(right_of(line, "Compatible IDs:"@)), "|"@, ""@)
}

/// How many of `pieces` are not empty.
pub open spec fn count_nonempty(pieces: Seq<Seq<char>>) -> nat
    decreases pieces.len(),
{
    if pieces.len() == 0 {
        0
    } else {
        count_nonempty(pieces.drop_last()) + if pieces.last().len() > 0 {
            1nat
        } else {
            0nat
        }
    }
}

proof fn lemma_count_nonempty(pieces: Seq<Seq<char>>)
    ensures
        count_nonempty(pieces) == pieces.filter(|p: Seq<char>| p.len() > 0).len(),
    decreases pieces.len(),
{
    reveal_with_fuel(Seq::filter, 1);
    if pieces.len() > 0 {
        lemma_count_nonempty(pieces.drop_last());
    }
}

/// No id listed for a device is lost, and none is made up: the device has
/// as many ids as there are non-empty entries; every non-empty
/// comma-separated entry under a device's `Hardware IDs:` heading is one of
/// its hardware ids, every entry under `Compatible IDs:` one of its
/// compatible ids, however many there are; and every id of the device is
/// such a non-empty entry.
pub proof fn law_every_listed_id_is_kept(output: Seq<char>, d: int)
    requires
        0 <= d < real_id_info_spec(output).len(),
    ensures
        ({
            let line = lines_spec(hwids_one_line_per_device(output))[d];
            let dev = real_id_info_spec(output)[d];
            let hw = split_at_char(hardware_section(line), ',');
            let cp = split_at_char(compatible_section(line), ',');
            &&& dev.hardware_ids.len() == count_nonempty(hw)
            &&& dev.compatible_ids.len() == count_nonempty(cp)
            &&& forall|t: int| 0 <= t < hw.len() && hw[t].len() > 0 ==> dev.hardware_ids.contains(#[trigger] hw[t])
            &&& forall|t: int| 0 <= t < cp.len() && cp[t].len() > 0 ==> dev.compatible_ids.contains(#[trigger] cp[t])
            &&& forall|m: int| 0 <= m < dev.hardware_ids.len() ==> hw.contains(#[trigger] dev.hardware_ids[m]) && dev.hardware_ids[m].len() > 0
            &&& forall|m: int| 0 <= m < dev.compatible_ids.len() ==> cp.contains(#[trigger] dev.compatible_ids[m]) && dev.compatible_ids[m].len() > 0
        }),
{
    let line = lines_spec(hwids_one_line_per_device(output))[d];
    let dev = real_id_info_spec(output)[d];
    assert(dev == hwid_of_line(line));
    let hw = split_at_char(hardware_section(line), ',');
    let cp = split_at_char(compatible_section(line), ',');
    let nonempty = |p: Seq<char>| p.len() > 0;
    assert(dev.hardware_ids == hw.filter(nonempty));
    assert(dev.compatible_ids == cp.filter(nonempty));
    lemma_count_nonempty(hw);
    lemma_count_nonempty(cp);
    assert forall|t: int| 0 <= t < hw.len() && hw[t].len() > 0 implies dev.hardware_ids.contains(#[trigger] hw[t]) by {
        hw.lemma_filter_contains(nonempty, t);
    }
    assert forall|t: int| 0 <= t < cp.len() && cp[t].len() > 0 implies dev.compatible_ids.contains(#[trigger] cp[t]) by {
        cp.lemma_filter_contains(nonempty, t);
    }
    assert forall|m: int| 0 <= m < dev.hardware_ids.len() implies hw.contains(#[trigger] dev.hardware_ids[m]) && dev.hardware_ids[m].len() > 0 by {
        hw.lemma_filter_pred(nonempty, m);
        hw.lemma_filter_contains_rev(nonempty, dev.hardware_ids[m]);
    }
    assert forall|m: int| 0 <= m < dev.compatible_ids.len() implies cp.contains(#[trigger] dev.compatible_ids[m]) && dev.compatible_ids[m].len() > 0 by {
        cp.lemma_filter_pred(nonempty, m);
        cp.lemma_filter_contains_rev(nonempty, dev.compatible_ids[m]);
    }
}

/// The views of a list of devices.
pub open spec fn hwids_view(v: Seq<HwID>) -> Seq<HwIDModel> {
    v.map_values(|h: HwID| h@)
}

fn or_empty_string(r: Result<String, String>) -> (s: String)
    ensures
        s@ == (match r {
            Ok(t) => t@,
            Err(_) => Seq::<char>::empty(),
        }),
{
    match r {
        Ok(t) => t,
        Err(_) => String::new(),
    }
}

impl Devcon {
    /// The devices of the output of `devcon hwids`: for each device its
    /// instance path, name, hardware ids and compatible ids.
    pub fn parseRealIdInfo(output: &str) -> (r: Vec<HwID>)
        ensures
            hwids_view(r@) == real_id_info_spec(output@),
    {
        proof {
            reveal_strlit("     Hardware IDs:");
            reveal_strlit("     Compatible IDs:");
            reveal_strlit("\r\n        ");
            reveal_strlit("\r\n    ");
            reveal_strlit("  ");
            reveal_strlit("\r\n");
            reveal_strlit("|");
            reveal_strlit("Name:");
            reveal_strlit("Hardware IDs:");
        }
        // Name and hardware ids on lines of their own
        let c1 = replace_str(output, "     Hardware IDs:", "\r\n    Hardware IDs:");
        // Compatible ids too, after an empty hardware id entry
        let c2 = replace_str(
            c1.as_str(),
            "     Compatible IDs:",
            "\r\n    Hardware IDs:\r\n    Compatible IDs:",
        );
        // One line per device
        let l1 = replace_str(c2.as_str(), "\r\n        ", ",");
        let l2 = replace_str(l1.as_str(), "\r\n    ", "|");
        let l3 = replace_str(l2.as_str(), "  ", "");
        let l4 = replace_str(l3.as_str(), "\r\n", "|\r\n");
        assert(l4@ == hwids_one_line_per_device(output@));
        let lc = chars_of(l4.as_str());
        let lines = lines_of(&lc);
        let ghost lv = pieces_view(lines@);
        let mut list: Vec<HwID> = Vec::new();
        let n = lines.len();
        let mut i: usize = 0;
        while i < n
            invariant
                i <= n,
                n == lines@.len(),
                lv == pieces_view(lines@),
                lv == lines_spec(hwids_one_line_per_device(output@)),
                hwids_view(list@) =~= lv.take(i as int).map_values(
                    |l: Seq<char>| hwid_of_line(l),
                ),
            decreases n - i,
        {
            let item = string_of(&lines[i]);
            assert(item@ == lv[i as int]);
            proof {
                reveal_strlit("|");
                reveal_strlit("Name:");
                reveal_strlit("Hardware IDs:");
            }
            let path = or_empty_string(item.get_string_left("|"));
            let name = or_empty_string(item.get_string_center("Name:", "|"));
            let hardware = or_empty_string(item.get_string_center("Hardware IDs:", "|"));
            let hardware = replace_str(hardware.as_str(), "|", "");
            let hardwareIDList = nonempty_split(hardware.as_str(), ',');
            let compatible = or_empty_string(item.get_string_right("Compatible IDs:"));
            let compatible = replace_str(compatible.as_str(), "|", "");
            let compatibleIDList = nonempty_split(compatible.as_str(), ',');
            let device = HwID {
                DeviceInstancePath: path,
                Name: name,
                HardwareIDs: hardwareIDList,
                CompatibleIDs: compatibleIDList,
            };
            assert(device@ == hwid_of_line(lv[i as int]));
            let ghost before = hwids_view(list@);
            list.push(device);
            assert(hwids_view(list@) =~= before.push(device@));
            assert(lv.take(i + 1) =~= lv.take(i as int).push(lv[i as int]));
            i = i + 1;
        }
        assert(lv.take(n as int) =~= lv);
        list
    }
}

// ---------------------------------------------------------------------------
// The `status` listing and the devices with a problem
// ---------------------------------------------------------------------------

/// The lines of the rewritten `status` listing.
pub open spec fn status_lines(output: Seq<char>) -> Seq<Seq<char>> {
    lines_spec(replace_spec(output, "\r\n    "@, "|"@))
}

/// The instance paths of the devices that a `devcon status` listing reports
/// with a problem, from the first `k` lines.
pub open spec fn problem_paths_upto(lines: Seq<Seq<char>>, k: int) -> Seq<Seq<char>>
    decreases k,
{
    if k <= 0 || k > lines.len() {
        Seq::<Seq<char>>::empty()
    } else {
        let before = problem_paths_upto(lines, k - 1);
        let line = lines[k - 1];
        if find_spec(line, "problem"@) is Some && first_piece(line, '|').len() > 0 {
            before.push(first_piece(line, '|'))
        } else {
            before
        }
    }
}

/// A line of the rewritten status listing reports a device with a problem:
/// it mentions `problem` and has some text before its first `|`.
pub open spec fn reports_problem(line: Seq<char>) -> bool {
    find_spec(line, "problem"@) is Some && first_piece(line, '|').len() > 0
}

/// The lines that report a device with a problem, in order.
pub open spec fn problem_lines(lines: Seq<Seq<char>>) -> Seq<Seq<char>> {
    lines.filter(|l: Seq<char>| reports_problem(l))
}

/// The text before the first `|` of each line.
pub open spec fn line_paths(lines: Seq<Seq<char>>) -> Seq<Seq<char>> {
    lines.map_values(|l: Seq<char>| first_piece(l, '|'))
}

proof fn lemma_problem_paths_are_filtered(lines: Seq<Seq<char>>, k: int)
    requires
        0 <= k <= lines.len(),
    ensures
        problem_paths_upto(lines, k) == line_paths(problem_lines(lines.take(k))),
    decreases k,
{
    if k == 0 {
        assert(lines.take(0) =~= Seq::<Seq<char>>::empty());
        assert(problem_lines(lines.take(0)) =~= Seq::<Seq<char>>::empty());
        assert(line_paths(problem_lines(lines.take(0))) =~= Seq::<Seq<char>>::empty());
    } else {
        lemma_problem_paths_are_filtered(lines, k - 1);
        let t = lines.take(k);
        assert(t.drop_last() =~= lines.take(k - 1));
        assert(t.last() == lines[k - 1]);
        reveal_with_fuel(Seq::filter, 1);
        let before = problem_lines(lines.take(k - 1));
        if reports_problem(lines[k - 1]) {
            assert(problem_lines(t) == before.push(lines[k - 1]));
            assert(line_paths(before.push(lines[k - 1])) =~= line_paths(before).push(
                first_piece(lines[k - 1], '|'),
            ));
        } else {
            assert(problem_lines(t) == before);
        }
    }
}

/// The devices with a problem are all reported, in order: one instance path
/// for each line of the rewritten status listing that mentions `problem` and
/// has text before its first `|`, and that path is the text before the `|`.
pub proof fn law_problem_paths_follow_the_problem_lines(output: Seq<char>)
    ensures
        problem_paths_spec(output) == line_paths(problem_lines(status_lines(output))),
        problem_paths_spec(output).len() == problem_lines(status_lines(output)).len(),
{
    let lines = status_lines(output);
    lemma_problem_paths_are_filtered(lines, lines.len() as int);
    assert(lines.take(lines.len() as int) =~= lines);
}

/// Every line that reports a device with a problem has its instance path
/// among the problem paths.
pub proof fn law_every_problem_line_is_reported(output: Seq<char>, k: int)
    requires
        0 <= k < status_lines(output).len(),
        reports_problem(status_lines(output)[k]),
    ensures
        problem_paths_spec(output).contains(first_piece(status_lines(output)[k], '|')),
{
    let lines = status_lines(output);
    law_problem_paths_follow_the_problem_lines(output);
    lines.lemma_filter_contains(|l: Seq<char>| reports_problem(l), k);
    let f = problem_lines(lines);
    let m = choose|m: int| 0 <= m < f.len() && f[m] == lines[k];
    assert(line_paths(f)[m] == first_piece(lines[k], '|'));
}

/// The instance paths that a `devcon status` listing reports with a problem:
/// for each line that mentions `problem`, its text before the first `|`,
/// when that is not empty.
pub open spec fn problem_paths_spec(output: Seq<char>) -> Seq<Seq<char>> {
    problem_paths_upto(status_lines(output), status_lines(output).len() as int)
}

impl Devcon {
    /// The instance paths of the devices that the output of `devcon status`
    /// reports with a problem.
    pub fn parseProblemDeviceInstancePath(output: &str) -> (r: Vec<String>)
        ensures
            strings_view(r@) == problem_paths_spec(output@),
    {
        proof {
            reveal_strlit("\r\n    ");
            reveal_strlit("|");
        }
        let contentLine = replace_str(output, "\r\n    ", "|");
        let lc = chars_of(contentLine.as_str());
        let lines = lines_of(&lc);
        let ghost lv = pieces_view(lines@);
        let marker = chars_of("problem");
        let mut list: Vec<String> = Vec::new();
        let n = lines.len();
        let mut i: usize = 0;
        while i < n
            invariant
                i <= n,
                n == lines@.len(),
                lv == pieces_view(lines@),
                lv == status_lines(output@),
                marker@ == "problem"@,
                strings_view(list@) =~= problem_paths_upto(lv, i as int),
            decreases n - i,
        {
            assert(lines@[i as int]@ == lv[i as int]);
            if contains_chars(&lines[i], &marker) {
                let pieces = split_chars(&lines[i], '|');
                proof {
                    lemma_split_nonempty(lv[i as int], '|');
                }
                assert(pieces@[0]@ == first_piece(lv[i as int], '|'));
                if pieces[0].len() > 0 {
                    let id = string_of(&pieces[0]);
                    let ghost before = strings_view(list@);
                    list.push(id);
                    assert(strings_view(list@) =~= before.push(id@));
                }
            }
            i = i + 1;
        }
        list
    }

    /// The devices to find drivers for: all the listed devices when
    /// `isAllDevice`, else (by default) only those that have a problem, as
    /// [`Devcon::getProblemIdInfo`] selects them from `problemIdList`.
    pub fn devicesToMatch(&self, isAllDevice: bool, realIdInfo: Vec<HwID>, problemIdList: &Vec<String>) -> (r: Vec<HwID>)
        ensures
            isAllDevice ==> hwids_view(r@) == hwids_view(realIdInfo@),
            !isAllDevice ==> hwids_view(r@) == problem_id_info_spec(
                hwids_view(realIdInfo@),
                strings_view(problemIdList@),
                problemIdList@.len() as int,
            ),
    {
        if isAllDevice {
            realIdInfo
        } else {
            self.getProblemIdInfo(realIdInfo, problemIdList)
        }
    }

    /// The devices among `realIdInfo` that have a problem: for each path of
    /// `problemIdList`, in order, the first device whose instance path equals
    /// it ignoring case, if there is one.
    pub fn getProblemIdInfo(&self, realIdInfo: Vec<HwID>, problemIdList: &Vec<String>) -> (r: Vec<HwID>)
        ensures
            hwids_view(r@) == problem_id_info_spec(
                hwids_view(realIdInfo@),
                strings_view(problemIdList@),
                problemIdList@.len() as int,
            ),
    {
        let mut problemIdInfoList: Vec<HwID> = Vec::new();
        let ghost reals = hwids_view(realIdInfo@);
        let ghost pids = strings_view(problemIdList@);
        let np = problemIdList.len();
        let nr = realIdInfo.len();
        let mut p: usize = 0;
        while p < np
            invariant
                p <= np,
                np == problemIdList@.len(),
                nr == realIdInfo@.len(),
                reals == hwids_view(realIdInfo@),
                pids == strings_view(problemIdList@),
                hwids_view(problemIdInfoList@) =~= problem_id_info_spec(reals, pids, p as int),
            decreases np - p,
        {
            let problemId = to_lowercase(problemIdList[p].as_str());
            let mut k: usize = 0;
            let mut found = false;
            let ghost before = hwids_view(problemIdInfoList@);
            while k < nr && !found
                invariant
                    k <= nr,
                    nr == realIdInfo@.len(),
                    reals == hwids_view(realIdInfo@),
                    pids == strings_view(problemIdList@),
                    p < np,
                    np == problemIdList@.len(),
                    problemId@ == spec_to_lowercase(pids[p as int]),
                    before =~= problem_id_info_spec(reals, pids, p as int),
                    !found ==> hwids_view(problemIdInfoList@) == before,
                    found ==> hwids_view(problemIdInfoList@) == problem_id_info_spec(
                        reals,
                        pids,
                        p + 1,
                    ),
                    !found ==> forall|j: int|
                        0 <= j < k ==> spec_to_lowercase(#[trigger] reals[j].path)
                            != spec_to_lowercase(pids[p as int]),
                decreases nr - k + (if found { 0int } else { 1int }),
            {
                let path = to_lowercase(realIdInfo[k].DeviceInstancePath.as_str());
                if problemId == path {
                    let item = realIdInfo[k].copy();
                    problemIdInfoList.push(item);
                    proof {
                        lemma_first_path_match_found(reals, pids[p as int], k as int);
                    }
                    assert(hwids_view(problemIdInfoList@) =~= before.push(reals[k as int]));
                    found = true;
                } else {
                    k = k + 1;
                }
            }
            proof {
                if !found {
                    lemma_first_path_match_none(reals, pids[p as int]);
                }
            }
            p = p + 1;
        }
        problemIdInfoList
    }
}

/// The index of the first device whose instance path equals `id` ignoring
/// case, searching from index `k`.
pub open spec fn first_path_match_from(reals: Seq<HwIDModel>, id: Seq<char>, k: int) -> Option<int>
    decreases reals.len() - k,
{
    if k < 0 || k >= reals.len() {
        None
    } else if spec_to_lowercase(reals[k].path) == spec_to_lowercase(id) {
        Some(k)
    } else {
        first_path_match_from(reals, id, k + 1)
    }
}

/// For the first `p` problem paths, the first device matching each.
pub open spec fn problem_id_info_spec(reals: Seq<HwIDModel>, pids: Seq<Seq<char>>, p: int) -> Seq<
    HwIDModel,
>
    decreases p,
{
    if p <= 0 || p > pids.len() {
        Seq::<HwIDModel>::empty()
    } else {
        let before = problem_id_info_spec(reals, pids, p - 1);
        match first_path_match_from(reals, pids[p - 1], 0) {
            Some(k) => before.push(reals[k]),
            None => before,
        }
    }
}

proof fn lemma_first_path_match_found(reals: Seq<HwIDModel>, id: Seq<char>, k: int)
    requires
        0 <= k < reals.len(),
        spec_to_lowercase(reals[k].path) == spec_to_lowercase(id),
        forall|j: int|
            0 <= j < k ==> spec_to_lowercase(#[trigger] reals[j].path) != spec_to_lowercase(id),
    ensures
        first_path_match_from(reals, id, 0) == Some(k),
{
    lemma_first_path_match_scan(reals, id, 0, k);
}

proof fn lemma_first_path_match_scan(reals: Seq<HwIDModel>, id: Seq<char>, j: int, k: int)
    requires
        0 <= j <= k < reals.len(),
        spec_to_lowercase(reals[k].path) == spec_to_lowercase(id),
        forall|t: int|
            0 <= t < k ==> spec_to_lowercase(#[trigger] reals[t].path) != spec_to_lowercase(id),
    ensures
        first_path_match_from(reals, id, j) == Some(k),
    decreases k - j,
{
    if j < k {
        lemma_first_path_match_scan(reals, id, j + 1, k);
    }
}

proof fn lemma_first_path_match_none(reals: Seq<HwIDModel>, id: Seq<char>)
    requires
        forall|j: int|
            0 <= j < reals.len() ==> spec_to_lowercase(#[trigger] reals[j].path)
                != spec_to_lowercase(id),
    ensures
        first_path_match_from(reals, id, 0) is None,
{
    lemma_first_path_match_none_from(reals, id, 0);
}

proof fn lemma_first_path_match_none_from(reals: Seq<HwIDModel>, id: Seq<char>, j: int)
    requires
        0 <= j,
        forall|t: int|
            0 <= t < reals.len() ==> spec_to_lowercase(#[trigger] reals[t].path)
                != spec_to_lowercase(id),
    ensures
        first_path_match_from(reals, id, j) is None,
    decreases reals.len() - j,
{
    if j < reals.len() {
        lemma_first_path_match_none_from(reals, id, j + 1);
    }
}

/// Every device selected as having a problem is one of the listed devices,
/// and its instance path equals one of the problem paths ignoring case.
pub proof fn law_problem_devices_come_from_listing(
    reals: Seq<HwIDModel>,
    pids: Seq<Seq<char>>,
    p: int,
    i: int,
)
    requires
        0 <= i < problem_id_info_spec(reals, pids, p).len(),
    ensures
        reals.contains(problem_id_info_spec(reals, pids, p)[i]),
        exists|q: int|
            0 <= q < pids.len() && spec_to_lowercase(#[trigger] pids[q]) == spec_to_lowercase(
                problem_id_info_spec(reals, pids, p)[i].path,
            ),
    decreases p,
{
    if 0 < p <= pids.len() {
        let before = problem_id_info_spec(reals, pids, p - 1);
        if i < before.len() {
            law_problem_devices_come_from_listing(reals, pids, p - 1, i);
            match first_path_match_from(reals, pids[p - 1], 0) {
                Some(k) => {
                    assert(problem_id_info_spec(reals, pids, p)[i] == before[i]);
                },
                None => {},
            }
        } else {
            lemma_first_path_match_props(reals, pids[p - 1], 0);
            let k = first_path_match_from(reals, pids[p - 1], 0).unwrap();
            assert(problem_id_info_spec(reals, pids, p)[i] == reals[k]);
            assert(reals[k] == reals[k]);
        }
    }
}

proof fn lemma_first_path_match_props(reals: Seq<HwIDModel>, id: Seq<char>, j: int)
    requires
        0 <= j,
    ensures
        first_path_match_from(reals, id, j) matches Some(k) ==> j <= k < reals.len()
            && spec_to_lowercase(reals[k].path) == spec_to_lowercase(id),
    decreases reals.len() - j,
{
    if j < reals.len() && spec_to_lowercase(reals[j].path) != spec_to_lowercase(id) {
        lemma_first_path_match_props(reals, id, j + 1);
    }
}

// ---------------------------------------------------------------------------
// The tool
// ---------------------------------------------------------------------------

/// The `devcon` tool, by the path of its program.
pub struct Devcon {
    devconPath: String,
}

impl Devcon {
    /// The tool whose program stands at `devconPath`.
    pub fn with_program(devconPath: String) -> (r: Devcon)
        ensures
            r.program()@ == devconPath@,
    {
        Devcon { devconPath }
    }

    /// The path of the program.
    pub closed spec fn program(&self) -> String {
        self.devconPath
    }

    /// The path of the program.
    pub fn devconPath(&self) -> (r: &String)
        ensures
            r@ == self.program()@,
    {
        &self.devconPath
    }
}

impl Devcon {
    /// The arguments of the `hwids` listing: all devices (`*`), or those of
    /// setup class `driveClass` (`=class`, installed devices only).
    pub fn hwidsArgs(driveClass: Option<String>) -> (r: Vec<String>)
        ensures
            strings_view(r@) == seq![
                "hwids"@,
                match driveClass {
                    Some(c) => "="@ + c@,
                    None => "*"@,
                },
            ],
    {
        let mut args: Vec<String> = Vec::new();
        args.push(String::from_str("hwids"));
        match driveClass {
            Some(c) => {
                args.push(crate::utils::extract::concat_str("=", c.as_str()));
            },
            None => {
                args.push(String::from_str("*"));
            },
        }
        assert(strings_view(args@) =~= seq![
            "hwids"@,
            match driveClass {
                Some(c) => "="@ + c@,
                None => "*"@,
            },
        ]);
        args
    }

    /// A driver update reported success when the report says `successfully`.
    pub fn loadDriverSucceeded(output: &str) -> (r: bool)
        ensures
            r == crate::utils::sevenZIP::mentions(output@, "successfully"@),
    {
        crate::utils::sevenZIP::mentionsStr(output, "successfully")
    }

    /// A rescan finished when the report says `completed`.
    pub fn rescanCompleted(output: &str) -> (r: bool)
        ensures
            r == crate::utils::sevenZIP::mentions(output@, "completed"@),
    {
        crate::utils::sevenZIP::mentionsStr(output, "completed")
    }

    /// A removal happened when the report says `were removed`.
    pub fn removeDeviceSucceeded(output: &str) -> (r: bool)
        ensures
            r == crate::utils::sevenZIP::mentions(output@, "were removed"@),
    {
        crate::utils::sevenZIP::mentionsStr(output, "were removed")
    }
}

} // verus!
