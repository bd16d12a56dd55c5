//! Matching devices with drivers: which drivers of an index serve a device,
//! in which order they are tried, and which devices are still to be handled
//! in a later round.
use vstd::prelude::*;
use crate::text::{chars_of, spec_to_lowercase, str_eq, strings_view, to_lowercase};
use crate::subCommand::create_index::{InfInfo, InfModel, contains_string};
use crate::utils::devcon::{HwID, HwIDModel, hwids_view};
use crate::utils::version::{
    compare_versions, comparable_versions, law_version_order_antisymmetric, law_version_order_range,
    law_version_order_transitive, version_comparable, version_order,
};

verus! {

/// The architecture name INF files use for the processor architecture `arch`
/// (as `std::env::consts::ARCH` names it); empty for the others.
pub open spec fn inf_arch_name(arch: Seq<char>) -> Seq<char> {
    if arch == "x86"@ {
        "NTx86"@
    } else if arch == "x86_64"@ {
        "NTamd64"@
    } else if arch == "arm"@ {
        "NTarm"@
    } else {
        Seq::<char>::empty()
    }
}

/// The architecture name INF files use for the processor architecture `arch`.
pub fn currentArch(arch: &str) -> (r: String)
    ensures
        r@ == inf_arch_name(arch@),
{
    if str_eq(arch, "x86") {
        String::from_str("NTx86")
    } else if str_eq(arch, "x86_64") {
        String::from_str("NTamd64")
    } else if str_eq(arch, "arm") {
        String::from_str("NTarm")
    } else {
        String::new()
    }
}

/// The views of a list of driver records.
pub open spec fn infs_view(v: Seq<InfInfo>) -> Seq<InfModel> {
    v.map_values(|i: InfInfo| i@)
}

/// `a` and `b` are equal once lower-cased.
pub open spec fn same_id(a: Seq<char>, b: Seq<char>) -> bool {
    spec_to_lowercase(a) == spec_to_lowercase(b)
}

/// The ids of `ids` equal to `ha` ignoring case, in order.
pub open spec fn ids_matching(ha: Seq<char>, ids: Seq<Seq<char>>) -> Seq<Seq<char>> {
    ids.filter(|id: Seq<char>| same_id(ha, id))
}

/// A driver record narrowed to the ids that match `ha`.
pub open spec fn narrowed(ha: Seq<char>, inf: InfModel) -> InfModel {
    InfModel { driver_list: ids_matching(ha, inf.driver_list), ..inf }
}

/// The drivers among the first `k` of `infs` that support `arch` and name
/// `ha`, each narrowed to the ids that match, in the order of `infs`.
pub open spec fn candidates_upto(ha: Seq<char>, infs: Seq<InfModel>, arch: Seq<char>, k: int) -> Seq<
    InfModel,
>
    decreases k,
{
    if k <= 0 || k > infs.len() {
        Seq::<InfModel>::empty()
    } else {
        let before = candidates_upto(ha, infs, arch, k - 1);
        let inf = infs[k - 1];
        if inf.arch.contains(arch) && ids_matching(ha, inf.driver_list).len() > 0 {
            before.push(narrowed(ha, inf))
        } else {
            before
        }
    }
}

/// The drivers of `infs` that support `arch` and name `ha`.
pub open spec fn candidates(ha: Seq<char>, infs: Seq<InfModel>, arch: Seq<char>) -> Seq<InfModel> {
    candidates_upto(ha, infs, arch, infs.len() as int)
}

/// `x` put into `r` after every record whose version is not lower.
pub open spec fn insert_desc(r: Seq<InfModel>, x: InfModel) -> Seq<InfModel>
    decreases r.len(),
{
    if r.len() == 0 {
        seq![x]
    } else if version_order(r[0].version, x.version) >= 0 {
        seq![r[0]] + insert_desc(r.drop_first(), x)
    } else {
        seq![x] + r
    }
}

/// `s` ordered from the highest version to the lowest, records of equal
/// versions keeping their order (a stable sort).
pub open spec fn sort_desc(s: Seq<InfModel>) -> Seq<InfModel>
    decreases s.len(),
{
    if s.len() == 0 {
        s
    } else {
        insert_desc(sort_desc(s.drop_last()), s.last())
    }
}

/// The versions of any two distinct records of `s` can be compared.
pub open spec fn pairwise_comparable(s: Seq<InfModel>) -> bool {
    forall|i: int, j: int|
        0 <= i < s.len() && 0 <= j < s.len() && i != j ==> version_comparable(
            #[trigger] s[i].version,
            #[trigger] s[j].version,
        )
}

/// The drivers for id `ha`, the highest version first.
pub open spec fn matches_for_id(ha: Seq<char>, infs: Seq<InfModel>, arch: Seq<char>) -> Seq<
    InfModel,
> {
    sort_desc(candidates(ha, infs, arch))
}

/// The drivers for the first `n` ids of `ids`, id by id.
pub open spec fn matches_for_ids(
    ids: Seq<Seq<char>>,
    infs: Seq<InfModel>,
    arch: Seq<char>,
    n: int,
) -> Seq<InfModel>
    decreases n,
{
    if n <= 0 || n > ids.len() {
        Seq::<InfModel>::empty()
    } else {
        matches_for_ids(ids, infs, arch, n - 1) + matches_for_id(ids[n - 1], infs, arch)
    }
}

/// The drivers for a device: those for its hardware ids first (dedicated
/// drivers), then those for its compatible ids.
pub open spec fn device_matches(d: HwIDModel, infs: Seq<InfModel>, arch: Seq<char>) -> Seq<
    InfModel,
> {
    matches_for_ids(d.hardware_ids, infs, arch, d.hardware_ids.len() as int) + matches_for_ids(
        d.compatible_ids,
        infs,
        arch,
        d.compatible_ids.len() as int,
    )
}

/// For the first `k` devices, each device with at least one driver, with
/// its drivers.
pub open spec fn match_info_upto(
    devs: Seq<HwIDModel>,
    infs: Seq<InfModel>,
    arch: Seq<char>,
    k: int,
) -> Seq<(HwIDModel, Seq<InfModel>)>
    decreases k,
{
    if k <= 0 || k > devs.len() {
        Seq::<(HwIDModel, Seq<InfModel>)>::empty()
    } else {
        let before = match_info_upto(devs, infs, arch, k - 1);
        let l = device_matches(devs[k - 1], infs, arch);
        if l.len() > 0 {
            before.push((devs[k - 1], l))
        } else {
            before
        }
    }
}

/// For every id of every device, the candidate drivers can be ordered by
/// version: their versions compare without a component that does not parse.
pub open spec fn all_sortable(devs: Seq<HwIDModel>, infs: Seq<InfModel>, arch: Seq<char>) -> bool {
    forall|i: int| 0 <= i < devs.len() ==> #[trigger] device_sortable(devs[i], infs, arch)
}

/// The candidate drivers of each id of device `d` can be ordered by version.
pub open spec fn device_sortable(d: HwIDModel, infs: Seq<InfModel>, arch: Seq<char>) -> bool {
    &&& forall|j: int|
        0 <= j < d.hardware_ids.len() ==> pairwise_comparable(
            #[trigger] candidates(d.hardware_ids[j], infs, arch),
        )
    &&& forall|j: int|
        0 <= j < d.compatible_ids.len() ==> pairwise_comparable(
            #[trigger] candidates(d.compatible_ids[j], infs, arch),
        )
}

/// The result pairs as plain values.
pub open spec fn match_info_view(v: Seq<(HwID, Vec<InfInfo>)>) -> Seq<(HwIDModel, Seq<InfModel>)> {
    v.map_values(|p: (HwID, Vec<InfInfo>)| (p.0@, infs_view(p.1@)))
}

// ---------------------------------------------------------------------------
// Candidates of one id
// ---------------------------------------------------------------------------

/// The ids of `ids` equal to `ha` ignoring case; `ha_lower` is `ha` lower-cased.
fn matching_ids_exec(ha: &String, ha_lower: &String, ids: &Vec<String>) -> (r: Vec<String>)
    requires
        ha_lower@ == spec_to_lowercase(ha@),
    ensures
        strings_view(r@) == ids_matching(ha@, strings_view(ids@)),
{
    let ghost v = strings_view(ids@);
    let mut out: Vec<String> = Vec::new();
    let n = ids.len();
    let mut i: usize = 0;
    while i < n
        invariant
            i <= n,
            n == ids@.len(),
            v == strings_view(ids@),
            ha_lower@ == spec_to_lowercase(ha@),
            strings_view(out@) =~= v.take(i as int).filter(|id: Seq<char>| same_id(ha@, id)),
        decreases n - i,
    {
        assert(v.take(i + 1).drop_last() =~= v.take(i as int));
        assert(v.take(i + 1).last() == ids@[i as int]@);
        reveal_with_fuel(Seq::filter, 1);
        let lower = to_lowercase(ids[i].as_str());
        if *ha_lower == lower {
            let id = ids[i].clone();
            let ghost before = strings_view(out@);
            out.push(id);
            assert(strings_view(out@) =~= before.push(ids@[i as int]@));
        }
        i = i + 1;
    }
    assert(v.take(n as int) =~= v);
    out
}

/// The drivers of `infs` that support `arch` and name `ha`, narrowed to the
/// ids that match, in the order of `infs`.
pub fn candidatesFor(ha: &String, infs: &[InfInfo], arch: &String) -> (r: Vec<InfInfo>)
    ensures
        infs_view(r@) == candidates(ha@, infs_view(infs@), arch@),
{
    let ghost iv = infs_view(infs@);
    let ha_lower = to_lowercase(ha.as_str());
    let mut out: Vec<InfInfo> = Vec::new();
    let n = infs.len();
    let mut i: usize = 0;
    while i < n
        invariant
            i <= n,
            n == infs@.len(),
            iv == infs_view(infs@),
            ha_lower@ == spec_to_lowercase(ha@),
            infs_view(out@) =~= candidates_upto(ha@, iv, arch@, i as int),
        decreases n - i,
    {
        let inf = &infs[i];
        assert(inf@ == iv[i as int]);
        if contains_string(&inf.Arch, arch) {
            let ids = matching_ids_exec(ha, &ha_lower, &inf.DriverList);
            if ids.len() > 0 {
                let item = InfInfo {
                    Path: inf.Path.clone(),
                    Inf: inf.Inf.clone(),
                    Class: inf.Class.clone(),
                    Arch: crate::utils::devcon::clone_strings(&inf.Arch),
                    Date: inf.Date.clone(),
                    Version: inf.Version.clone(),
                    DriverList: ids,
                };
                let ghost before = infs_view(out@);
                out.push(item);
                assert(infs_view(out@) =~= before.push(narrowed(ha@, iv[i as int])));
            }
        }
        i = i + 1;
    }
    out
}

// ---------------------------------------------------------------------------
// Ordering by version
// ---------------------------------------------------------------------------

proof fn lemma_insert_at(r: Seq<InfModel>, x: InfModel, k: int)
    requires
        0 <= k <= r.len(),
        forall|j: int| 0 <= j < k ==> version_order(#[trigger] r[j].version, x.version) >= 0,
        k < r.len() ==> version_order(r[k].version, x.version) < 0,
    ensures
        insert_desc(r, x) == r.insert(k, x),
    decreases r.len(),
{
    if r.len() == 0 {
        assert(r.insert(k, x) =~= seq![x]);
    } else if k == 0 {
        assert(r.insert(0, x) =~= seq![x] + r);
    } else {
        let t = r.drop_first();
        assert forall|j: int| 0 <= j < k - 1 implies version_order(
            #[trigger] t[j].version,
            x.version,
        ) >= 0 by {
            assert(t[j] == r[j + 1]);
        }
        if k - 1 < t.len() {
            assert(t[k - 1] == r[k]);
        }
        lemma_insert_at(t, x, k - 1);
        assert(version_order(r[0].version, x.version) >= 0);
        assert(seq![r[0]] + t.insert(k - 1, x) =~= r.insert(k, x));
    }
}

proof fn lemma_insert_elems(r: Seq<InfModel>, x: InfModel)
    ensures
        insert_desc(r, x).len() == r.len() + 1,
        forall|j: int|
            0 <= j < insert_desc(r, x).len() ==> #[trigger] insert_desc(r, x)[j] == x || r.contains(
                insert_desc(r, x)[j],
            ),
    decreases r.len(),
{
    if r.len() > 0 {
        let t = r.drop_first();
        lemma_insert_elems(t, x);
        if version_order(r[0].version, x.version) >= 0 {
            let ins = insert_desc(r, x);
            assert forall|j: int| 0 <= j < ins.len() implies #[trigger] ins[j] == x || r.contains(
                ins[j],
            ) by {
                if j > 0 {
                    assert(ins[j] == insert_desc(t, x)[j - 1]);
                    if insert_desc(t, x)[j - 1] != x {
                        let m = choose|m: int| 0 <= m < t.len() && t[m] == insert_desc(t, x)[j - 1];
                        assert(r[m + 1] == t[m]);
                    }
                } else {
                    assert(r[0] == r[0]);
                }
            }
        } else {
            let ins = insert_desc(r, x);
            assert forall|j: int| 0 <= j < ins.len() implies #[trigger] ins[j] == x || r.contains(
                ins[j],
            ) by {
                if j > 0 {
                    assert(ins[j] == r[j - 1]);
                }
            }
        }
    }
}

proof fn lemma_sort_elems(s: Seq<InfModel>)
    ensures
        sort_desc(s).len() == s.len(),
        forall|j: int| 0 <= j < sort_desc(s).len() ==> s.contains(#[trigger] sort_desc(s)[j]),
    decreases s.len(),
{
    if s.len() > 0 {
        let p = s.drop_last();
        lemma_sort_elems(p);
        lemma_insert_elems(sort_desc(p), s.last());
        let r = sort_desc(s);
        assert forall|j: int| 0 <= j < r.len() implies s.contains(#[trigger] r[j]) by {
            if r[j] == s.last() {
                assert(s[s.len() - 1] == s.last());
            } else {
                let m = choose|m: int| 0 <= m < sort_desc(p).len() && sort_desc(p)[m] == r[j];
                let q = choose|q: int| 0 <= q < p.len() && p[q] == sort_desc(p)[m];
                assert(s[q] == p[q]);
            }
        }
    }
}

/// The records of `list` ordered from the highest version to the lowest,
/// records of equal versions keeping their order.
pub fn sortByVersionDesc(list: Vec<InfInfo>) -> (r: Vec<InfInfo>)
    requires
        pairwise_comparable(infs_view(list@)),
    ensures
        infs_view(r@) == sort_desc(infs_view(list@)),
{
    let ghost s = infs_view(list@);
    let mut r: Vec<InfInfo> = Vec::new();
    let n = list.len();
    let mut i: usize = 0;
    assert(s.take(0) =~= Seq::<InfModel>::empty());
    while i < n
        invariant
            i <= n,
            n == list@.len(),
            s == infs_view(list@),
            pairwise_comparable(s),
            infs_view(r@) == sort_desc(s.take(i as int)),
        decreases n - i,
    {
        let x = list[i].copy();
        let ghost rv = infs_view(r@);
        proof {
            lemma_sort_elems(s.take(i as int));
            assert(s.take(i + 1).drop_last() =~= s.take(i as int));
            assert(s.take(i + 1).last() == s[i as int]);
        }
        let m = r.len();
        let mut k: usize = 0;
        let mut stop = false;
        while k < m && !stop
            invariant
                k <= m,
                m == r@.len(),
                rv == infs_view(r@),
                rv == sort_desc(s.take(i as int)),
                rv.len() == i,
                forall|j: int| 0 <= j < rv.len() ==> s.take(i as int).contains(#[trigger] rv[j]),
                i < n,
                n == list@.len(),
                s == infs_view(list@),
                pairwise_comparable(s),
                x@ == s[i as int],
                forall|j: int| 0 <= j < k ==> version_order(#[trigger] rv[j].version, x@.version) >= 0,
                stop ==> k < m && version_order(rv[k as int].version, x@.version) < 0,
            decreases m - k + (if stop { 0int } else { 1int }),
        {
            proof {
                assert(s.take(i as int).contains(rv[k as int]));
                let q = choose|q: int| 0 <= q < i && s.take(i as int)[q] == rv[k as int];
                assert(s[q] == rv[k as int]);
                assert(version_comparable(s[q].version, s[i as int].version));
            }
            let c = compare_versions(r[k].Version.as_str(), x.Version.as_str());
            if c < 0 {
                stop = true;
            } else {
                k = k + 1;
            }
        }
        proof {
            lemma_insert_at(rv, x@, k as int);
        }
        r.insert(k, x);
        assert(infs_view(r@) =~= rv.insert(k as int, x@));
        i = i + 1;
    }
    assert(s.take(n as int) =~= s);
    r
}

// ---------------------------------------------------------------------------
// Matching
// ---------------------------------------------------------------------------

/// The candidates for each id of `ids`, each list ordered by version, one
/// after the other.
fn matches_for_ids_exec(ids: &Vec<String>, infs: &[InfInfo], arch: &String, out: &mut Vec<InfInfo>)
    requires
        forall|j: int|
            0 <= j < ids@.len() ==> pairwise_comparable(
                #[trigger] candidates(strings_view(ids@)[j], infs_view(infs@), arch@),
            ),
    ensures
        infs_view(final(out)@) == infs_view(old(out)@) + matches_for_ids(
            strings_view(ids@),
            infs_view(infs@),
            arch@,
            ids@.len() as int,
        ),
{
    let ghost start = infs_view(out@);
    let ghost idv = strings_view(ids@);
    let n = ids.len();
    let mut i: usize = 0;
    while i < n
        invariant
            i <= n,
            n == ids@.len(),
            idv == strings_view(ids@),
            forall|j: int|
                0 <= j < ids@.len() ==> pairwise_comparable(
                    #[trigger] candidates(strings_view(ids@)[j], infs_view(infs@), arch@),
                ),
            infs_view(out@) =~= start + matches_for_ids(idv, infs_view(infs@), arch@, i as int),
        decreases n - i,
    {
        assert(ids@[i as int]@ == idv[i as int]);
        let list = candidatesFor(&ids[i], infs, arch);
        assert(pairwise_comparable(candidates(idv[i as int], infs_view(infs@), arch@)));
        let sorted = sortByVersionDesc(list);
        let mut j: usize = 0;
        let ghost before = infs_view(out@);
        while j < sorted.len()
            invariant
                j <= sorted@.len(),
                infs_view(out@) =~= before + infs_view(sorted@).take(j as int),
            decreases sorted@.len() - j,
        {
            let item = sorted[j].copy();
            let ghost prev = infs_view(out@);
            out.push(item);
            assert(infs_view(out@) =~= prev.push(item@));
            assert(infs_view(sorted@).take(j + 1) =~= infs_view(sorted@).take(j as int).push(
                sorted@[j as int]@,
            ));
            j = j + 1;
            assert(infs_view(out@) =~= before + infs_view(sorted@).take(j as int));
        }
        assert(infs_view(sorted@).take(sorted@.len() as int) =~= infs_view(sorted@));
        i = i + 1;
    }
}

/// Every driver for a device, and the devices that have one: for each device,
/// the drivers that support architecture `arch` (as `std::env::consts::ARCH`
/// names it) and name one of its hardware ids, then those that name one of its
/// compatible ids, id by id; the drivers for one id ordered from the highest
/// version to the lowest; each driver narrowed to the ids that matched.
/// Devices without a driver are left out.
pub fn getMatchInfo(idInfo: &[HwID], infInfoList: &[InfInfo], arch: &str) -> (r: Result<
    Vec<(HwID, Vec<InfInfo>)>,
    String,
>)
    requires
        all_sortable(hwids_view(idInfo@), infs_view(infInfoList@), inf_arch_name(arch@)),
    ensures
        r is Ok,
        r matches Ok(v) ==> match_info_view(v@) == match_info_upto(
            hwids_view(idInfo@),
            infs_view(infInfoList@),
            inf_arch_name(arch@),
            idInfo@.len() as int,
        ),
{
    let currentArch = currentArch(arch);
    let ghost devs = hwids_view(idInfo@);
    let ghost iv = infs_view(infInfoList@);
    let mut macthInfo: Vec<(HwID, Vec<InfInfo>)> = Vec::new();
    let n = idInfo.len();
    let mut i: usize = 0;
    while i < n
        invariant
            i <= n,
            n == idInfo@.len(),
            devs == hwids_view(idInfo@),
            iv == infs_view(infInfoList@),
            currentArch@ == inf_arch_name(arch@),
            all_sortable(devs, iv, currentArch@),
            match_info_view(macthInfo@) =~= match_info_upto(devs, iv, currentArch@, i as int),
        decreases n - i,
    {
        let device = &idInfo[i];
        assert(device@ == devs[i as int]);
        assert(device_sortable(devs[i as int], iv, currentArch@));
        let mut macthList: Vec<InfInfo> = Vec::new();
        assert(infs_view(macthList@) =~= Seq::<InfModel>::empty());
        matches_for_ids_exec(&device.HardwareIDs, infInfoList, &currentArch, &mut macthList);
        matches_for_ids_exec(&device.CompatibleIDs, infInfoList, &currentArch, &mut macthList);
        assert(infs_view(macthList@) =~= device_matches(devs[i as int], iv, currentArch@));
        if macthList.len() > 0 {
            let d = device.copy();
            let ghost before = match_info_view(macthInfo@);
            macthInfo.push((d, macthList));
            assert(match_info_view(macthInfo@) =~= before.push(
                (devs[i as int], device_matches(devs[i as int], iv, currentArch@)),
            ));
        }
        i = i + 1;
    }
    Ok(macthInfo)
}

// ---------------------------------------------------------------------------
// Without the precondition
// ---------------------------------------------------------------------------

/// Whether any two versions of `list` can be compared.
pub fn versionsComparable(list: &Vec<InfInfo>) -> (r: bool)
    ensures
        r == pairwise_comparable(infs_view(list@)),
{
    let ghost s = infs_view(list@);
    let n = list.len();
    let mut i: usize = 0;
    while i < n
        invariant
            i <= n,
            n == list@.len(),
            s == infs_view(list@),
            forall|a: int, b: int|
                0 <= a < i && 0 <= b < n && a != b ==> version_comparable(
                    #[trigger] s[a].version,
                    #[trigger] s[b].version,
                ),
        decreases n - i,
    {
        let mut j: usize = 0;
        while j < n
            invariant
                j <= n,
                i < n,
                n == list@.len(),
                s == infs_view(list@),
                forall|a: int, b: int|
                    0 <= a < i && 0 <= b < n && a != b ==> version_comparable(
                        #[trigger] s[a].version,
                        #[trigger] s[b].version,
                    ),
                forall|b: int|
                    0 <= b < j && b != i ==> version_comparable(
                        s[i as int].version,
                        #[trigger] s[b].version,
                    ),
            decreases n - j,
        {
            if j != i && !comparable_versions(list[i].Version.as_str(), list[j].Version.as_str()) {
                assert(!version_comparable(s[i as int].version, s[j as int].version));
                return false;
            }
            j = j + 1;
        }
        i = i + 1;
    }
    true
}

/// Whether the candidates of every id in `ids` can be ordered by version.
fn ids_sortable(ids: &Vec<String>, infs: &[InfInfo], arch: &String) -> (r: bool)
    ensures
        r == forall|j: int|
            0 <= j < ids@.len() ==> pairwise_comparable(
                #[trigger] candidates(strings_view(ids@)[j], infs_view(infs@), arch@),
            ),
{
    let n = ids.len();
    let mut i: usize = 0;
    while i < n
        invariant
            i <= n,
            n == ids@.len(),
            forall|j: int|
                0 <= j < i ==> pairwise_comparable(
                    #[trigger] candidates(strings_view(ids@)[j], infs_view(infs@), arch@),
                ),
        decreases n - i,
    {
        assert(ids@[i as int]@ == strings_view(ids@)[i as int]);
        let list = candidatesFor(&ids[i], infs, arch);
        if !versionsComparable(&list) {
            return false;
        }
        i = i + 1;
    }
    true
}

/// [`getMatchInfo`] where every list of candidate drivers can be ordered by
/// version; `None` where some list holds two versions that cannot be compared
/// (a component that does not parse as a number is reached).
pub fn tryGetMatchInfo(idInfo: &[HwID], infInfoList: &[InfInfo], arch: &str) -> (r: Option<
    Vec<(HwID, Vec<InfInfo>)>,
>)
    ensures
        r is Some <==> all_sortable(hwids_view(idInfo@), infs_view(infInfoList@), inf_arch_name(arch@)),
        r matches Some(v) ==> match_info_view(v@) == match_info_upto(
            hwids_view(idInfo@),
            infs_view(infInfoList@),
            inf_arch_name(arch@),
            idInfo@.len() as int,
        ),
{
    let currentArch = currentArch(arch);
    let ghost devs = hwids_view(idInfo@);
    let ghost iv = infs_view(infInfoList@);
    let n = idInfo.len();
    let mut i: usize = 0;
    while i < n
        invariant
            i <= n,
            n == idInfo@.len(),
            devs == hwids_view(idInfo@),
            iv == infs_view(infInfoList@),
            currentArch@ == inf_arch_name(arch@),
            forall|k: int| 0 <= k < i ==> #[trigger] device_sortable(devs[k], iv, currentArch@),
        decreases n - i,
    {
        let device = &idInfo[i];
        assert(device@ == devs[i as int]);
        let ghost d = devs[i as int];
        assert(d.hardware_ids == strings_view(device.HardwareIDs@));
        assert(d.compatible_ids == strings_view(device.CompatibleIDs@));
        if !ids_sortable(&device.HardwareIDs, infInfoList, &currentArch) {
            let ghost j = choose|j: int|
                0 <= j < device.HardwareIDs@.len() && !pairwise_comparable(
                    #[trigger] candidates(strings_view(device.HardwareIDs@)[j], iv, currentArch@),
                );
            assert(!pairwise_comparable(candidates(d.hardware_ids[j], iv, currentArch@)));
            assert(!device_sortable(devs[i as int], iv, currentArch@));
            return None;
        }
        if !ids_sortable(&device.CompatibleIDs, infInfoList, &currentArch) {
            let ghost j = choose|j: int|
                0 <= j < device.CompatibleIDs@.len() && !pairwise_comparable(
                    #[trigger] candidates(strings_view(device.CompatibleIDs@)[j], iv, currentArch@),
                );
            assert(!pairwise_comparable(candidates(d.compatible_ids[j], iv, currentArch@)));
            assert(!device_sortable(devs[i as int], iv, currentArch@));
            return None;
        }
        i = i + 1;
    }
    match getMatchInfo(idInfo, infInfoList, arch) {
        Ok(v) => Some(v),
        Err(_) => None,
    }
}

// ---------------------------------------------------------------------------
// Laws of the matching
// ---------------------------------------------------------------------------

/// No record of `s` has a lower version than a record after it.
pub open spec fn sorted_desc(s: Seq<InfModel>) -> bool {
    forall|i: int, j: int|
        0 <= i < j < s.len() ==> version_order(#[trigger] s[i].version, #[trigger] s[j].version) >= 0
}

proof fn lemma_insert_sorted(r: Seq<InfModel>, x: InfModel)
    requires
        sorted_desc(r),
    ensures
        sorted_desc(insert_desc(r, x)),
    decreases r.len(),
{
    if r.len() == 0 {
        return;
    }
    let t = r.drop_first();
    assert(sorted_desc(t)) by {
        assert forall|i: int, j: int| 0 <= i < j < t.len() implies version_order(
            #[trigger] t[i].version,
            #[trigger] t[j].version,
        ) >= 0 by {
            assert(t[i] == r[i + 1] && t[j] == r[j + 1]);
        }
    }
    let ins = insert_desc(r, x);
    if version_order(r[0].version, x.version) >= 0 {
        lemma_insert_sorted(t, x);
        lemma_insert_elems(t, x);
        let rest = insert_desc(t, x);
        assert(ins == seq![r[0]] + rest);
        assert forall|i: int, j: int| 0 <= i < j < ins.len() implies version_order(
            #[trigger] ins[i].version,
            #[trigger] ins[j].version,
        ) >= 0 by {
            if i == 0 {
                assert(ins[j] == rest[j - 1]);
                if rest[j - 1] != x {
                    let m = choose|m: int| 0 <= m < t.len() && t[m] == rest[j - 1];
                    assert(t[m] == r[m + 1]);
                    assert(version_order(r[0].version, r[m + 1].version) >= 0);
                }
            } else {
                assert(ins[i] == rest[i - 1] && ins[j] == rest[j - 1]);
            }
        }
    } else {
        assert(ins == seq![x] + r);
        law_version_order_antisymmetric(r[0].version, x.version);
        assert forall|i: int, j: int| 0 <= i < j < ins.len() implies version_order(
            #[trigger] ins[i].version,
            #[trigger] ins[j].version,
        ) >= 0 by {
            if i == 0 {
                assert(ins[j] == r[j - 1]);
                if j - 1 > 0 {
                    assert(version_order(r[0].version, r[j - 1].version) >= 0);
                } else {
                    crate::utils::version::law_version_order_reflexive(r[0].version);
                }
                law_version_order_transitive(x.version, r[0].version, r[j - 1].version);
            } else {
                assert(ins[i] == r[i - 1] && ins[j] == r[j - 1]);
            }
        }
    }
}

proof fn lemma_sort_sorted(s: Seq<InfModel>)
    ensures
        sorted_desc(sort_desc(s)),
    decreases s.len(),
{
    if s.len() > 0 {
        lemma_sort_sorted(s.drop_last());
        lemma_insert_sorted(sort_desc(s.drop_last()), s.last());
    }
}

/// The drivers for one id come from the highest version to the lowest.
pub proof fn law_matches_by_descending_version(ha: Seq<char>, infs: Seq<InfModel>, arch: Seq<char>)
    ensures
        sorted_desc(matches_for_id(ha, infs, arch)),
{
    lemma_sort_sorted(candidates(ha, infs, arch));
}

proof fn lemma_candidates_props(ha: Seq<char>, infs: Seq<InfModel>, arch: Seq<char>, k: int)
    ensures
        forall|m: int|
            0 <= m < candidates_upto(ha, infs, arch, k).len() ==> {
                let c = #[trigger] candidates_upto(ha, infs, arch, k)[m];
                &&& exists|q: int| 0 <= q < infs.len() && c == narrowed(ha, #[trigger] infs[q])
                &&& c.arch.contains(arch)
                &&& c.driver_list.len() > 0
            },
    decreases k,
{
    if 0 < k <= infs.len() {
        lemma_candidates_props(ha, infs, arch, k - 1);
        let before = candidates_upto(ha, infs, arch, k - 1);
        let cur = candidates_upto(ha, infs, arch, k);
        assert forall|m: int| 0 <= m < cur.len() implies {
            let c = #[trigger] cur[m];
            &&& exists|q: int| 0 <= q < infs.len() && c == narrowed(ha, #[trigger] infs[q])
            &&& c.arch.contains(arch)
            &&& c.driver_list.len() > 0
        } by {
            if m < before.len() {
                assert(cur[m] == before[m]);
            } else {
                assert(cur[m] == narrowed(ha, infs[k - 1]));
            }
        }
    }
}

/// Each driver listed for an id is a driver of the index that supports the
/// architecture, narrowed to the ids it names that equal that id ignoring
/// case, and at least one such id remains.
pub proof fn law_matches_serve_the_id(
    ha: Seq<char>,
    infs: Seq<InfModel>,
    arch: Seq<char>,
    m: int,
)
    requires
        0 <= m < matches_for_id(ha, infs, arch).len(),
    ensures
        ({
            let c = matches_for_id(ha, infs, arch)[m];
            &&& exists|q: int| 0 <= q < infs.len() && c == narrowed(ha, #[trigger] infs[q])
            &&& c.arch.contains(arch)
            &&& c.driver_list.len() > 0
            &&& forall|t: int| 0 <= t < c.driver_list.len() ==> same_id(ha, #[trigger] c.driver_list[t])
        }),
{
    let cands = candidates(ha, infs, arch);
    lemma_sort_elems(cands);
    lemma_candidates_props(ha, infs, arch, infs.len() as int);
    let c = matches_for_id(ha, infs, arch)[m];
    let p = choose|p: int| 0 <= p < cands.len() && cands[p] == c;
    assert(cands[p] == c);
    let q = choose|q: int| 0 <= q < infs.len() && c == narrowed(ha, #[trigger] infs[q]);
    assert forall|t: int| 0 <= t < c.driver_list.len() implies same_id(ha, #[trigger] c.driver_list[t]) by {
        let ids = infs[q].driver_list;
        ids.lemma_filter_pred(|id: Seq<char>| same_id(ha, id), t);
    }
}

/// A device is listed exactly when some driver serves it, and then with the
/// drivers for its hardware ids before those for its compatible ids.
pub proof fn law_listed_devices_have_drivers(
    devs: Seq<HwIDModel>,
    infs: Seq<InfModel>,
    arch: Seq<char>,
    k: int,
    m: int,
)
    requires
        0 <= m < match_info_upto(devs, infs, arch, k).len(),
    ensures
        ({
            let e = match_info_upto(devs, infs, arch, k)[m];
            &&& devs.contains(e.0)
            &&& e.1 == device_matches(e.0, infs, arch)
            &&& e.1.len() > 0
        }),
    decreases k,
{
    if 0 < k <= devs.len() {
        let before = match_info_upto(devs, infs, arch, k - 1);
        if m < before.len() {
            law_listed_devices_have_drivers(devs, infs, arch, k - 1, m);
            assert(match_info_upto(devs, infs, arch, k)[m] == before[m]);
        } else {
            assert(devs[k - 1] == devs[k - 1]);
        }
    }
}

// ---------------------------------------------------------------------------
// Every id of a device is looked up
// ---------------------------------------------------------------------------

proof fn lemma_insert_keeps(r: Seq<InfModel>, x: InfModel)
    ensures
        insert_desc(r, x).contains(x),
        forall|y: InfModel| r.contains(y) ==> #[trigger] insert_desc(r, x).contains(y),
    decreases r.len(),
{
    let ins = insert_desc(r, x);
    if r.len() == 0 {
        assert(ins[0] == x);
    } else if version_order(r[0].version, x.version) >= 0 {
        let t = r.drop_first();
        lemma_insert_keeps(t, x);
        let rest = insert_desc(t, x);
        assert(ins == seq![r[0]] + rest);
        let k = choose|k: int| 0 <= k < rest.len() && rest[k] == x;
        assert(ins[k + 1] == x);
        assert forall|y: InfModel| r.contains(y) implies #[trigger] ins.contains(y) by {
            let m = choose|m: int| 0 <= m < r.len() && r[m] == y;
            if m == 0 {
                assert(ins[0] == y);
            } else {
                assert(t[m - 1] == y);
                assert(t.contains(y));
                assert(rest.contains(y));
                let k2 = choose|k2: int| 0 <= k2 < rest.len() && rest[k2] == y;
                assert(ins[k2 + 1] == y);
            }
        }
    } else {
        assert(ins == seq![x] + r);
        assert(ins[0] == x);
        assert forall|y: InfModel| r.contains(y) implies #[trigger] ins.contains(y) by {
            let m = choose|m: int| 0 <= m < r.len() && r[m] == y;
            assert(ins[m + 1] == y);
        }
    }
}

proof fn lemma_sort_keeps(s: Seq<InfModel>)
    ensures
        forall|j: int| 0 <= j < s.len() ==> sort_desc(s).contains(#[trigger] s[j]),
    decreases s.len(),
{
    if s.len() > 0 {
        let p = s.drop_last();
        lemma_sort_keeps(p);
        lemma_insert_keeps(sort_desc(p), s.last());
        assert forall|j: int| 0 <= j < s.len() implies sort_desc(s).contains(#[trigger] s[j]) by {
            if j < s.len() - 1 {
                assert(p[j] == s[j]);
                assert(sort_desc(p).contains(p[j]));
            }
        }
    }
}

proof fn lemma_candidates_contain(ha: Seq<char>, infs: Seq<InfModel>, arch: Seq<char>, q: int, k: int)
    requires
        0 <= q < k <= infs.len(),
        infs[q].arch.contains(arch),
        ids_matching(ha, infs[q].driver_list).len() > 0,
    ensures
        candidates_upto(ha, infs, arch, k).contains(narrowed(ha, infs[q])),
    decreases k,
{
    let cur = candidates_upto(ha, infs, arch, k);
    let before = candidates_upto(ha, infs, arch, k - 1);
    if q == k - 1 {
        assert(cur[cur.len() - 1] == narrowed(ha, infs[q]));
    } else {
        lemma_candidates_contain(ha, infs, arch, q, k - 1);
        let m = choose|m: int| 0 <= m < before.len() && before[m] == narrowed(ha, infs[q]);
        assert(cur[m] == before[m]);
    }
}

proof fn lemma_ids_contain(ids: Seq<Seq<char>>, infs: Seq<InfModel>, arch: Seq<char>, n: int, j: int, c: InfModel)
    requires
        0 <= j < n <= ids.len(),
        matches_for_id(ids[j], infs, arch).contains(c),
    ensures
        matches_for_ids(ids, infs, arch, n).contains(c),
    decreases n,
{
    let before = matches_for_ids(ids, infs, arch, n - 1);
    let last = matches_for_id(ids[n - 1], infs, arch);
    assert(matches_for_ids(ids, infs, arch, n) == before + last);
    if j == n - 1 {
        let m = choose|m: int| 0 <= m < last.len() && last[m] == c;
        assert((before + last)[before.len() + m] == c);
    } else {
        lemma_ids_contain(ids, infs, arch, n - 1, j, c);
        let m = choose|m: int| 0 <= m < before.len() && before[m] == c;
        assert((before + last)[m] == c);
    }
}

proof fn lemma_match_info_has(devs: Seq<HwIDModel>, infs: Seq<InfModel>, arch: Seq<char>, k: int, i: int)
    requires
        0 <= i < k <= devs.len(),
        device_matches(devs[i], infs, arch).len() > 0,
    ensures
        exists|m: int|
            0 <= m < match_info_upto(devs, infs, arch, k).len() && (#[trigger] match_info_upto(
                devs,
                infs,
                arch,
                k,
            )[m]) == (devs[i], device_matches(devs[i], infs, arch)),
    decreases k,
{
    let cur = match_info_upto(devs, infs, arch, k);
    let before = match_info_upto(devs, infs, arch, k - 1);
    if i == k - 1 {
        assert(cur[cur.len() - 1] == (devs[i], device_matches(devs[i], infs, arch)));
    } else {
        lemma_match_info_has(devs, infs, arch, k - 1, i);
        let m = choose|m: int|
            0 <= m < before.len() && (#[trigger] before[m]) == (devs[i], device_matches(devs[i], infs, arch));
        if device_matches(devs[k - 1], infs, arch).len() > 0 {
            assert(cur[m] == before[m]);
        } else {
            assert(cur[m] == before[m]);
        }
    }
}

/// Every hardware id and every compatible id of a device is looked up: a
/// driver of the index that supports the architecture and names one of the
/// device's ids (ignoring case) is among the drivers listed for that device,
/// with that id.
pub proof fn law_every_id_of_a_device_is_looked_up(
    devs: Seq<HwIDModel>,
    infs: Seq<InfModel>,
    arch: Seq<char>,
    i: int,
    id: Seq<char>,
    q: int,
    t: int,
)
    requires
        0 <= i < devs.len(),
        devs[i].hardware_ids.contains(id) || devs[i].compatible_ids.contains(id),
        0 <= q < infs.len(),
        infs[q].arch.contains(arch),
        0 <= t < infs[q].driver_list.len(),
        same_id(id, infs[q].driver_list[t]),
    ensures
        exists|m: int, c: InfModel|
            0 <= m < match_info_upto(devs, infs, arch, devs.len() as int).len()
                && match_info_upto(devs, infs, arch, devs.len() as int)[m].0 == devs[i]
                && #[trigger] match_info_upto(devs, infs, arch, devs.len() as int)[m].1.contains(c)
                && c.path == infs[q].path && c.inf == infs[q].inf && c.class == infs[q].class
                && c.version == infs[q].version && c.driver_list.contains(infs[q].driver_list[t]),
{
    let d = devs[i];
    let c = narrowed(id, infs[q]);
    infs[q].driver_list.lemma_filter_contains(|x: Seq<char>| same_id(id, x), t);
    assert(c.driver_list.contains(infs[q].driver_list[t]));
    assert(ids_matching(id, infs[q].driver_list).len() > 0);
    lemma_candidates_contain(id, infs, arch, q, infs.len() as int);
    let cands = candidates(id, infs, arch);
    let p = choose|p: int| 0 <= p < cands.len() && cands[p] == c;
    lemma_sort_keeps(cands);
    assert(sort_desc(cands).contains(cands[p]));
    assert(matches_for_id(id, infs, arch).contains(c));
    let hw = matches_for_ids(d.hardware_ids, infs, arch, d.hardware_ids.len() as int);
    let cp = matches_for_ids(d.compatible_ids, infs, arch, d.compatible_ids.len() as int);
    assert(device_matches(d, infs, arch) == hw + cp);
    if d.hardware_ids.contains(id) {
        let j = choose|j: int| 0 <= j < d.hardware_ids.len() && d.hardware_ids[j] == id;
        lemma_ids_contain(d.hardware_ids, infs, arch, d.hardware_ids.len() as int, j, c);
        let m = choose|m: int| 0 <= m < hw.len() && hw[m] == c;
        assert((hw + cp)[m] == c);
    } else {
        let j = choose|j: int| 0 <= j < d.compatible_ids.len() && d.compatible_ids[j] == id;
        lemma_ids_contain(d.compatible_ids, infs, arch, d.compatible_ids.len() as int, j, c);
        let m = choose|m: int| 0 <= m < cp.len() && cp[m] == c;
        assert((hw + cp)[hw.len() + m] == c);
    }
    assert(device_matches(d, infs, arch).contains(c));
    lemma_match_info_has(devs, infs, arch, devs.len() as int, i);
    let m = choose|m: int|
        0 <= m < match_info_upto(devs, infs, arch, devs.len() as int).len() && (
        #[trigger] match_info_upto(devs, infs, arch, devs.len() as int)[m]) == (d, device_matches(d, infs, arch));
    assert(match_info_upto(devs, infs, arch, devs.len() as int)[m].1.contains(c));
}

// ---------------------------------------------------------------------------
// Rounds of installation
// ---------------------------------------------------------------------------

/// Device `d` was handled in an earlier round: a device of `total` has its
/// instance path.
pub open spec fn handled(total: Seq<HwIDModel>, d: HwIDModel) -> bool {
    exists|k: int| 0 <= k < total.len() && (#[trigger] total[k]).path == d.path
}

/// The devices of `list` not handled in an earlier round, in order.
pub open spec fn new_devices_spec(list: Seq<HwIDModel>, total: Seq<HwIDModel>) -> Seq<HwIDModel> {
    list.filter(|d: HwIDModel| !handled(total, d))
}

/// The devices of `hwIDList` that `totalList` does not hold (two devices are
/// the same when their instance paths are equal), in order.
pub fn newDevices(hwIDList: &Vec<HwID>, totalList: &Vec<HwID>) -> (r: Vec<HwID>)
    ensures
        hwids_view(r@) == new_devices_spec(hwids_view(hwIDList@), hwids_view(totalList@)),
{
    let ghost lv = hwids_view(hwIDList@);
    let ghost tv = hwids_view(totalList@);
    let mut out: Vec<HwID> = Vec::new();
    let n = hwIDList.len();
    let mut i: usize = 0;
    while i < n
        invariant
            i <= n,
            n == hwIDList@.len(),
            lv == hwids_view(hwIDList@),
            tv == hwids_view(totalList@),
            hwids_view(out@) =~= lv.take(i as int).filter(|d: HwIDModel| !handled(tv, d)),
        decreases n - i,
    {
        let item = &hwIDList[i];
        assert(item@ == lv[i as int]);
        let m = totalList.len();
        let mut k: usize = 0;
        let mut seen = false;
        while k < m && !seen
            invariant
                k <= m,
                m == totalList@.len(),
                tv == hwids_view(totalList@),
                !seen ==> forall|j: int| 0 <= j < k ==> (#[trigger] tv[j]).path != item@.path,
                seen ==> handled(tv, item@),
            decreases m - k + (if seen { 0int } else { 1int }),
        {
            if totalList[k].DeviceInstancePath == item.DeviceInstancePath {
                assert(tv[k as int].path == item@.path);
                seen = true;
            } else {
                k = k + 1;
            }
        }
        assert(lv.take(i + 1).drop_last() =~= lv.take(i as int));
        assert(lv.take(i + 1).last() == item@);
        reveal_with_fuel(Seq::filter, 1);
        if !seen {
            let c = item.copy();
            let ghost before = hwids_view(out@);
            out.push(c);
            assert(hwids_view(out@) =~= before.push(item@));
        }
        i = i + 1;
    }
    assert(lv.take(n as int) =~= lv);
    out
}

/// What a round of installation does next.
pub enum RoundPlan {
    /// No device is left that an earlier round did not handle: stop.
    NothingNew,
    /// In the first round, no driver serves any device: stop.
    NoDriverFound,
    /// Install, for each device, the drivers found for it.
    Install(Vec<(HwID, Vec<InfInfo>)>),
}

/// How many rounds of installation are run at most: a driver installed in
/// one round may bring up devices that the next round serves.
pub const INSTALL_ROUNDS: usize = 3;

/// Plans round `scanCount` (from 0) of installation for the devices
/// `hwIDList`: from round [`INSTALL_ROUNDS`] on nothing is left to do;
/// before, the devices that earlier rounds handled are skipped, the others
/// are added to `totalList` and matched with the drivers of `infInfoList`
/// for architecture `arch`. `None` where the drivers found for an id cannot
/// be ordered by version.
pub fn planRound(
    scanCount: usize,
    hwIDList: &Vec<HwID>,
    totalList: &mut Vec<HwID>,
    infInfoList: &[InfInfo],
    arch: &str,
) -> (r: Option<RoundPlan>)
    ensures
        scanCount >= INSTALL_ROUNDS ==> (r matches Some(RoundPlan::NothingNew) && hwids_view(
            final(totalList)@,
        ) == hwids_view(old(totalList)@)),
        scanCount < INSTALL_ROUNDS ==> ({
            let fresh = new_devices_spec(hwids_view(hwIDList@), hwids_view(old(totalList)@));
            let infs = infs_view(infInfoList@);
            let a = inf_arch_name(arch@);
            let found = match_info_upto(fresh, infs, a, fresh.len() as int);
            &&& (fresh.len() == 0 ==> (r matches Some(RoundPlan::NothingNew) && hwids_view(
                final(totalList)@,
            ) == hwids_view(old(totalList)@)))
            &&& (fresh.len() > 0 ==> hwids_view(final(totalList)@) == hwids_view(old(totalList)@)
                + fresh)
            &&& (fresh.len() > 0 ==> (r is None <==> !all_sortable(fresh, infs, a)))
            &&& ((fresh.len() > 0 && all_sortable(fresh, infs, a) && scanCount == 0 && found.len()
                == 0) ==> (r matches Some(RoundPlan::NoDriverFound)))
            &&& ((fresh.len() > 0 && all_sortable(fresh, infs, a) && !(scanCount == 0
                && found.len() == 0)) ==> (r matches Some(RoundPlan::Install(v)) && match_info_view(
                v@,
            ) == found))
        }),
{
    if scanCount >= INSTALL_ROUNDS {
        return Some(RoundPlan::NothingNew);
    }
    let fresh = newDevices(hwIDList, totalList);
    if fresh.len() == 0 {
        return Some(RoundPlan::NothingNew);
    }
    let n = fresh.len();
    let mut i: usize = 0;
    let ghost start = hwids_view(totalList@);
    while i < n
        invariant
            i <= n,
            n == fresh@.len(),
            hwids_view(totalList@) =~= start + hwids_view(fresh@).take(i as int),
        decreases n - i,
    {
        let c = fresh[i].copy();
        let ghost prev = hwids_view(totalList@);
        totalList.push(c);
        assert(hwids_view(totalList@) =~= prev.push(fresh@[i as int]@));
        assert(hwids_view(fresh@).take(i + 1) =~= hwids_view(fresh@).take(i as int).push(
            fresh@[i as int]@,
        ));
        i = i + 1;
    }
    assert(hwids_view(fresh@).take(n as int) =~= hwids_view(fresh@));
    match tryGetMatchInfo(fresh.as_slice(), infInfoList, arch) {
        None => None,
        Some(found) => {
            if scanCount == 0 && found.len() == 0 {
                Some(RoundPlan::NoDriverFound)
            } else {
                Some(RoundPlan::Install(found))
            }
        },
    }
}

/// A round installs drivers only for devices that no earlier round handled.
pub proof fn law_round_skips_handled_devices(
    list: Seq<HwIDModel>,
    total: Seq<HwIDModel>,
    infs: Seq<InfModel>,
    arch: Seq<char>,
    m: int,
)
    requires
        0 <= m < match_info_upto(
            new_devices_spec(list, total),
            infs,
            arch,
            new_devices_spec(list, total).len() as int,
        ).len(),
    ensures
        !handled(
            total,
            match_info_upto(
                new_devices_spec(list, total),
                infs,
                arch,
                new_devices_spec(list, total).len() as int,
            )[m].0,
        ),
{
    let fresh = new_devices_spec(list, total);
    law_listed_devices_have_drivers(fresh, infs, arch, fresh.len() as int, m);
    let d = match_info_upto(fresh, infs, arch, fresh.len() as int)[m].0;
    let k = choose|k: int| 0 <= k < fresh.len() && fresh[k] == d;
    list.lemma_filter_pred(|d: HwIDModel| !handled(total, d), k);
}

/// After a round, every device it was given counts as handled.
pub proof fn law_round_handles_every_device(list: Seq<HwIDModel>, total: Seq<HwIDModel>, d: int)
    requires
        0 <= d < list.len(),
    ensures
        handled(total + new_devices_spec(list, total), list[d]),
{
    let fresh = new_devices_spec(list, total);
    let all = total + fresh;
    if handled(total, list[d]) {
        let k = choose|k: int| 0 <= k < total.len() && (#[trigger] total[k]).path == list[d].path;
        assert(all[k] == total[k]);
    } else {
        list.lemma_filter_contains(|d: HwIDModel| !handled(total, d), d);
        let k = choose|k: int| 0 <= k < fresh.len() && fresh[k] == list[d];
        assert(all[total.len() + k] == fresh[k]);
    }
}

/// Where the index of a package is read from.
pub enum IndexSource {
    /// The path as given (an absolute path).
    AsGiven,
    /// The path taken in the directory that holds the package.
    BesidePackage,
    /// The path taken inside the package, extracted from it first.
    InsidePackage,
}

/// Where the index named when loading a package is read: an absolute path as
/// given; a relative one beside the package when a file is there, else from
/// inside the package.
pub fn indexSource(indexIsRelative: bool, existsBesidePackage: bool) -> (r: IndexSource)
    ensures
        !indexIsRelative ==> r == IndexSource::AsGiven,
        indexIsRelative && existsBesidePackage ==> r == IndexSource::BesidePackage,
        indexIsRelative && !existsBesidePackage ==> r == IndexSource::InsidePackage,
{
    if !indexIsRelative {
        IndexSource::AsGiven
    } else if existsBesidePackage {
        IndexSource::BesidePackage
    } else {
        IndexSource::InsidePackage
    }
}

// ---------------------------------------------------------------------------
// Installing the drivers found for a device
// ---------------------------------------------------------------------------

/// The next step with the `n` drivers found for a device, which are tried
/// best first.
pub enum InstallStep {
    /// Try the driver at this index.
    TryNext(usize),
    /// The driver at this index is in place: install it.
    Install(usize),
    /// The driver at this index was extracted (and installed, unless only
    /// extracting).
    Succeeded(usize),
    /// No driver worked; the driver at this index, the last, is reported.
    Failed(usize),
}

/// The driver after `k`, or failure when `k` is the last of `n`.
pub open spec fn next_or_failed(k: usize, n: usize) -> InstallStep {
    if k + 1 < n {
        InstallStep::TryNext((k + 1) as usize)
    } else {
        InstallStep::Failed(k)
    }
}

/// The step after extracting driver `k` of `n`: when the package is a file
/// and the extraction failed, the next driver; else success when only
/// extracting, or installation.
pub open spec fn after_extract(k: usize, n: usize, isFile: bool, extracted: bool, extractOnly: bool) -> InstallStep {
    if isFile && !extracted {
        next_or_failed(k, n)
    } else if extractOnly {
        InstallStep::Succeeded(k)
    } else {
        InstallStep::Install(k)
    }
}

/// The step after installing driver `k` of `n`: success, or the next driver.
pub open spec fn after_install(k: usize, n: usize, installed: bool) -> InstallStep {
    if installed {
        InstallStep::Succeeded(k)
    } else {
        next_or_failed(k, n)
    }
}

/// What to do after driver `k` of the `n` drivers of a device was extracted
/// (`extracted`; nothing is extracted from a package that is a directory).
pub fn afterExtract(k: usize, n: usize, isFile: bool, extracted: bool, extractOnly: bool) -> (r: InstallStep)
    requires
        k < n,
    ensures
        r == after_extract(k, n, isFile, extracted, extractOnly),
        isFile && !extracted ==> r == (if k + 1 < n {
            InstallStep::TryNext((k + 1) as usize)
        } else {
            InstallStep::Failed(k)
        }),
        (!isFile || extracted) && extractOnly ==> r == InstallStep::Succeeded(k),
        (!isFile || extracted) && !extractOnly ==> r == InstallStep::Install(k),
{
    if isFile && !extracted {
        if k + 1 < n {
            InstallStep::TryNext(k + 1)
        } else {
            InstallStep::Failed(k)
        }
    } else if extractOnly {
        InstallStep::Succeeded(k)
    } else {
        InstallStep::Install(k)
    }
}

/// What to do after driver `k` of the `n` drivers of a device was installed
/// (`installed`) or not.
pub fn afterInstall(k: usize, n: usize, installed: bool) -> (r: InstallStep)
    requires
        k < n,
    ensures
        r == after_install(k, n, installed),
        installed ==> r == InstallStep::Succeeded(k),
        !installed ==> r == (if k + 1 < n {
            InstallStep::TryNext((k + 1) as usize)
        } else {
            InstallStep::Failed(k)
        }),
{
    if installed {
        InstallStep::Succeeded(k)
    } else if k + 1 < n {
        InstallStep::TryNext(k + 1)
    } else {
        InstallStep::Failed(k)
    }
}

/// Driver `k` works: it can be extracted (when the package is a file) and
/// installed (unless only extracting).
pub open spec fn driver_works(
    k: int,
    isFile: bool,
    extractOnly: bool,
    extracted: Seq<bool>,
    installed: Seq<bool>,
) -> bool {
    (!isFile || extracted[k]) && (extractOnly || installed[k])
}

/// Trying driver `k`: extraction, then installation when it is asked for.
pub open spec fn try_driver(
    k: usize,
    n: usize,
    isFile: bool,
    extractOnly: bool,
    extracted: Seq<bool>,
    installed: Seq<bool>,
) -> InstallStep {
    match after_extract(k, n, isFile, extracted[k as int], extractOnly) {
        InstallStep::Install(i) => after_install(i, n, installed[i as int]),
        step => step,
    }
}

/// Where trying the drivers from `k` on ends, where extracting driver `i`
/// gives `extracted[i]` and installing it gives `installed[i]`.
pub open spec fn install_outcome(
    k: usize,
    n: usize,
    isFile: bool,
    extractOnly: bool,
    extracted: Seq<bool>,
    installed: Seq<bool>,
) -> InstallStep
    decreases n - k,
{
    if k < n {
        match try_driver(k, n, isFile, extractOnly, extracted, installed) {
            InstallStep::TryNext(j) => if k < j && j <= n {
                install_outcome(j, n, isFile, extractOnly, extracted, installed)
            } else {
                InstallStep::Failed(k)
            },
            step => step,
        }
    } else {
        InstallStep::Failed(k)
    }
}

proof fn lemma_install_outcome_from(
    k: usize,
    n: usize,
    isFile: bool,
    extractOnly: bool,
    extracted: Seq<bool>,
    installed: Seq<bool>,
)
    requires
        k < n,
        extracted.len() == n,
        installed.len() == n,
    ensures
        match install_outcome(k, n, isFile, extractOnly, extracted, installed) {
            InstallStep::Succeeded(i) => k <= i < n && driver_works(
                i as int,
                isFile,
                extractOnly,
                extracted,
                installed,
            ) && forall|j: int|
                k <= j < i ==> !#[trigger] driver_works(j, isFile, extractOnly, extracted, installed),
            InstallStep::Failed(i) => i == n - 1 && forall|j: int|
                k <= j < n ==> !#[trigger] driver_works(j, isFile, extractOnly, extracted, installed),
            _ => false,
        },
    decreases n - k,
{
    if !driver_works(k as int, isFile, extractOnly, extracted, installed) {
        assert(try_driver(k, n, isFile, extractOnly, extracted, installed) == next_or_failed(k, n));
        if k + 1 < n {
            lemma_install_outcome_from((k + 1) as usize, n, isFile, extractOnly, extracted, installed);
        }
    }
}

/// Trying the drivers of a device best first, as [`afterExtract`] and
/// [`afterInstall`] direct, succeeds with the first driver that can be
/// extracted (when the package is a file) and installed (unless only
/// extracting), and fails, naming the last driver, exactly when none can.
pub proof fn law_first_working_driver_is_used(
    n: usize,
    isFile: bool,
    extractOnly: bool,
    extracted: Seq<bool>,
    installed: Seq<bool>,
)
    requires
        0 < n,
        extracted.len() == n,
        installed.len() == n,
    ensures
        match install_outcome(0, n, isFile, extractOnly, extracted, installed) {
            InstallStep::Succeeded(k) => k < n && driver_works(
                k as int,
                isFile,
                extractOnly,
                extracted,
                installed,
            ) && forall|j: int|
                0 <= j < k ==> !#[trigger] driver_works(j, isFile, extractOnly, extracted, installed),
            InstallStep::Failed(k) => k == n - 1 && forall|j: int|
                0 <= j < n ==> !#[trigger] driver_works(j, isFile, extractOnly, extracted, installed),
            _ => false,
        },
{
    lemma_install_outcome_from(0, n, isFile, extractOnly, extracted, installed);
}

} // verus!
