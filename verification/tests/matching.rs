use driver_indexer::subCommand::create_index::InfInfo;
use driver_indexer::subCommand::load_driver::{
    candidatesFor, currentArch, getMatchInfo, newDevices, planRound, sortByVersionDesc, tryGetMatchInfo,
    versionsComparable, RoundPlan,
};
use driver_indexer::utils::devcon::HwID;

fn s(v: &[&str]) -> Vec<String> {
    v.iter().map(|x| x.to_string()).collect()
}

fn inf(name: &str, arch: &[&str], version: &str, ids: &[&str]) -> InfInfo {
    InfInfo {
        Path: format!("dir\\{}", name),
        Inf: format!("{}.inf", name),
        Class: "Net".into(),
        Arch: s(arch),
        Date: "01/01/2020".into(),
        Version: version.into(),
        DriverList: s(ids),
    }
}

fn dev(path: &str, hw: &[&str], compat: &[&str]) -> HwID {
    HwID { DeviceInstancePath: path.into(), Name: "device".into(), HardwareIDs: s(hw), CompatibleIDs: s(compat) }
}

#[test]
fn arch_names() {
    assert_eq!(currentArch("x86"), "NTx86");
    assert_eq!(currentArch("x86_64"), "NTamd64");
    assert_eq!(currentArch("arm"), "NTarm");
    assert_eq!(currentArch("aarch64"), "");
}

#[test]
fn dedicated_drivers_come_first_then_by_version() {
    let infs = vec![
        inf("a", &["NTamd64"], "1.0", &["PCI\\VEN_1&DEV_2"]),
        inf("b", &["NTx86", "NTamd64"], "2.0", &["pci\\ven_1&dev_2", "OTHER"]),
        inf("c", &["NTx86"], "9.0", &["PCI\\VEN_1&DEV_2"]),
        inf("d", &["NTamd64"], "3.0", &["PCI\\CC_0200"]),
    ];
    let devices = vec![
        dev("PCI\\1", &["PCI\\VEN_1&DEV_2"], &["PCI\\CC_0200"]),
        dev("PCI\\2", &["PCI\\VEN_9"], &[]),
    ];
    let found = getMatchInfo(&devices, &infs, "x86_64").unwrap();
    assert_eq!(found.len(), 1);
    assert_eq!(found[0].0.DeviceInstancePath, "PCI\\1");
    let names: Vec<&str> = found[0].1.iter().map(|i| i.Inf.as_str()).collect();
    assert_eq!(names, vec!["b.inf", "a.inf", "d.inf"]);
    // narrowed to the ids that matched
    assert_eq!(found[0].1[0].DriverList, s(&["pci\\ven_1&dev_2"]));
    assert_eq!(found[0].1[0].Arch, s(&["NTx86", "NTamd64"]));
    // on x86 the x86 drivers serve instead
    let found = getMatchInfo(&devices, &infs, "x86").unwrap();
    let names: Vec<&str> = found[0].1.iter().map(|i| i.Inf.as_str()).collect();
    assert_eq!(names, vec!["c.inf", "b.inf"]);
    // no INF names an ARM64 architecture that this mapping knows
    assert!(getMatchInfo(&devices, &infs, "aarch64").unwrap().is_empty());
}

#[test]
fn equal_versions_keep_their_order() {
    let list = vec![
        inf("a", &[], "1.0", &[]),
        inf("b", &[], "2", &[]),
        inf("c", &[], "1", &[]),
        inf("d", &[], "2.0.0", &[]),
        inf("e", &[], "10", &[]),
    ];
    assert!(versionsComparable(&list));
    let sorted = sortByVersionDesc(list);
    let names: Vec<&str> = sorted.iter().map(|i| i.Inf.as_str()).collect();
    assert_eq!(names, vec!["e.inf", "b.inf", "d.inf", "a.inf", "c.inf"]);
}

#[test]
fn candidates_keep_index_order() {
    let infs = vec![inf("a", &["NTamd64"], "1", &["X"]), inf("b", &["NTamd64"], "2", &["x", "X"])];
    let c = candidatesFor(&"X".to_string(), &infs, &"NTamd64".to_string());
    assert_eq!(c.len(), 2);
    assert_eq!(c[1].DriverList, s(&["x", "X"]));
}

#[test]
fn unorderable_versions_are_reported() {
    let infs = vec![
        inf("a", &["NTamd64"], "", &["ID"]),
        inf("b", &["NTamd64"], "1.0", &["ID"]),
    ];
    let devices = vec![dev("P", &["ID"], &[])];
    assert!(tryGetMatchInfo(&devices, &infs, "x86_64").is_none());
    // a single candidate needs no ordering
    let one = vec![inf("a", &["NTamd64"], "", &["ID"])];
    let found = tryGetMatchInfo(&devices, &one, "x86_64").unwrap();
    assert_eq!(found[0].1.len(), 1);
}

#[test]
fn rounds_skip_handled_devices() {
    let infs = vec![inf("a", &["NTamd64"], "1.0", &["ID1"]), inf("b", &["NTamd64"], "1.0", &["ID2"])];
    let mut total: Vec<HwID> = Vec::new();
    let first = vec![dev("P1", &["ID1"], &[]), dev("P2", &["ID9"], &[])];
    match planRound(0, &first, &mut total, &infs, "x86_64").unwrap() {
        RoundPlan::Install(found) => {
            assert_eq!(found.len(), 1);
            assert_eq!(found[0].0.DeviceInstancePath, "P1");
        }
        _ => panic!("expected an installation"),
    }
    assert_eq!(total.len(), 2);
    // the same devices again: nothing new
    assert!(matches!(planRound(1, &first, &mut total, &infs, "x86_64").unwrap(), RoundPlan::NothingNew));
    assert_eq!(total.len(), 2);
    // a new device appears
    let second = vec![dev("P1", &["ID1"], &[]), dev("P3", &["id2"], &[])];
    assert_eq!(newDevices(&second, &total).len(), 1);
    match planRound(1, &second, &mut total, &infs, "x86_64").unwrap() {
        RoundPlan::Install(found) => {
            assert_eq!(found.len(), 1);
            assert_eq!(found[0].0.DeviceInstancePath, "P3");
        }
        _ => panic!("expected an installation"),
    }
    assert_eq!(total.len(), 3);
}

#[test]
fn first_round_without_driver_stops() {
    let infs = vec![inf("a", &["NTamd64"], "1.0", &["ID1"])];
    let mut total: Vec<HwID> = Vec::new();
    let devices = vec![dev("P9", &["ID9"], &[])];
    assert!(matches!(planRound(0, &devices, &mut total, &infs, "x86_64").unwrap(), RoundPlan::NoDriverFound));
    let mut total: Vec<HwID> = Vec::new();
    match planRound(2, &devices, &mut total, &infs, "x86_64").unwrap() {
        RoundPlan::Install(found) => assert!(found.is_empty()),
        _ => panic!("later rounds install what they found"),
    }
}
