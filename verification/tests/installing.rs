use driver_indexer::subCommand::create_index::{indexSaveLocation, IndexLocation, InfInfo};
use driver_indexer::subCommand::load_driver::{
    afterExtract, afterInstall, indexSource, planRound, IndexSource, InstallStep, RoundPlan, INSTALL_ROUNDS,
};
use driver_indexer::utils::devcon::{Devcon, HwID};
use driver_indexer::utils::util::String_utils;

fn dev(path: &str, hw: &[&str]) -> HwID {
    HwID {
        DeviceInstancePath: path.to_string(),
        Name: String::new(),
        HardwareIDs: hw.iter().map(|x| x.to_string()).collect(),
        CompatibleIDs: Vec::new(),
    }
}

fn inf(name: &str, ids: &[&str]) -> InfInfo {
    InfInfo {
        Path: name.to_string(),
        Inf: format!("{}.inf", name),
        Class: "Net".to_string(),
        Arch: vec!["NTamd64".to_string()],
        Date: String::new(),
        Version: "1.0".to_string(),
        DriverList: ids.iter().map(|x| x.to_string()).collect(),
    }
}

fn same(a: &InstallStep, b: &InstallStep) -> bool {
    match (a, b) {
        (InstallStep::TryNext(x), InstallStep::TryNext(y)) => x == y,
        (InstallStep::Install(x), InstallStep::Install(y)) => x == y,
        (InstallStep::Succeeded(x), InstallStep::Succeeded(y)) => x == y,
        (InstallStep::Failed(x), InstallStep::Failed(y)) => x == y,
        _ => false,
    }
}

/// Runs the steps over drivers whose extraction and installation give the
/// listed answers.
fn run(isFile: bool, extractOnly: bool, extracted: &[bool], installed: &[bool]) -> InstallStep {
    let n = extracted.len();
    let mut k = 0;
    loop {
        let step = match afterExtract(k, n, isFile, isFile && extracted[k], extractOnly) {
            InstallStep::Install(i) => afterInstall(i, n, installed[i]),
            step => step,
        };
        match step {
            InstallStep::TryNext(j) => k = j,
            other => return other,
        }
    }
}

#[test]
fn extraction_steps() {
    assert!(same(&afterExtract(0, 3, true, false, false), &InstallStep::TryNext(1)));
    assert!(same(&afterExtract(2, 3, true, false, false), &InstallStep::Failed(2)));
    assert!(same(&afterExtract(1, 3, true, true, true), &InstallStep::Succeeded(1)));
    assert!(same(&afterExtract(1, 3, true, true, false), &InstallStep::Install(1)));
    // nothing is extracted from a directory
    assert!(same(&afterExtract(0, 1, false, false, false), &InstallStep::Install(0)));
    assert!(same(&afterExtract(0, 1, false, false, true), &InstallStep::Succeeded(0)));
}

#[test]
fn installation_steps() {
    assert!(same(&afterInstall(0, 2, true), &InstallStep::Succeeded(0)));
    assert!(same(&afterInstall(0, 2, false), &InstallStep::TryNext(1)));
    assert!(same(&afterInstall(1, 2, false), &InstallStep::Failed(1)));
}

#[test]
fn first_working_driver_is_used() {
    // the first cannot be extracted, the second does not install, the third does
    assert!(same(&run(true, false, &[false, true, true, true], &[true, false, true, true]), &InstallStep::Succeeded(2)));
    // only extracting: the first that extracts
    assert!(same(&run(true, true, &[false, true, true], &[false, false, false]), &InstallStep::Succeeded(1)));
    // none works: the last is reported
    assert!(same(&run(true, false, &[true, false, true], &[false, true, false]), &InstallStep::Failed(2)));
    // a directory: installation decides
    assert!(same(&run(false, false, &[false, false], &[false, true]), &InstallStep::Succeeded(1)));
}

#[test]
fn rounds_stop_after_the_limit() {
    assert_eq!(INSTALL_ROUNDS, 3);
    let infs = vec![inf("a", &["ID1"])];
    let devices = vec![dev("P1", &["ID1"])];
    let mut total: Vec<HwID> = Vec::new();
    assert!(matches!(planRound(3, &devices, &mut total, &infs, "x86_64").unwrap(), RoundPlan::NothingNew));
    assert!(total.is_empty());
    assert!(matches!(planRound(2, &devices, &mut total, &infs, "x86_64").unwrap(), RoundPlan::Install(_)));
    assert_eq!(total.len(), 1);
}

#[test]
fn problem_devices_by_default() {
    let devcon = Devcon::with_program("devcon.exe".to_string());
    let all = vec![dev("P1", &["A"]), dev("P2", &["B"])];
    let problems = vec!["p2".to_string()];
    let chosen = devcon.devicesToMatch(false, all.clone(), &problems);
    assert_eq!(chosen.len(), 1);
    assert_eq!(chosen[0].DeviceInstancePath, "P2");
    let chosen = devcon.devicesToMatch(true, all, &Vec::new());
    assert_eq!(chosen.len(), 2);
}

#[test]
fn index_locations() {
    assert!(matches!(indexSaveLocation(true, false), IndexLocation::AsGiven));
    assert!(matches!(indexSaveLocation(true, true), IndexLocation::InDriverDirectory));
    assert!(matches!(indexSaveLocation(false, true), IndexLocation::BesidePackage));
    assert!(matches!(indexSource(false, false), IndexSource::AsGiven));
    assert!(matches!(indexSource(true, true), IndexSource::BesidePackage));
    assert!(matches!(indexSource(true, false), IndexSource::InsidePackage));
}

#[test]
fn center_text_after_the_start_marker() {
    assert_eq!(String::from("a|b|c").get_string_center("|", "|").unwrap(), "b");
    assert!(String::from("a|b").get_string_center("|", "|").is_err());
    assert_eq!(String::from("x=1;y").get_string_center("x=", ";").unwrap(), "1");
}

#[test]
fn charset_given_by_the_caller() {
    let bytes = b"[Version]\r\nClass=Net\r\nDriverVer=01/02/2003,1.2.3\r\n[M]\r\nx=y,pci\\ven_1\r\n";
    let info = InfInfo::parsingInfWithCharset("d".to_string(), "a.inf".to_string(), &"ascii".to_string(), bytes)
        .unwrap();
    assert_eq!(info.Class, "Net");
    assert_eq!(info.Version, "1.2.3");
    assert_eq!(info.DriverList, vec!["PCI\\VEN_1".to_string()]);
    assert!(InfInfo::parsingInfWithCharset("d".to_string(), "a.inf".to_string(), &"no-such-set".to_string(), bytes)
        .is_none());
}
