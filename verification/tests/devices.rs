use driver_indexer::utils::devcon::{Devcon, HwID};

const HWIDS: &str = "PCI\\VEN_8086&DEV_1E31&SUBSYS_05351028&REV_04\\3&11583659&0&A0\r\n    Name: Intel(R) USB 3.0 eXtensible Host Controller\r\n    Hardware IDs:\r\n        PCI\\VEN_8086&DEV_1E31&SUBSYS_05351028&REV_04\r\n        PCI\\VEN_8086&DEV_1E31&SUBSYS_05351028\r\n    Compatible IDs:\r\n        PCI\\VEN_8086&DEV_1E31&REV_04\r\n        PCI\\CC_0C0330\r\nROOT\\LEGACY_BEEP\\0000\r\n    Name: Beep\r\n2 matching device(s) found.";

fn s(v: &[&str]) -> Vec<String> {
    v.iter().map(|x| x.to_string()).collect()
}

#[test]
fn hwids_listing_is_read() {
    let list = Devcon::parseRealIdInfo(HWIDS);
    assert_eq!(list.len(), 3);
    assert_eq!(list[0].DeviceInstancePath, "PCI\\VEN_8086&DEV_1E31&SUBSYS_05351028&REV_04\\3&11583659&0&A0");
    assert_eq!(list[0].Name, " Intel(R) USB 3.0 eXtensible Host Controller");
    assert_eq!(
        list[0].HardwareIDs,
        s(&["PCI\\VEN_8086&DEV_1E31&SUBSYS_05351028&REV_04", "PCI\\VEN_8086&DEV_1E31&SUBSYS_05351028"])
    );
    assert_eq!(list[0].CompatibleIDs, s(&["PCI\\VEN_8086&DEV_1E31&REV_04", "PCI\\CC_0C0330"]));
    assert_eq!(list[1].DeviceInstancePath, "ROOT\\LEGACY_BEEP\\0000");
    assert_eq!(list[1].Name, " Beep");
    assert!(list[1].HardwareIDs.is_empty());
    // the closing line reads as a device without path
    assert_eq!(list[2].DeviceInstancePath, "");
}

#[test]
fn name_and_ids_on_one_line_are_split() {
    let out = "USB\\ROOT_HUB30\\4&1\r\n    Name: Hub     Hardware IDs:\r\n        USB\\ROOT_HUB30\r\n";
    let list = Devcon::parseRealIdInfo(out);
    assert_eq!(list[0].Name, " Hub");
    assert_eq!(list[0].HardwareIDs, s(&["USB\\ROOT_HUB30"]));
    let out = "X\\1\r\n    Name: Dev     Compatible IDs:\r\n        GEN\\A\r\n";
    let list = Devcon::parseRealIdInfo(out);
    assert!(list[0].HardwareIDs.is_empty());
    assert_eq!(list[0].CompatibleIDs, s(&["GEN\\A"]));
}

#[test]
fn problem_devices_are_found() {
    let status = "PCI\\VEN_10EC&DEV_8168\\01\r\n    Name: Realtek\r\n    The device has the following problem: 28\r\nUSB\\VID_1\\2\r\n    Name: Hub\r\n    Driver is running.\r\n3 matching device(s) found.\r\n";
    let paths = Devcon::parseProblemDeviceInstancePath(status);
    assert_eq!(paths, s(&["PCI\\VEN_10EC&DEV_8168\\01"]));
}

fn dev(path: &str) -> HwID {
    HwID { DeviceInstancePath: path.to_string(), Name: "n".into(), HardwareIDs: vec![], CompatibleIDs: vec![] }
}

#[test]
fn problem_ids_are_matched_ignoring_case() {
    let devcon = Devcon::with_program("devcon.exe".to_string());
    let real = vec![dev("PCI\\A\\1"), dev("USB\\B\\2"), dev("pci\\a\\1")];
    let problems = s(&["usb\\b\\2", "pci\\A\\1", "NONE"]);
    let found = devcon.getProblemIdInfo(real, &problems);
    assert_eq!(found.len(), 2);
    assert_eq!(found[0].DeviceInstancePath, "USB\\B\\2");
    // the first device with that path, not the later one
    assert_eq!(found[1].DeviceInstancePath, "PCI\\A\\1");
}

#[test]
fn devices_are_equal_by_path() {
    let a = HwID { DeviceInstancePath: "X".into(), Name: "a".into(), HardwareIDs: vec!["1".into()], CompatibleIDs: vec![] };
    let b = HwID { DeviceInstancePath: "X".into(), Name: "b".into(), HardwareIDs: vec![], CompatibleIDs: vec![] };
    assert!(a == b);
    assert!(a != dev("Y"));
    let c = a.clone();
    assert_eq!(c.Name, "a");
    assert_eq!(c.HardwareIDs, s(&["1"]));
}

#[test]
fn devcon_arguments_and_reports() {
    assert_eq!(Devcon::hwidsArgs(None), s(&["hwids", "*"]));
    assert_eq!(Devcon::hwidsArgs(Some("Net".into())), s(&["hwids", "=Net"]));
    assert!(Devcon::loadDriverSucceeded("Drivers installed successfully."));
    assert!(!Devcon::loadDriverSucceeded("Updating drivers failed."));
    assert!(Devcon::rescanCompleted("Scanning for new hardware.\r\nScanning completed."));
    assert!(Devcon::removeDeviceSucceeded("1 device(s) were removed."));
    assert!(!Devcon::removeDeviceSucceeded("No devices were found."));
    assert_eq!(Devcon::with_program("d.exe".into()).devconPath(), "d.exe");
}
