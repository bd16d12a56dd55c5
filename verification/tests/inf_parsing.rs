use driver_indexer::subCommand::create_index::{charsetDetectionMayFail, defaultIndexName, summarizeIndex, InfInfo};

const SAMPLE: &str = "[Version]\r\nSignature=\"$Windows NT$\"\r\nClass = Net\r\nClassGuid={4d36e972-e325-11ce-bfc1-08002be10318}\r\nProvider=%Realtek%\r\nDriverVer=06/21/2018, 10.29.621.2018\r\n\r\n[Manufacturer]\r\n%Realtek% = Realtek, NTamd64, NTx86\r\n\r\n[Realtek.NTamd64]\r\n%Dev1% = inst, PCI\\VEN_10EC&DEV_8168&SUBSYS_01231028\r\n%Dev2% = inst, pci\\ven_10ec&dev_8136 ; comment\r\n%Dev3% = inst, USB\\VID_0BDA&PID_8153\r\n%Dev4% = inst, PCI\\VEN_10EC&DEV_8168&SUBSYS_01231028\r\n";

fn s(v: &[&str]) -> Vec<String> {
    v.iter().map(|x| x.to_string()).collect()
}

#[test]
fn inf_text_is_read() {
    let info = InfInfo::parsingInfContent("Net\\Realtek".to_string(), "rt.inf".to_string(), SAMPLE);
    assert_eq!(info.Path, "Net\\Realtek");
    assert_eq!(info.Inf, "rt.inf");
    assert_eq!(info.Class, "Net");
    assert_eq!(info.Arch, s(&["NTx86", "NTamd64"]));
    assert_eq!(info.Date, "06/21/2018");
    assert_eq!(info.Version, "10.29.621.2018");
    assert_eq!(
        info.DriverList,
        s(&["PCI\\VEN_10EC&DEV_8168&SUBSYS_01231028", "PCI\\VEN_10EC&DEV_8136", "USB\\VID_0BDA&PID_8153"])
    );
}

#[test]
fn inf_bytes_are_decoded_then_read() {
    let bytes = SAMPLE.as_bytes();
    assert!(!charsetDetectionMayFail(bytes));
    let info = InfInfo::parsingInfBytes("p".to_string(), "rt.inf".to_string(), bytes);
    assert_eq!(info.Class, "Net");
    assert_eq!(info.DriverList.len(), 3);
    let tried = InfInfo::tryParsingInfBytes("p".to_string(), "rt.inf".to_string(), bytes).unwrap();
    assert_eq!(tried.Version, "10.29.621.2018");
}

#[test]
fn inf_utf16_is_decoded() {
    let text = "Class=Display\r\nDriverVer=01/01/2020,27.20.100.8587\r\n[X.NTamd64]\r\nA=B,PCI\\VEN_8086&DEV_3E92\r\n";
    let mut bytes = vec![0xFFu8, 0xFE];
    for u in text.encode_utf16() {
        bytes.extend_from_slice(&u.to_le_bytes());
    }
    let info = InfInfo::tryParsingInfBytes("p".to_string(), "i.inf".to_string(), &bytes).unwrap();
    assert_eq!(info.Class, "Display");
    assert_eq!(info.Version, "27.20.100.8587");
    assert_eq!(info.Arch, s(&["NTamd64"]));
    assert_eq!(info.DriverList, s(&["PCI\\VEN_8086&DEV_3E92"]));
}

#[test]
fn escape_bytes_without_high_bytes_may_stop_detection() {
    assert!(charsetDetectionMayFail(b"Class=Net\x1b$B"));
    assert!(!charsetDetectionMayFail(b""));
    assert!(!charsetDetectionMayFail(b"\x1b\xff"));
}

#[test]
fn missing_entries_are_empty() {
    let info = InfInfo::parsingInfContent(String::new(), String::new(), "[Version]\r\nSignature=x\r\n");
    assert_eq!(info.Class, "");
    assert_eq!(info.Date, "");
    assert_eq!(info.Version, "");
    assert!(info.Arch.is_empty());
    assert!(info.DriverList.is_empty());
}

#[test]
fn driver_ver_without_version() {
    let info = InfInfo::parsingInfContent(String::new(), String::new(), "DriverVer=01/02/2003\n");
    assert_eq!(info.Date, "01/02/2003");
    assert_eq!(info.Version, "");
}

#[test]
fn hardware_ids_ignore_case_and_stop_at_separators() {
    let text = "x=y,hid\\VID_1;z\nq=r,Acpi\\PNP0A08,ACPI\\PNP0A03\tq,HDAUDIO\\\n,USB\\";
    let info = InfInfo::parsingInfContent(String::new(), String::new(), text);
    // "ACPI\PNP0A03" follows a tab, which is removed first
    assert_eq!(info.DriverList, s(&["ACPI\\PNP0A08", "ACPI\\PNP0A03Q", "HID\\VID_1"]));
}

#[test]
fn kelvin_sign_matches_k_like_the_pattern_engine() {
    // U+212A KELVIN SIGN folds to 'k'
    let text = ",\u{212A}\\x\n,PCI\\A";
    let info = InfInfo::parsingInfContent(String::new(), String::new(), text);
    assert_eq!(info.DriverList, s(&["PCI\\A"]));
    let text = ",U\u{17F}B\\V_1";
    let info = InfInfo::parsingInfContent(String::new(), String::new(), text);
    assert_eq!(info.DriverList, s(&["USB\\V_1"]));
}

#[test]
fn class_value_drops_repeated_key() {
    let info = InfInfo::parsingInfContent(String::new(), String::new(), "SubClass=Net;x\nClass=Other");
    // the first "Class=" is the one inside "SubClass="
    assert_eq!(info.Class, "Net");
}

#[test]
fn index_name_and_summary() {
    assert_eq!(defaultIndexName("netcard"), "netcard.index");
    let good = InfInfo::parsingInfContent("a".into(), "a.inf".into(), SAMPLE);
    let blank = InfInfo::parsingInfContent("b".into(), "b.inf".into(), "Class=Net");
    let results = vec![Some(good.clone()), None, Some(blank), None, Some(good)];
    let summary = summarizeIndex(&results);
    assert_eq!(summary.successCount, 2);
    assert_eq!(summary.errorCount, 2);
    assert_eq!(summary.blankCount, 1);
    assert_eq!(summary.infInfoList.len(), 2);
    assert_eq!(summary.successCount + summary.errorCount + summary.blankCount, results.len());
}

#[test]
fn plain_ascii_bytes_read_as_their_text() {
    let text = "[Version]\r\nClass=Net\r\nDriverVer=01/02/2003,1.2.3\r\n[M]\r\nx=y,usb\\vid_1\r\n";
    let from_bytes = InfInfo::parsingInfBytes("d".to_string(), "a.inf".to_string(), text.as_bytes());
    let from_text = InfInfo::parsingInfContent("d".to_string(), "a.inf".to_string(), text);
    assert_eq!(from_bytes.Class, from_text.Class);
    assert_eq!(from_bytes.Version, from_text.Version);
    assert_eq!(from_bytes.DriverList, from_text.DriverList);
    let tried = InfInfo::tryParsingInfBytes("d".to_string(), "a.inf".to_string(), text.as_bytes()).unwrap();
    assert_eq!(tried.DriverList, vec!["USB\\VID_1".to_string()]);
}
