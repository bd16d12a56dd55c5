use driver_indexer::cli;
use driver_indexer::cli::validator;
use driver_indexer::utils::console::ConsoleType;
use driver_indexer::utils::extract::{SevenZip, SevenZipOptions};
use driver_indexer::utils::sevenZIP::sevenZip;
use driver_indexer::utils::sevenZip::Zip7z;
use driver_indexer::utils::util::{getTmpName, isArchive};

fn s(v: &[&str]) -> Vec<String> {
    v.iter().map(|x| x.to_string()).collect()
}

#[test]
fn path_checks() {
    assert!(cli::isValidPath(true).is_ok());
    assert_eq!(cli::isValidPath(false).unwrap_err(), "The path does not exist, please make sure the entered directory exists");
    assert!(cli::isValidDirectory(true, true).is_ok());
    assert!(cli::isValidDirectory(true, false).unwrap_err().contains("not a directory"));
    assert!(cli::isValidDirectory(false, false).unwrap_err().contains("directory does not exist"));
    assert_eq!(validator::isValidPath(false).unwrap_err(), "path-not-exist");
    assert_eq!(validator::isValidDirectory(false, true).unwrap_err(), "dir-not-exist");
    assert_eq!(validator::isValidDirectory(true, false).unwrap_err(), "path-not-exist");
    assert_eq!(validator::isValidSystemPath(true, false).unwrap_err(), "not-system-path");
    assert!(validator::isValidSystemPath(true, true).is_ok());
}

#[test]
fn wildcard_paths_need_their_directory() {
    assert!(validator::isValidPathIncludeWildcard("*.7z", false, true).is_ok());
    assert!(validator::isValidPathIncludeWildcard("net?.zip", false, false).is_err());
    assert!(validator::isValidPathIncludeWildcard("net.zip", false, true).is_err());
    assert!(cli::isValidPathIncludeWildcard("net.zip", true, false).is_ok());
}

#[test]
fn driver_classes_ignore_case() {
    assert!(validator::isValidDriverClass("net").is_ok());
    assert!(validator::isValidDriverClass("HIDCLASS").is_ok());
    assert!(validator::isValidDriverClass("Media Center Extender").is_ok());
    assert_eq!(validator::isValidDriverClass("Nett").unwrap_err(), "not-driver-category");
    assert!(cli::isValidDriverClass("usb").is_ok());
    assert!(cli::isValidDriverClass("").is_err());
}

#[test]
fn archives_by_extension() {
    assert!(isArchive("7z"));
    assert!(isArchive("ZIP"));
    assert!(isArchive("Cab"));
    assert!(!isArchive("exe"));
    assert!(!isArchive(""));
}

#[test]
fn temporary_names() {
    let name = getTmpName(".tmp", "", 6);
    assert_eq!(name.len(), 10);
    assert!(name.starts_with(".tmp"));
    assert!(name[4..].chars().all(|c| c.is_ascii_alphanumeric()));
    let name = getTmpName("a", "b", 0);
    assert_eq!(name, "ab");
}

#[test]
fn console_titles() {
    assert_eq!(ConsoleType::Info.titleKey(), "Info");
    assert_eq!(ConsoleType::Success.titleKey(), "Success");
    assert_eq!(ConsoleType::Warning.titleKey(), "Warning");
    assert_eq!(ConsoleType::Error.titleKey(), "Err");
}

#[test]
fn seven_zip_process_command_lines() {
    let options = SevenZipOptions::default();
    assert_eq!(options.path, "./lib7z.dll");
    assert!(options.switches.is_empty());
    let zip = SevenZip::new(SevenZipOptions { path: "7z".into(), switches: s(&["-bd"]) });
    let switches = SevenZip::unzipSwitches("D:\\a.7z", "D:\\out", false);
    assert_eq!(switches, s(&["D:\\a.7z", "-oD:\\out", "-r", "-aos"]));
    assert_eq!(SevenZip::unzipSwitches("a", "b", true)[3], "-aoa");
    assert_eq!(zip.callArgs("x", &switches), s(&["7z", "x", "D:\\a.7z", "-oD:\\out", "-r", "-aos", "-bd"]));
}

#[test]
fn seven_zip_console_command_lines() {
    assert_eq!(
        sevenZip::createArchivePageArgs("D:\\drv", "T:\\drv.7z"),
        s(&["a", "-t7z", "T:\\drv.7z", "D:\\drv\\*", "-mx=9", "-ms=8m", "-mmt", "-r"])
    );
    assert_eq!(
        sevenZip::extractFilesArgs("p.7z", Some("pw"), "*.index", "T:\\x"),
        s(&["e", "p.7z", "*.index", "-y", "-aos", "-ppw", "-oT:\\x"])
    );
    assert_eq!(
        sevenZip::extractFilesFromPathArgs("p.7z", None, "", "T:\\x"),
        s(&["x", "p.7z", "*", "-y", "-aos", "-p", "-oT:\\x"])
    );
    assert_eq!(
        sevenZip::extractFilesFromPathRecurseSubdirectoriesArgs("p.7z", None, "*.inf", "T:\\x"),
        s(&["x", "-r", "p.7z", "*.inf", "-y", "-aos", "-p", "-oT:\\x"])
    );
    assert_eq!(sevenZip::isDriverPackageArgs("self.exe"), s(&["l", "-ba", "-sccUTF-8", "self.exe"]));
    assert!(sevenZip::createArchivePageSucceeded("...\r\nEverything is Ok\r\n"));
    assert!(!sevenZip::extractFilesSucceeded("No files to process"));
    assert!(sevenZip::extractFilesFromPathSucceeded("Everything is Ok"));
    assert!(!sevenZip::extractFilesFromPathRecurseSubdirectoriesSucceeded("ERROR: Can't open as archive: 1"));
    assert!(!sevenZip::extractFilesFromPathRecurseSubdirectoriesSucceeded("Errors: 1"));
    assert!(sevenZip::extractFilesFromPathRecurseSubdirectoriesSucceeded("Everything is Ok"));
    assert!(sevenZip::isDriverPackageListing("2020-01-01 ....A 100 NET\\RTL.INF"));
    assert!(!sevenZip::isDriverPackageListing("2020-01-01 ....A 100 readme.txt"));
    assert_eq!(sevenZip::with_program("7z.exe".into()).zipProgram(), "7z.exe");
}

#[test]
fn seven_zip_older_command_lines() {
    assert_eq!(Zip7z::extractFilesArgs("p.zip", "a.inf", "o"), s(&["e", "p.zip", "a.inf", "-y", "-aos", "-oo"]));
    assert_eq!(Zip7z::extractFilesFromPathArgs("p.zip", "", "o"), s(&["x", "p.zip", "*", "-y", "-aos", "-oo"]));
    assert_eq!(
        Zip7z::extractFilesFromPathRecurseSubdirectoriesArgs("p.zip", "*.inf", "o"),
        s(&["x", "-r", "p.zip", "*.inf", "-y", "-aos", "-oo"])
    );
    assert!(Zip7z::extractFilesSucceeded("Everything is Ok"));
    assert!(!Zip7z::extractFilesFromPathSucceeded("No files to process"));
    assert_eq!(Zip7z::with_program("7z.exe".into()).zipProgram(), "7z.exe");
}
