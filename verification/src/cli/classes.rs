//! Checks of command line values: paths that must exist, directories, and
//! driver classes.
use vstd::prelude::*;
use crate::text::{spec_to_lowercase, to_lowercase};

verus! {

/// The device setup classes a driver can be installed for (the classes under
/// `HKLM\SYSTEM\CurrentControlSet\Control\Class`).
pub open spec fn driver_classes() -> Seq<Seq<char>> {
    seq![
        "XboxComposite"@, "RDPDR"@, "DXGKrnl"@, "RemotePosDevice"@, "DigitalMediaDevices"@,
        "PrintQueue"@, "WCEUSBS"@, "SecurityAccelerator"@, "HidMsr"@, "SystemRecovery"@,
        "vhdmp"@, "fvevol"@, "fvevol"@, "USB"@, "ContentScreener"@, "Media Center Extender"@,
        "PnpPrinters"@, "Dot4"@, "Replication"@, "Dot4Print"@, "CDROM"@, "Computer"@,
        "DiskDrive"@, "Display"@, "FDC"@, "HDC"@, "Keyboard"@, "MEDIA"@, "Modem"@, "Monitor"@,
        "Mouse"@, "MTD"@, "MultiFunction"@, "Net"@, "NetClient"@, "NetService"@, "NetTrans"@,
        "PCMCIA"@, "Ports"@, "Printer"@, "SCSIAdapter"@, "System"@, "Unknown"@, "FloppyDisk"@,
        "HidLineDisplay"@, "Processor"@, "MultiPortSerial"@, "Memory"@, "SmartCardReader"@,
        "Sensor"@, "VolumeSnapshot"@, "SmrDisk"@, "ScmDisk"@, "SmrVolume"@, "ScmVolume"@,
        "Biometric"@, "Proximity"@, "AudioProcessingObject"@, "OposLegacyDevice"@,
        "SoftwareComponent"@, "FSFilterSystem"@, "XLGuard"@, "SoftwareDevice"@,
        "PerceptionSimulation"@, "PhysicalQuotaManagement"@, "1394"@, "Infrared"@, "Image"@,
        "TapeDrive"@, "BasicDisplay"@, "Volume"@, "ContinuousBackup"@, "Battery"@, "HIDClass"@,
        "HidCashDrawer"@, "61883"@, "RdpVideoMiniport"@, "QuotaManagement"@, "NetDriver"@,
        "TS_Generic"@, "USBDevice"@, "CopyProtection"@, "LegacyDriver"@, "SmartCard"@,
        "EhStorSilo"@, "XLWFP"@, "SDHost"@, "Encryption"@, "rdpbus"@, "AntiVirus"@,
        "RDCamera"@, "ActivityMonitor"@, "USBFunctionController"@, "AVC"@, "AudioEndpoint"@,
        "BarcodeScanner"@, "WSDPrintDevice"@, "POSPrinter"@, "Camera"@, "RDPDR"@,
        "CFSMetadataServer"@, "MediumChanger"@, "SecurityEnhancer"@, "Miracast"@, "SBP2"@,
        "HSM"@, "Holographic"@, "XnaComposite"@, "SecurityDevices"@, "SmartCardFilter"@,
        "Bluetooth"@, "Extension"@, "Infrastructure"@, "UCM"@, "WPD"@, "ComputeAccelerator"@,
        "Firmware"@, "Compression"@, "Virtualization"@, "OpenFileBackup"@, "Undelete"@,
    ]
}

fn driver_classes_exec() -> (r: Vec<&'static str>)
    ensures
        r@.len() == driver_classes().len(),
        forall|i: int| 0 <= i < r@.len() ==> r@[i]@ == #[trigger] driver_classes()[i],
{
    vec![
        "XboxComposite", "RDPDR", "DXGKrnl", "RemotePosDevice", "DigitalMediaDevices",
        "PrintQueue", "WCEUSBS", "SecurityAccelerator", "HidMsr", "SystemRecovery", "vhdmp",
        "fvevol", "fvevol", "USB", "ContentScreener", "Media Center Extender", "PnpPrinters",
        "Dot4", "Replication", "Dot4Print", "CDROM", "Computer", "DiskDrive", "Display", "FDC",
        "HDC", "Keyboard", "MEDIA", "Modem", "Monitor", "Mouse", "MTD", "MultiFunction", "Net",
        "NetClient", "NetService", "NetTrans", "PCMCIA", "Ports", "Printer", "SCSIAdapter",
        "System", "Unknown", "FloppyDisk", "HidLineDisplay", "Processor", "MultiPortSerial",
        "Memory", "SmartCardReader", "Sensor", "VolumeSnapshot", "SmrDisk", "ScmDisk",
        "SmrVolume", "ScmVolume", "Biometric", "Proximity", "AudioProcessingObject",
        "OposLegacyDevice", "SoftwareComponent", "FSFilterSystem", "XLGuard", "SoftwareDevice",
        "PerceptionSimulation", "PhysicalQuotaManagement", "1394", "Infrared", "Image",
        "TapeDrive", "BasicDisplay", "Volume", "ContinuousBackup", "Battery", "HIDClass",
        "HidCashDrawer", "61883", "RdpVideoMiniport", "QuotaManagement", "NetDriver",
        "TS_Generic", "USBDevice", "CopyProtection", "LegacyDriver", "SmartCard", "EhStorSilo",
        "XLWFP", "SDHost", "Encryption", "rdpbus", "AntiVirus", "RDCamera", "ActivityMonitor",
        "USBFunctionController", "AVC", "AudioEndpoint", "BarcodeScanner", "WSDPrintDevice",
        "POSPrinter", "Camera", "RDPDR", "CFSMetadataServer", "MediumChanger",
        "SecurityEnhancer", "Miracast", "SBP2", "HSM", "Holographic", "XnaComposite",
        "SecurityDevices", "SmartCardFilter", "Bluetooth", "Extension", "Infrastructure",
        "UCM", "WPD", "ComputeAccelerator", "Firmware", "Compression", "Virtualization",
        "OpenFileBackup", "Undelete",
    ]
}

/// `class` names a driver class, ignoring case.
pub open spec fn is_driver_class(class: Seq<char>) -> bool {
    exists|i: int|
        0 <= i < driver_classes().len() && spec_to_lowercase(#[trigger] driver_classes()[i])
            == spec_to_lowercase(class)
}

/// Whether `class` names a driver class, ignoring case.
pub fn driverClassKnown(class: &str) -> (r: bool)
    ensures
        r == is_driver_class(class@),
{
    let classes = driver_classes_exec();
    let lower = to_lowercase(class);
    let n = classes.len();
    let mut k: usize = 0;
    while k < n
        invariant
            k <= n,
            n == driver_classes().len(),
            classes@.len() == n,
            forall|i: int| 0 <= i < classes@.len() ==> classes@[i]@ == #[trigger] driver_classes()[i],
            lower@ == spec_to_lowercase(class@),
            forall|i: int|
                0 <= i < k ==> spec_to_lowercase(#[trigger] driver_classes()[i]) != spec_to_lowercase(
                    class@,
                ),
        decreases n - k,
    {
        let item = to_lowercase(classes[k]);
        if item == lower {
            assert(spec_to_lowercase(driver_classes()[k as int]) == spec_to_lowercase(class@));
            return true;
        }
        k = k + 1;
    }
    false
}

/// `name` holds a wildcard, `*` or `?`.
pub open spec fn has_wildcard(name: Seq<char>) -> bool {
    name.contains('*') || name.contains('?')
}

/// Whether `name` holds a wildcard, `*` or `?`.
pub fn hasWildcard(name: &str) -> (r: bool)
    ensures
        r == has_wildcard(name@),
{
    let c = crate::text::chars_of(name);
    let n = c.len();
    let mut i: usize = 0;
    while i < n
        invariant
            i <= n,
            n == c@.len(),
            c@ == name@,
            forall|j: int| 0 <= j < i ==> c@[j] != '*' && c@[j] != '?',
        decreases n - i,
    {
        if c[i] == '*' || c[i] == '?' {
            assert(name@[i as int] == c[i as int]);
            return true;
        }
        i = i + 1;
    }
    false
}

} // verus!
