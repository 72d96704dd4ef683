use monitor_ssd::sensor::{
    hwmon_matches_disk, hwmon_name_matches, is_hwmon_entry, parse_millicelsius,
    parse_powershell_temperature, parse_smartctl_output, powershell_script,
    smartctl_line_temperature, temperature_query,
};

#[test]
fn millicelsius_whole_degrees() {
    assert_eq!(parse_millicelsius("45000\n"), Some(45));
    assert_eq!(parse_millicelsius("  38950 "), Some(38));
    assert_eq!(parse_millicelsius("+1000"), Some(1));
    assert_eq!(parse_millicelsius("0"), Some(0));
}

#[test]
fn millicelsius_clamped_to_byte() {
    assert_eq!(parse_millicelsius("-5000"), Some(0));
    assert_eq!(parse_millicelsius("-999"), Some(0));
    assert_eq!(parse_millicelsius("300000"), Some(255));
    assert_eq!(parse_millicelsius("255999"), Some(255));
    assert_eq!(parse_millicelsius("9223372036854775807"), Some(255));
    assert_eq!(parse_millicelsius("-9223372036854775808"), Some(0));
}

#[test]
fn millicelsius_rejects_non_numbers() {
    assert_eq!(parse_millicelsius(""), None);
    assert_eq!(parse_millicelsius("abc"), None);
    assert_eq!(parse_millicelsius("4 5"), None);
    assert_eq!(parse_millicelsius("-"), None);
    assert_eq!(parse_millicelsius("+-5"), None);
    assert_eq!(parse_millicelsius("9223372036854775808"), None);
    assert_eq!(parse_millicelsius("45.5"), None);
}

#[test]
fn millicelsius_round_trip() {
    for n in 0..=255u32 {
        assert_eq!(parse_millicelsius(&format!("{}", n * 1000)), Some(n as u8));
    }
}

#[test]
fn hwmon_entries() {
    assert!(is_hwmon_entry("hwmon3"));
    assert!(!is_hwmon_entry("device"));
}

#[test]
fn hwmon_names() {
    assert!(hwmon_name_matches("nvme", "nvme0n1"));
    assert!(!hwmon_name_matches("nvme", "sda"));
    assert!(hwmon_name_matches("drivetemp sda", "sda"));
    assert!(!hwmon_name_matches("coretemp", "sda"));
    assert!(hwmon_matches_disk("NVME\n", "nvme1n1"));
    assert!(hwmon_matches_disk("  drivetemp\n", "drivetemp"));
    assert!(!hwmon_matches_disk("acpitz\n", "nvme0n1"));
}

const SMARTCTL_SATA: &str = "smartctl 7.2 2020-12-30 r5155 [x86_64-linux-5.15.0] (local build)
=== START OF READ SMART DATA SECTION ===
SMART Attributes Data Structure revision number: 16
ID# ATTRIBUTE_NAME          FLAG     VALUE WORST THRESH TYPE      UPDATED  WHEN_FAILED RAW_VALUE
  9 Power_On_Hours          0x0032   099   099   000    Old_age   Always       -       4521
194 Temperature_Celsius     0x0022   064   047   000    Old_age   Always       -       36
";

const SMARTCTL_NVME: &str = "=== START OF SMART DATA SECTION ===\r
SMART/Health Information (NVMe Log 0x02)\r
Critical Warning:                   0x00\r
Temperature:                        41 Celsius\r
Available Spare:                    100%\r
Temperature Sensor 1:               41 Celsius\r
";

const SMARTCTL_MIN_MAX: &str = "190 Airflow_Temperature_Cel 0x0032   064   047   000    Old_age   Always       -       36 (Min/Max 20/53)
194 Temperature_Celsius     0x0022   064   047   000    Old_age   Always       -       37
";

#[test]
fn smartctl_sata_attribute() {
    assert_eq!(parse_smartctl_output(SMARTCTL_SATA.as_bytes()), Some(36));
}

#[test]
fn smartctl_nvme_takes_last_word_only() {
    // "41 Celsius" ends in a word, so these lines give nothing.
    assert_eq!(parse_smartctl_output(SMARTCTL_NVME.as_bytes()), None);
}

#[test]
fn smartctl_first_line_with_number_wins() {
    assert_eq!(parse_smartctl_output(SMARTCTL_MIN_MAX.as_bytes()), Some(37));
    assert_eq!(parse_smartctl_output(b""), None);
    assert_eq!(parse_smartctl_output(b"TEMPERATURE 300\ntemperature 7\n"), Some(7));
}

#[test]
fn smartctl_single_line() {
    assert_eq!(smartctl_line_temperature("Temp 5", "temp 5"), None);
    assert_eq!(smartctl_line_temperature("X Temperature 55  ", "x temperature 55  "), Some(55));
    assert_eq!(smartctl_line_temperature("Temperature", "temperature"), None);
}

#[test]
fn powershell_output() {
    assert_eq!(parse_powershell_temperature(b"38\r\n"), Some(38));
    assert_eq!(parse_powershell_temperature(b""), None);
    assert_eq!(parse_powershell_temperature(b"256\r\n"), None);
    assert_eq!(parse_powershell_temperature(b"38\r\n40\r\n"), None);
    assert_eq!(parse_powershell_temperature(b"\xff38"), None);
}

#[test]
fn powershell_round_trip() {
    for n in 0..=255u8 {
        assert_eq!(parse_powershell_temperature(format!("{n}\r\n").as_bytes()), Some(n));
    }
}

#[test]
fn queries() {
    assert_eq!(
        temperature_query("0"),
        "SELECT Temperature FROM MSFT_StorageReliabilityCounter WHERE DeviceId = '0'"
    );
    assert_eq!(
        powershell_script("1"),
        "(Get-PhysicalDisk | Where-Object DeviceId -eq 1 | Get-StorageReliabilityCounter).Temperature"
    );
}
