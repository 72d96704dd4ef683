use monitor_ssd::disk::{
    device_number_of, disk_row, is_nvme, is_virtual_device, linux_default_index,
    media_type_str, numbered_disk_row, sort_disks, windows_default, Disk, DiskOrder, WmiDisk,
};

fn disk(id: &str, name: &str, media: &str, size: u64) -> Disk {
    Disk {
        device_id: id.to_string(),
        friendly_name: name.to_string(),
        media_type: media.to_string(),
        size_bytes: size,
    }
}

fn ids(disks: &[Disk]) -> Vec<String> {
    disks.iter().map(|d| d.device_id.clone()).collect()
}

#[test]
fn media_type_codes() {
    assert_eq!(media_type_str(3), "HDD");
    assert_eq!(media_type_str(4), "SSD");
    assert_eq!(media_type_str(5), "SCM");
    assert_eq!(media_type_str(0), "Unknown");
    assert_eq!(media_type_str(65535), "Unknown");
}

#[test]
fn virtual_devices_are_skipped() {
    for name in ["loop0", "ram1", "dm-0", "zram0", "sr0"] {
        assert!(is_virtual_device(name), "{name}");
    }
    for name in ["sda", "nvme0n1", "vda", "mmcblk0", "dm"] {
        assert!(!is_virtual_device(name), "{name}");
    }
}

#[test]
fn nvme_names() {
    assert!(is_nvme("nvme0n1"));
    assert!(!is_nvme("sda"));
    assert!(!is_nvme("nvm"));
}

#[test]
fn sysfs_disk_nvme() {
    let d = Disk::from_sysfs("nvme0n1", "Samsung SSD 980 PRO 1TB   \n", "1953525168\n", "0\n");
    assert_eq!(d.device_id, "nvme0n1");
    assert_eq!(d.friendly_name, "Samsung SSD 980 PRO 1TB");
    assert_eq!(d.media_type, "NVMe");
    assert_eq!(d.size_bytes, 1953525168 * 512);
}

#[test]
fn sysfs_disk_ssd_hdd_and_defaults() {
    let ssd = Disk::from_sysfs("sda", "CT500MX500SSD1\n", "976773168\n", "0\n");
    assert_eq!(ssd.media_type, "SSD");
    let hdd = Disk::from_sysfs("sdb", "", "", "");
    assert_eq!(hdd.friendly_name, "Unknown");
    assert_eq!(hdd.media_type, "HDD");
    assert_eq!(hdd.size_bytes, 0);
    let odd = Disk::from_sysfs("sdc", "  \t ", "lots", "2");
    assert_eq!(odd.friendly_name, "Unknown");
    assert_eq!(odd.media_type, "HDD");
    assert_eq!(odd.size_bytes, 0);
}

#[test]
fn sysfs_disk_size_wraps_like_release_builds() {
    let d = Disk::from_sysfs("sdz", "X", "18446744073709551615", "1");
    assert_eq!(d.size_bytes, u64::MAX.wrapping_mul(512));
}

#[test]
fn wmi_disk_conversion() {
    let d = Disk::from_wmi(WmiDisk {
        device_id: "1".to_string(),
        friendly_name: "WDC".to_string(),
        media_type: 4,
        size: None,
    });
    assert_eq!(d.media_type, "SSD");
    assert_eq!(d.size_bytes, 0);
    let d = Disk::from_wmi(WmiDisk {
        device_id: "0".to_string(),
        friendly_name: "Samsung".to_string(),
        media_type: 9,
        size: Some(1 << 40),
    });
    assert_eq!(d.media_type, "Unknown");
    assert_eq!(d.size_bytes, 1 << 40);
}

#[test]
fn device_numbers() {
    assert_eq!(device_number_of("0"), 0);
    assert_eq!(device_number_of("12"), 12);
    assert_eq!(device_number_of("+7"), 7);
    assert_eq!(device_number_of("x"), u32::MAX);
    assert_eq!(device_number_of("4294967296"), u32::MAX);
    assert_eq!(device_number_of(""), u32::MAX);
}

#[test]
fn sort_by_device_number_is_stable() {
    let disks = vec![
        disk("10", "a", "SSD", 1),
        disk("2", "b", "SSD", 2),
        disk("x", "c", "SSD", 3),
        disk("0", "d", "SSD", 4),
        disk("y", "e", "SSD", 5),
        disk("02", "f", "SSD", 6),
    ];
    let sorted = sort_disks(disks, DiskOrder::DeviceNumber);
    assert_eq!(ids(&sorted), vec!["0", "2", "02", "10", "x", "y"]);
}

#[test]
fn sort_by_device_name() {
    let disks = vec![
        disk("sdb", "a", "HDD", 1),
        disk("nvme1n1", "b", "NVMe", 2),
        disk("sda", "c", "SSD", 3),
        disk("nvme0n1", "d", "NVMe", 4),
        disk("sd", "e", "SSD", 5),
    ];
    let mut reference = ids(&disks);
    reference.sort();
    let sorted = sort_disks(disks, DiskOrder::DeviceName);
    assert_eq!(ids(&sorted), reference);
    assert_eq!(ids(&sorted), vec!["nvme0n1", "nvme1n1", "sd", "sda", "sdb"]);
}

#[test]
fn linux_default_prefers_first_nvme() {
    let disks = vec![disk("sda", "a", "SSD", 1), disk("nvme1n1", "b", "NVMe", 2), disk("nvme0n1", "c", "NVMe", 3)];
    assert_eq!(linux_default_index(&disks), Some(1));
    let disks = vec![disk("sda", "a", "SSD", 1), disk("sdb", "b", "HDD", 2)];
    assert_eq!(linux_default_index(&disks), Some(0));
    assert_eq!(linux_default_index(&[]), None);
}

#[test]
fn windows_default_names_disk_zero() {
    let disks = vec![disk("1", "Other", "HDD", 1), disk("0", "Samsung", "SSD", 2)];
    let (id, name) = windows_default(&disks);
    assert_eq!(id, "0");
    assert_eq!(name, "Samsung");
    let (id, name) = windows_default(&[disk("1", "Other", "HDD", 1)]);
    assert_eq!(id, "0");
    assert_eq!(name, "Disk 0");
}

#[test]
fn disk_row_layout() {
    let d = disk("sda", "Crucial", "SSD", 500107862016);
    let size_gb = 500107862016u64 as f64 / 1_073_741_824.0;
    let expected = format!(
        "  {}{}{:<6}\x1b[0m  \x1b[97m{:<35}\x1b[0m  \x1b[93m{:<12}\x1b[0m  \x1b[92m{:.1} GB\x1b[0m",
        "\x1b[96m\u{25b6} \x1b[0m", "\x1b[1m\x1b[97m", "sda", "Crucial", "SSD", size_gb
    );
    assert_eq!(disk_row(&d, true), expected);
    let expected = format!(
        "  {}{}{:<6}\x1b[0m  \x1b[97m{:<35}\x1b[0m  \x1b[93m{:<12}\x1b[0m  \x1b[92m{:.1} GB\x1b[0m",
        "  ", "\x1b[90m", "sda", "Crucial", "SSD", size_gb
    );
    assert_eq!(disk_row(&d, false), expected);
}

#[test]
fn disk_row_long_name_is_not_cut() {
    let name = "A very long drive model name that exceeds the column";
    let d = disk("nvme0n1", name, "NVMe", 0);
    let row = disk_row(&d, false);
    assert!(row.contains(name));
    assert!(row.contains("nvme0n1\x1b[0m"));
    assert!(row.contains("0.0 GB"));
}

#[test]
fn numbered_row_layout() {
    let d = disk("0", "Samsung SSD", "SSD", 0);
    let expected = format!(
        "  {}{}Disk {:<4}\x1b[0m  \x1b[97m{:<35}\x1b[0m  \x1b[93m{:<12}\x1b[0m  \x1b[92m{}\x1b[0m",
        "  ", "\x1b[90m", "0", "Samsung SSD", "SSD", "? GB"
    );
    assert_eq!(numbered_disk_row(&d, false), expected);
    let d = disk("1", "WD", "HDD", 2 << 30);
    assert!(numbered_disk_row(&d, true).contains("\x1b[92m2.0 GB\x1b[0m"));
}
