use hostsnap::disk::{parse_bool_attr, Disk};

#[test]
fn test_classifier_priority() {
    let d = Disk::classify("zram0".to_string(), Some(true), Some(true), Some("CRYPT-x"));
    assert!(d.ram);
    assert_eq!(d.disk_type(), "RAM");

    let d = Disk::classify("zram0".to_string(), None, None, None);
    assert_eq!(d.disk_type(), "RAM");

    let d = Disk::classify("dm-1".to_string(), Some(true), Some(true), Some("CRYPT-LUKS2-abc"));
    assert!(d.crypted);
    assert!(!d.lvm);
    assert_eq!(d.disk_type(), "crypt");

    let d = Disk::classify("dm-0".to_string(), Some(false), Some(false), Some("LVM-xyz"));
    assert!(d.lvm);
    assert!(!d.crypted);
    assert_eq!(d.disk_type(), "LVM");

    let d = Disk::classify("sda".to_string(), None, None, None);
    assert!(!d.ram && !d.crypted && !d.lvm);
    assert_eq!(d.disk_type(), "");
}

#[test]
fn test_disk_type_labels() {
    let d = Disk::classify("sda".to_string(), Some(false), Some(false), None);
    assert_eq!(d.disk_type(), "SSD");

    let d = Disk::classify("sda".to_string(), Some(true), Some(false), None);
    assert_eq!(d.disk_type(), "HDD");

    let d = Disk::classify("sdb".to_string(), Some(true), Some(true), None);
    assert_eq!(d.disk_type(), "removable disk");
    let d = Disk::classify("sdb".to_string(), Some(false), Some(true), None);
    assert_eq!(d.disk_type(), "removable disk");
    let d = Disk::classify("sdb".to_string(), None, Some(true), None);
    assert_eq!(d.disk_type(), "removable disk");

    let d = Disk::classify("sdc".to_string(), None, Some(false), None);
    assert_eq!(d.disk_type(), "");
}

#[test]
fn test_zram_name_pattern() {
    assert!(Disk::classify("zram".to_string(), None, None, None).ram);
    assert!(Disk::classify("zram0".to_string(), None, None, None).ram);
    assert!(Disk::classify("zram15".to_string(), None, None, None).ram);
    assert!(!Disk::classify("zramx".to_string(), None, None, None).ram);
    assert!(!Disk::classify("zra".to_string(), None, None, None).ram);
    assert!(!Disk::classify("azram0".to_string(), None, None, None).ram);
    assert!(!Disk::classify("sda".to_string(), None, None, None).ram);
    assert!(!Disk::classify("zram0 ".to_string(), None, None, None).ram);
}

#[test]
fn test_classify_idempotent() {
    let a = Disk::classify("sda".to_string(), Some(false), Some(false), None);
    let b = Disk::classify("sda".to_string(), Some(false), Some(false), None);
    assert_eq!(a, b);
    assert_eq!(a.disk_type(), b.disk_type());
}

#[test]
fn test_parse_bool_attr() {
    assert_eq!(parse_bool_attr("0"), Some(false));
    assert_eq!(parse_bool_attr("1"), Some(true));
    assert_eq!(parse_bool_attr("0\n"), Some(false));
    assert_eq!(parse_bool_attr(" 1 \n"), Some(true));
    assert_eq!(parse_bool_attr("2"), None);
    assert_eq!(parse_bool_attr(""), None);
    assert_eq!(parse_bool_attr("10"), None);
    assert_eq!(parse_bool_attr("true"), None);
}
