use hostsnap::filesystem::{parse_mount_table, MountInfo, MountInfoParameter, ParseError};

#[test]
fn test_from_str() {
    let line = "65 1 0:33 /root / rw,relatime shared:1 - btrFsType /dev/nvme0n1p3 rw,seclabel,compress=zstd:1,ssd,space_cache,subvolid=257,subvol=/root";
    let mount_info = MountInfo::from_str(line).unwrap();
    assert_eq!(mount_info.mount_id, 65);
    assert_eq!(mount_info.parent_id, 1);
    assert_eq!(mount_info.major_minor, "0:33");
    assert_eq!(mount_info.root, "/root");
    assert_eq!(mount_info.mount_point, "/");
    assert_eq!(mount_info.mount_options, vec!["rw", "relatime"]);
    assert_eq!(mount_info.optional_fields, "shared:1");
    assert_eq!(mount_info.fs_type, "btrFsType");
    assert_eq!(mount_info.mount_source, "/dev/nvme0n1p3");
    assert_eq!(
        mount_info.super_options,
        "rw,seclabel,compress=zstd:1,ssd,space_cache,subvolid=257,subvol=/root"
    );
}

#[test]
fn test_parse_canonical_line() {
    let line = "65 1 0:33 /root / rw,relatime shared:1 - btrfs /dev/nvme0n1p3 rw,compress=zstd";
    let m = MountInfo::from_str(line).unwrap();
    assert_eq!(m.mount_id, 65);
    assert_eq!(m.parent_id, 1);
    assert_eq!(m.major_minor, "0:33");
    assert_eq!(m.root, "/root");
    assert_eq!(m.mount_point, "/");
    assert_eq!(m.mount_options, vec!["rw", "relatime"]);
    assert_eq!(m.optional_fields, "shared:1");
    assert_eq!(m.fs_type, "btrfs");
    assert_eq!(m.mount_source, "/dev/nvme0n1p3");
    assert_eq!(m.super_options, "rw,compress=zstd");
}

#[test]
fn test_parse_multiple_optional_fields() {
    let line = "36 35 98:0 /mnt1 /mnt2 rw,noatime master:1 shared:42 - ext3 /dev/root rw,errors=continue";
    let m = MountInfo::from_str(line).unwrap();
    assert_eq!(m.optional_fields, "master:1 shared:42");
    assert_eq!(m.fs_type, "ext3");
    assert_eq!(m.mount_source, "/dev/root");
    assert_eq!(m.super_options, "rw,errors=continue");
}

#[test]
fn test_parse_zero_optional_fields() {
    let line = "36 35 98:0 / /mnt rw - ext4 /dev/sda1 rw";
    let m = MountInfo::from_str(line).unwrap();
    assert_eq!(m.optional_fields, "");
    assert_eq!(m.fs_type, "ext4");
    assert_eq!(m.mount_source, "/dev/sda1");
    assert_eq!(m.super_options, "rw");
}

#[test]
fn test_too_few_fields() {
    let line = "36 35 98:0 / /mnt rw - ext4";
    assert_eq!(MountInfo::from_str(line), Err(ParseError::TooFewFields));
    assert_eq!(MountInfo::from_str(""), Err(ParseError::TooFewFields));
    assert_eq!(MountInfo::from_str("   "), Err(ParseError::TooFewFields));
}

#[test]
fn test_invalid_integer() {
    let line = "x 1 0:33 /root / rw shared:1 - btrfs /dev/sda rw";
    assert_eq!(MountInfo::from_str(line), Err(ParseError::InvalidInteger));
    let line = "65 -2 0:33 /root / rw shared:1 - btrfs /dev/sda rw";
    assert_eq!(MountInfo::from_str(line), Err(ParseError::InvalidInteger));
    let line = "99999999999999999999999999 1 0:33 /root / rw shared:1 - btrfs /dev/sda rw";
    assert_eq!(MountInfo::from_str(line), Err(ParseError::InvalidInteger));
}

#[test]
fn test_parse_idempotent() {
    let line = "65 1 0:33 /root / rw,relatime shared:1 - btrfs /dev/nvme0n1p3 rw,compress=zstd";
    let first = MountInfo::from_str(line).unwrap();
    let second = MountInfo::from_str(line).unwrap();
    assert_eq!(first, second);
}

#[test]
fn test_is_remote() {
    let base = "65 1 0:33 /root / rw shared:1 - FSTYPE src rw";
    let with_type = |t: &str| {
        let line = base.replace("FSTYPE", t);
        MountInfo::from_str(&line).unwrap()
    };
    assert!(with_type("nfs4:server").is_remote());
    assert!(with_type("host:/path").is_remote());
    assert!(with_type("gpfs").is_remote());
    assert!(with_type("-hosts").is_remote());
    assert!(with_type("afs").is_remote());
    assert!(with_type("ocfs2").is_remote());
    assert!(!with_type("ext4").is_remote());
    assert!(!with_type("btrfs").is_remote());
    assert!(!with_type("tmpfs").is_remote());
}

#[test]
fn test_parse_mount_table() {
    let text = "65 1 0:33 /root / rw,relatime shared:1 - btrfs /dev/nvme0n1p3 rw\n36 35 98:0 / /mnt rw master:1 - ext4 /dev/sda1 rw\n";
    let v = parse_mount_table(text).unwrap();
    assert_eq!(v.len(), 2);
    assert_eq!(v[0].mount_id, 65);
    assert_eq!(v[1].mount_id, 36);
    assert_eq!(v[1].fs_type, "ext4");
}

#[test]
fn test_parse_mount_table_skips_blank_lines() {
    let text = "\n65 1 0:33 /root / rw shared:1 - btrfs /dev/sda rw\n\n";
    let v = parse_mount_table(text).unwrap();
    assert_eq!(v.len(), 1);
    assert_eq!(v[0].mount_point, "/");
}

#[test]
fn test_parse_mount_table_fails_fast() {
    let text = "65 1 0:33 /root / rw shared:1 - btrfs /dev/sda rw\nbad line\n36 35 98:0 / /mnt rw - ext4 /dev/sda1 rw\n";
    let e = parse_mount_table(text).unwrap_err();
    assert_eq!(e.line, "bad line");
    assert_eq!(e.error, ParseError::TooFewFields);
}

#[test]
fn test_token_index_order() {
    assert_eq!(MountInfoParameter::MountID.token_index(), 0);
    assert_eq!(MountInfoParameter::ParentID.token_index(), 1);
    assert_eq!(MountInfoParameter::MajorMinor.token_index(), 2);
    assert_eq!(MountInfoParameter::Root.token_index(), 3);
    assert_eq!(MountInfoParameter::MountPoint.token_index(), 4);
    assert_eq!(MountInfoParameter::MountOptions.token_index(), 5);
    assert_eq!(MountInfoParameter::OptionalFields.token_index(), 6);
    assert_eq!(MountInfoParameter::FsType.token_index(), 7);
    assert_eq!(MountInfoParameter::MountSource.token_index(), 8);
    assert_eq!(MountInfoParameter::SuperOptions.token_index(), 9);
}
