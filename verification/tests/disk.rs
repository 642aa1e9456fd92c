//! Mounted volumes and their space.

use sysmon::disk::{
    compute, df_bytes, fill_space, parse_btrfs_subvol, parse_df, parse_mounts,
    unescape_mount_field,
};
use sysmon::util::{read_trimmed, CommandOutput};

fn output(success: bool, stdout: &[u8]) -> Option<CommandOutput> {
    Some(CommandOutput { success, stdout: stdout.to_vec() })
}

#[test]
fn groups_multiple_mounts_of_same_device() {
    let content = "\
/dev/mapper/root / btrfs rw,relatime,subvolid=256,subvol=/@ 0 0
/dev/mapper/root /var/log btrfs rw,relatime,subvolid=258,subvol=/@log 0 0
/dev/mapper/root /home btrfs rw,relatime,subvolid=257,subvol=/@home 0 0
/dev/nvme0n1p1 /boot vfat rw,relatime 0 0
tmpfs /run tmpfs rw 0 0
";
    let volumes = parse_mounts(content);
    assert_eq!(volumes.len(), 2);

    let root = volumes.iter().find(|v| v.source == "/dev/mapper/root").unwrap();
    assert_eq!(root.mountpoint, "/");
    assert_eq!(root.subvolumes.len(), 3);
    assert!(
        root.subvolumes
            .iter()
            .any(|s| s.path == "/@home" && s.mountpoint == "/home" && s.id == 257)
    );

    let boot = volumes.iter().find(|v| v.source == "/dev/nvme0n1p1").unwrap();
    assert_eq!(boot.fstype, "vfat");
    assert!(boot.subvolumes.is_empty());
}

#[test]
fn skips_pseudo_filesystems() {
    let content = "\
proc /proc proc rw 0 0
tmpfs /dev/shm tmpfs rw 0 0
overlay /var/lib/docker/overlay2/abc/merged overlay rw 0 0
";
    assert!(parse_mounts(content).is_empty());
}

#[test]
fn unescapes_octal_space_in_mountpoint() {
    let content = "/dev/sdb1 /mnt/My\\040Drive ext4 rw,relatime 0 0\n";
    let volumes = parse_mounts(content);
    assert_eq!(volumes[0].mountpoint, "/mnt/My Drive");
}

#[test]
fn non_btrfs_has_no_subvolumes() {
    let content = "/dev/sda1 / ext4 rw,relatime 0 0\n";
    let volumes = parse_mounts(content);
    assert!(volumes[0].subvolumes.is_empty());
}

#[test]
fn subvolumes_are_for_btrfs_volumes_only() {
    let options = "rw,subvolid=256,subvol=/@";
    let btrfs = format!("/dev/sda1 / btrfs {options} 0 0\n/dev/sda1 /x ext4 {options} 0 0\n");
    assert_eq!(parse_mounts(&btrfs)[0].subvolumes.len(), 1);
    let ext4 = format!("/dev/sda1 / ext4 {options} 0 0\n/dev/sda1 /x btrfs {options} 0 0\n");
    assert_eq!(parse_mounts(&ext4)[0].fstype, "ext4");
    assert!(parse_mounts(&ext4)[0].subvolumes.is_empty());
}

#[test]
fn shortest_mountpoint_is_shown() {
    let content = "/dev/sda1 /mnt/data ext4 rw 0 0\n/dev/sda1 /srv ext4 rw 0 0\n\
        /dev/sda1 /opt ext4 rw 0 0\n";
    let volumes = parse_mounts(content);
    assert_eq!(volumes.len(), 1);
    assert_eq!(volumes[0].mountpoint, "/srv");
    assert_eq!(volumes[0].fstype, "ext4");
}

#[test]
fn lines_with_too_few_fields_are_skipped() {
    assert!(parse_mounts("/dev/sda1 / ext4\n\n/dev/sdb1\n").is_empty());
}

#[test]
fn unescaping_gives_back_what_was_escaped() {
    assert_eq!(unescape_mount_field("/a\\040b\\011c\\012d\\134e"), "/a b\tc\nd\\e");
    assert_eq!(unescape_mount_field("\\134040"), "\\040");
    assert_eq!(unescape_mount_field(""), "");
}

#[test]
fn what_is_no_escape_stays() {
    assert_eq!(unescape_mount_field("\\"), "\\");
    assert_eq!(unescape_mount_field("\\04"), "\\04");
    assert_eq!(unescape_mount_field("\\089"), "\\089");
    assert_eq!(unescape_mount_field("\\400x"), "\\400x");
    assert_eq!(unescape_mount_field("\\+40"), "\\+40");
    assert_eq!(unescape_mount_field("\\abéc"), "\\abéc");
    assert_eq!(unescape_mount_field("\\377"), "\u{ff}");
}

#[test]
fn characters_outside_escapes_stay() {
    assert_eq!(unescape_mount_field("/mnt/é"), "/mnt/é");
    assert_eq!(unescape_mount_field("/mnt/Müsik\\040日本"), "/mnt/Müsik 日本");
    let volumes = parse_mounts("/dev/sda1 /mnt/é\\040x ext4 rw 0 0\n/dev/sda1 /mnt/ab ext4 rw 0 0\n");
    assert_eq!(volumes[0].mountpoint, "/mnt/ab");
    let volumes = parse_mounts("/dev/sda1 /mnt/é ext4 rw 0 0\n/dev/sda1 /mnt/abc ext4 rw 0 0\n");
    assert_eq!(volumes[0].mountpoint, "/mnt/é");
}

#[test]
fn subvolume_needs_id_and_path() {
    let sub = parse_btrfs_subvol("rw,subvolid=256,subvol=/@", "/").unwrap();
    assert_eq!((sub.id, sub.path.as_str(), sub.mountpoint.as_str()), (256, "/@", "/"));
    assert!(parse_btrfs_subvol("rw,subvol=/@", "/").is_none());
    assert!(parse_btrfs_subvol("rw,subvolid=256", "/").is_none());
    assert!(parse_btrfs_subvol("subvolid=x,subvol=/@", "/").is_none());
    assert!(parse_btrfs_subvol("subvolid=1,subvolid=x,subvol=/@", "/").is_none());
    assert_eq!(parse_btrfs_subvol("subvolid=x,subvolid=2,subvol=/@", "/").unwrap().id, 2);
}

#[test]
fn df_reports_second_line() {
    let printed = "     1B-blocks         Used        Avail\n 1000 600 400\n";
    assert_eq!(parse_df(printed), Some((1000, 600, 400)));
    assert_eq!(df_bytes(&output(true, printed.as_bytes())), Some((1000, 600, 400)));
    assert_eq!(df_bytes(&output(false, printed.as_bytes())), None);
    assert_eq!(df_bytes(&None), None);
    assert_eq!(parse_df("1000 600 400\n"), None);
    assert_eq!(parse_df("header\n1000 600\n"), None);
    assert_eq!(parse_df("header\n1000 - 400\n"), None);
}

#[test]
fn df_output_need_not_be_utf8() {
    assert_eq!(df_bytes(&output(true, b"\xff header\n1 2 3 \xfe\n")), Some((1, 2, 3)));
    assert_eq!(df_bytes(&output(true, b"header\n\xff 2 3\n")), None);
}

#[test]
fn compute_fills_in_reported_space() {
    let mounts = "/dev/sda1 / ext4 rw 0 0\n/dev/sdb1 /srv xfs rw 0 0\n";
    let outputs = vec![output(true, b"size used avail\n10 7 3\n"), output(false, b"")];
    let state = compute(Some(mounts), &outputs);
    assert_eq!(state.volumes.len(), 2);
    let root = &state.volumes[0];
    assert_eq!((root.total_bytes, root.used_bytes, root.avail_bytes), (10, 7, 3));
    let srv = &state.volumes[1];
    assert_eq!((srv.total_bytes, srv.used_bytes, srv.avail_bytes), (0, 0, 0));
    assert_eq!(srv.mountpoint, "/srv");
    assert!(compute(None, &vec![]).volumes.is_empty());
}

#[test]
fn space_is_left_alone_where_unknown() {
    let mut volumes = parse_mounts("/dev/sda1 / ext4 rw 0 0\n");
    fill_space(&mut volumes, &vec![Some((10, 7, 3))]);
    fill_space(&mut volumes, &vec![None]);
    assert_eq!(volumes[0].total_bytes, 10);
}

#[test]
fn trims_what_was_read() {
    assert_eq!(read_trimmed(Some(" 1\n")), Some("1".to_string()));
    assert_eq!(read_trimmed(Some("\n")), Some(String::new()));
    assert_eq!(read_trimmed(None), None);
}
