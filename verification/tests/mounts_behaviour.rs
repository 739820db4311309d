use yfiles::mounts::{mount_targets, parse_mount_points, sorted_paths};

const SAMPLE: &str = "sysfs /sys sysfs rw,nosuid 0 0\n\
proc /proc proc rw 0 0\n\
/dev/sda2 / ext4 rw,relatime 0 0\n\
tmpfs /run tmpfs rw 0 0\r\n\
/dev/sdb1 /media/usb vfat rw 0 0\n\
cgroup2 /sys/fs/cgroup cgroup2 rw 0 0\n\
/dev/sda3 /home ext4 rw 0 0\n\
overlay relative overlay rw 0 0\n\
lonely\n\
/dev/sda3 /home/ ext4 rw 0 0\n\
/dev/sdc1 /media/Usb vfat rw 0 0\n\
/dev/sdd1 /processing ext4 rw 0 0\n";

#[test]
fn mount_targets_keep_real_mounts_in_file_order() {
    let t = mount_targets(SAMPLE);
    assert_eq!(t, vec!["/", "/run", "/media/usb", "/home", "/home/", "/media/Usb"]);
}

#[test]
fn mount_points_are_sorted_and_deduplicated() {
    let m = parse_mount_points(SAMPLE);
    assert_eq!(m, vec!["/", "/home", "/media/Usb", "/media/usb", "/run"]);
    assert!(parse_mount_points("").is_empty());
}

#[test]
fn sorted_paths_orders_by_components() {
    let v: Vec<String> = ["/a/b", "/a-b", "/a", "/a/./b", "/a/b/", "/B"].iter().map(|s| s.to_string()).collect();
    let mut expected: Vec<std::path::PathBuf> = v.iter().map(std::path::PathBuf::from).collect();
    expected.sort();
    expected.dedup();
    let got = sorted_paths(&v);
    let got_paths: Vec<std::path::PathBuf> = got.iter().map(std::path::PathBuf::from).collect();
    assert_eq!(got_paths, expected);
    assert_eq!(got, vec!["/B", "/a", "/a/b", "/a-b"]);
}
