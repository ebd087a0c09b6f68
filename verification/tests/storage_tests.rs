use syslens_collect::dirs::{accepts, select_entries, EntryKind};
use syslens_collect::storage::{
    collect, disk_bytes, disk_sectors, fs_candidates, fs_report, human_size, human_size_short,
    is_partition, is_virtual_disk, Disk, Mounts, Partition, VfsStat,
};

#[test]
fn human_sizes() {
    assert_eq!(human_size(0), "0 B");
    assert_eq!(human_size(1023), "1023 B");
    assert_eq!(human_size(1024), "1.00 KiB");
    assert_eq!(human_size(1536), "1.50 KiB");
    assert_eq!(human_size(1048575), "1023.99 KiB");
    assert_eq!(human_size(1048576 * 5 + 1048576 / 20), "5.04 MiB");
    assert_eq!(human_size(1073741824), "1.00 GiB");
    assert_eq!(human_size(1099511627776 * 3 / 2), "1.50 TiB");
    assert_eq!(human_size(u64::MAX), "16777215.99 TiB");
}

#[test]
fn short_sizes_keep_the_figure_and_unit_letter() {
    assert_eq!(human_size_short(512), "512B");
    assert_eq!(human_size_short(1536), "1.50K");
    assert_eq!(human_size_short(256 * 1073741824 + 1073741824 / 4), "256.25G");
    assert_eq!(human_size_short(2 * 1099511627776), "2.00T");
    assert_eq!(human_size_short(3 * 1048576), "3.00M");
}

#[test]
fn sectors_and_bytes() {
    assert_eq!(disk_sectors("2048\n"), 2048);
    assert_eq!(disk_sectors("garbage"), 0);
    assert_eq!(disk_sectors(""), 0);
    assert_eq!(disk_bytes(" 2048 "), 1048576);
}

#[test]
fn virtual_disks_and_partitions() {
    assert!(is_virtual_disk("loop0"));
    assert!(is_virtual_disk("zram0"));
    assert!(is_virtual_disk("sr0"));
    assert!(is_virtual_disk("dm-1"));
    assert!(!is_virtual_disk("sda"));
    assert!(!is_virtual_disk("nvme0n1"));
    assert!(is_partition("sda1", "sda"));
    assert!(!is_partition("sda", "sda"));
    assert!(!is_partition("sdab", "sda"));
    assert!(is_partition("nvme0n1p1", "nvme0n1"));
    assert!(is_partition("mmcblk0p12", "mmcblk0"));
    assert!(!is_partition("nvme0n1p", "nvme0n1"));
    assert!(!is_partition("nvme0n1px", "nvme0n1"));
    assert!(!is_partition("sdap1", "sda"));
    assert!(is_partition("mmcblk01", "mmcblk0"));
}

#[test]
fn disk_entries_are_filtered_and_sorted() {
    let names = vec!["sdb", "loop1", "sda", "nvme0n1", "ram0"].into_iter().map(String::from).collect();
    assert_eq!(select_entries(&EntryKind::Disk, names), vec!["nvme0n1", "sda", "sdb"]);
    let names = vec!["sda2", "queue", "sda1", "holders", "sda10"].into_iter().map(String::from).collect();
    assert_eq!(
        select_entries(&EntryKind::PartitionOf("sda".to_string()), names),
        vec!["sda1", "sda10", "sda2"]
    );
    assert!(accepts(&EntryKind::Disk, "vda"));
}

#[test]
fn mount_table_lookup() {
    let mounts = Mounts::parse(
        "/dev/sda1 / ext4 rw 0 0\nproc /proc proc rw 0 0\n/dev//dev/sda2 /boot vfat rw 0 0\n/dev/sda1 /mnt ext4 rw 0 0\n/dev/ /x y z\n",
    );
    assert_eq!(mounts.get("sda1"), "/mnt");
    assert_eq!(mounts.get("sda2"), "/boot");
    assert_eq!(mounts.get("proc"), "");
    assert_eq!(mounts.get("sda3"), "");
}

#[test]
fn file_system_candidates_skip_pseudo_ones() {
    let c = fs_candidates("/dev/sda1 / ext4 rw 0 0\ntmpfs /tmp tmpfs rw 0 0\nshort line x\n/dev/sdb1 /data xfs rw\n");
    assert_eq!(
        c,
        vec![
            ("/dev/sda1".to_string(), "/".to_string()),
            ("/dev/sdb1".to_string(), "/data".to_string())
        ]
    );
}

#[test]
fn vfs_sizes_from_counts() {
    let st = VfsStat::from_counts(1000, 250, 200, 4096);
    assert_eq!(st.total, 4096000);
    assert_eq!(st.free, 250 * 4096);
    assert_eq!(st.avail, 200 * 4096);
}

#[test]
fn file_system_report() {
    let cands = vec![
        ("/dev/sda1".to_string(), "/".to_string()),
        ("/dev/sdc1".to_string(), "/empty".to_string()),
    ];
    let stats = vec![
        VfsStat { total: 4 * 1073741824, free: 1073741824, avail: 2 * 1073741824 },
        VfsStat { total: 0, free: 0, avail: 0 },
    ];
    assert_eq!(
        fs_report(&cands, &stats),
        vec![
            "fs.0.filesystem=/dev/sda1",
            "fs.0.size=4.00G",
            "fs.0.used=3.00G",
            "fs.0.avail=2.00G",
            "fs.0.use_pct=75",
            "fs.0.mount=/",
            "fs.count=1",
        ]
    );
}

#[test]
fn storage_report() {
    let mounts = Mounts::parse("/dev/sda1 /boot vfat rw 0 0\n");
    let disks = vec![Disk {
        name: "sda".to_string(),
        size: "1953525168\n".to_string(),
        model: "Samsung SSD \n".to_string(),
        partitions: vec![
            Partition { name: "sda1".to_string(), size: "1048576".to_string() },
            Partition { name: "sda2".to_string(), size: "2048".to_string() },
        ],
    }];
    assert_eq!(
        collect(&disks, &mounts, &Vec::new(), &Vec::new()),
        vec![
            "storage.0.name=sda",
            "storage.0.size=931.51G",
            "storage.0.model=Samsung SSD",
            "storage.0.partition.0.name=sda1",
            "storage.0.partition.0.size=512.00M",
            "storage.0.partition.0.mount=/boot",
            "storage.0.partition.1.name=sda2",
            "storage.0.partition.1.size=1.00M",
            "storage.0.partition_count=2",
            "storage.count=1",
            "fs.count=0",
        ]
    );
}

#[test]
fn storage_report_without_disks() {
    assert_eq!(
        collect(&Vec::new(), &Mounts::parse(""), &Vec::new(), &Vec::new()),
        vec!["storage.count=0", "fs.count=0"]
    );
}

#[test]
fn file_system_use_stays_within_100_percent() {
    let cands = vec![
        ("/dev/a".to_string(), "/a".to_string()),
        ("/dev/b".to_string(), "/b".to_string()),
        ("/dev/c".to_string(), "/c".to_string()),
    ];
    let stats = vec![
        VfsStat { total: 1000, free: 0, avail: 0 },
        VfsStat { total: 0, free: 7, avail: 3 },
        VfsStat { total: 1000, free: 1000, avail: 1000 },
    ];
    let lines = fs_report(&cands, &stats);
    assert_eq!(lines[4], "fs.0.use_pct=100");
    assert_eq!(lines[6], "fs.1.filesystem=/dev/c");
    assert_eq!(lines[10], "fs.1.use_pct=0");
    assert_eq!(lines[12], "fs.count=2");
}

#[test]
fn nvme_disk_lists_its_partitions() {
    let names = vec!["nvme0n1p1", "queue", "nvme0n1p2"].into_iter().map(String::from).collect();
    let parts = select_entries(&EntryKind::PartitionOf("nvme0n1".to_string()), names);
    assert_eq!(parts, vec!["nvme0n1p1", "nvme0n1p2"]);
    let disks = vec![Disk {
        name: "nvme0n1".to_string(),
        size: "2048".to_string(),
        model: "".to_string(),
        partitions: vec![Partition { name: "nvme0n1p1".to_string(), size: "1024".to_string() }],
    }];
    assert_eq!(
        collect(&disks, &Mounts::parse(""), &Vec::new(), &Vec::new()),
        vec![
            "storage.0.name=nvme0n1",
            "storage.0.size=1.00M",
            "storage.0.partition.0.name=nvme0n1p1",
            "storage.0.partition.0.size=512.00K",
            "storage.0.partition_count=1",
            "storage.count=1",
            "fs.count=0",
        ]
    );
}

#[test]
fn file_system_report_gives_used_space() {
    let cands = vec![("dev".to_string(), "mnt".to_string())];
    let stats = vec![VfsStat::from_counts(4, 1, 1, 1024)];
    assert_eq!(
        fs_report(&cands, &stats),
        vec![
            "fs.0.filesystem=dev",
            "fs.0.size=4.00K",
            "fs.0.used=3.00K",
            "fs.0.avail=1.00K",
            "fs.0.use_pct=75",
            "fs.0.mount=mnt",
            "fs.count=1",
        ]
    );
}

#[test]
fn partition_digit_is_found_at_the_disk_name_byte_length() {
    assert!(!is_partition("é1x", "é"));
    assert!(is_partition("é12", "é"));
}
