use gobridge::intern::InternTable;
use gobridge::metrics::{
    compute_permyriad, disk_io_records, disk_usage_record, disk_usage_records, memory_record,
    DiskIoSample, PartitionSample, UsageSample,
};

#[test]
fn memory_query_end_to_end() {
    let r = memory_record(16_000_000_000, 7_000_000_000, 8_000_000_000, 1_000_000_000);
    assert_eq!(r.total, 16_000_000_000);
    assert_eq!(r.available, 7_000_000_000);
    assert_eq!(r.used, 8_000_000_000);
    assert_eq!(r.free, 1_000_000_000);
    assert_eq!(r.used_permyriad, 5000);
    let percent = r.used_permyriad as f32 / 100.0;
    let expected = 8_000_000_000u64 as f32 / 16_000_000_000u64 as f32 * 100.0;
    assert!((percent - expected).abs() < 0.01);
}

#[test]
fn permyriad_zero_whole_is_zero() {
    assert_eq!(compute_permyriad(5, 0), 0);
}

#[test]
fn permyriad_rounds_down() {
    assert_eq!(compute_permyriad(1, 3), 3333);
}

#[test]
fn permyriad_of_everything_is_ten_thousand() {
    assert_eq!(compute_permyriad(123456789, 123456789), 10000);
}

#[test]
fn usage_share_counts_reserved_blocks_out() {
    // A filesystem with root-reserved blocks: total 100, free (available to
    // users) 55, used 40.  The share is used over used plus free.
    let mut t = InternTable::new();
    let r = disk_usage_record(&mut t, b"sda2", b"/var", b"ext4", 100, 55, 40);
    assert_eq!(r.used_permyriad, 4210);
}

#[test]
fn usage_record_interns_labels() {
    let mut t = InternTable::new();
    let r = disk_usage_record(&mut t, b"sda1", b"/", b"ext4", 1000, 600, 400);
    assert_eq!(t.resolve(r.device.id).as_slice(), b"sda1");
    assert_eq!(t.resolve(r.path.id).as_slice(), b"/");
    assert_eq!(t.resolve(r.fstype.id).as_slice(), b"ext4");
    assert_eq!(r.total, 1000);
    assert_eq!(r.free, 600);
    assert_eq!(r.used, 400);
    assert_eq!(r.used_permyriad, 4000);
}

#[test]
fn usage_records_skip_failed_queries() {
    let mut t = InternTable::new();
    let samples = vec![
        PartitionSample {
            device: b"sda1".to_vec(),
            mountpoint: b"/".to_vec(),
            fstype: b"ext4".to_vec(),
            usage: Some(UsageSample { total: 100, free: 75, used: 25 }),
        },
        PartitionSample {
            device: b"sdb1".to_vec(),
            mountpoint: b"/mnt".to_vec(),
            fstype: b"xfs".to_vec(),
            usage: None,
        },
        PartitionSample {
            device: b"sdc1".to_vec(),
            mountpoint: b"/data".to_vec(),
            fstype: b"btrfs".to_vec(),
            usage: Some(UsageSample { total: 200, free: 100, used: 100 }),
        },
    ];
    let records = disk_usage_records(&mut t, &samples);
    assert_eq!(records.len(), 2);
    assert_eq!(t.resolve(records[0].device.id).as_slice(), b"sda1");
    assert_eq!(records[0].used_permyriad, 2500);
    assert_eq!(t.resolve(records[1].device.id).as_slice(), b"sdc1");
    assert_eq!(t.resolve(records[1].path.id).as_slice(), b"/data");
    assert_eq!(records[1].used_permyriad, 5000);
}

#[test]
fn io_records_filter_to_physical_devices() {
    let mut t = InternTable::new();
    let samples = vec![
        DiskIoSample {
            name: "sda".to_string(),
            read_bytes: 10,
            write_bytes: 20,
            read_count: 1,
            write_count: 2,
        },
        DiskIoSample {
            name: "loop0".to_string(),
            read_bytes: 99,
            write_bytes: 99,
            read_count: 9,
            write_count: 9,
        },
        DiskIoSample {
            name: "nvme0n1".to_string(),
            read_bytes: 30,
            write_bytes: 40,
            read_count: 3,
            write_count: 4,
        },
    ];
    let records = disk_io_records(&mut t, &samples);
    assert_eq!(records.len(), 2);
    assert_eq!(t.resolve(records[0].name.id).as_slice(), b"sda");
    assert_eq!(records[0].read_bytes, 10);
    assert_eq!(records[0].write_bytes, 20);
    assert_eq!(records[0].read_count, 1);
    assert_eq!(records[0].write_count, 2);
    assert_eq!(t.resolve(records[1].name.id).as_slice(), b"nvme0n1");
    assert_eq!(records[1].read_bytes, 30);
}

#[test]
fn io_records_share_interned_names() {
    let mut t = InternTable::new();
    let earlier = t.intern(b"sda");
    let samples = vec![DiskIoSample {
        name: "sda".to_string(),
        read_bytes: 0,
        write_bytes: 0,
        read_count: 0,
        write_count: 0,
    }];
    let records = disk_io_records(&mut t, &samples);
    assert_eq!(records[0].name, earlier);
    assert_eq!(t.entry_count(), 1);
}
