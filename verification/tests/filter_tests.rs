use gobridge::diskfilter::should_exclude_disk;

#[test]
fn scsi_disk_included() {
    assert!(!should_exclude_disk("sda"));
}

#[test]
fn scsi_partition_included() {
    assert!(!should_exclude_disk("sdb1"));
}

#[test]
fn nvme_namespace_included() {
    assert!(!should_exclude_disk("nvme0n1"));
}

#[test]
fn mmc_device_included() {
    assert!(!should_exclude_disk("mmcblk0"));
}

#[test]
fn xen_disk_included() {
    assert!(!should_exclude_disk("xvda"));
}

#[test]
fn loop_device_excluded() {
    assert!(should_exclude_disk("loop0"));
}

#[test]
fn device_mapper_excluded() {
    assert!(should_exclude_disk("dm-0"));
}

#[test]
fn optical_drive_excluded() {
    assert!(should_exclude_disk("sr0"));
}

#[test]
fn too_short_name_excluded() {
    assert!(should_exclude_disk("a"));
    assert!(should_exclude_disk(""));
    assert!(should_exclude_disk("sd"));
}

#[test]
fn ide_and_virtio_disks_included() {
    assert!(!should_exclude_disk("hda"));
    assert!(!should_exclude_disk("vdb"));
    assert!(!should_exclude_disk("vda1"));
}

#[test]
fn other_prefixes_excluded() {
    assert!(should_exclude_disk("xda"));
    assert!(should_exclude_disk("hba"));
    assert!(should_exclude_disk("ram0"));
    assert!(should_exclude_disk("zram0"));
}
