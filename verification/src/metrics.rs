//! The record builders that the metric adapters drive.
//!
//! Adapters query the platform and hand the bridge plain values: memory
//! totals, per-partition usage samples, per-partition I/O counter samples.
//! The builders here turn those values into the records the host receives:
//! text is interned into stable views, the used share is computed in
//! hundredths of a percent, and per-partition I/O samples are filtered to
//! physical block devices.  A sample whose usage query failed is skipped;
//! the rest are still reported.

use crate::diskfilter::{disk_included, should_exclude_disk};
use crate::encoding::{lemma_normalize_lossy_identity, normalize_lossy};
use crate::intern::{interned_entries, InternTable, StrView};
use vstd::arithmetic::div_mod::lemma_div_is_ordered;
use vstd::prelude::*;
use vstd::utf8::{encode_utf8, encode_utf8_valid_utf8};

verus! {

broadcast use vstd::seq::group_seq_axioms;

/// The used share of a whole in hundredths of a percent, 0 for a zero
/// whole.
pub open spec fn permyriad_of(part: u64, whole: u64) -> int {
    if whole == 0 {
        0
    } else {
        (part as int) * 10000 / (whole as int)
    }
}

/// The used share as a `u64`: exact where it fits, saturated otherwise.
pub open spec fn permyriad_sat(part: u64, whole: u64) -> int {
    if permyriad_of(part, whole) > u64::MAX {
        u64::MAX as int
    } else {
        permyriad_of(part, whole)
    }
}

/// Computes the used share of a whole in hundredths of a percent.  For a
/// part within the whole the result is at most 10000, one hundred percent.
pub fn compute_permyriad(part: u64, whole: u64) -> (r: u64)
    ensures
        r == permyriad_sat(part, whole),
        part <= whole ==> r <= 10000,
{
    if whole == 0 {
        return 0;
    }
    let q: u128 = (part as u128) * 10000 / (whole as u128);
    proof {
        assert(q == permyriad_of(part, whole));
        if part <= whole {
            lemma_div_is_ordered((part as int) * 10000, (whole as int) * 10000, whole as int);
            assert((whole as int) * 10000 / (whole as int) == 10000) by (nonlinear_arith)
                requires
                    whole > 0,
            ;
        }
    }
    if q > 0xffff_ffff_ffff_ffff {
        0xffff_ffff_ffff_ffff
    } else {
        q as u64
    }
}

/// The used share of a partition's space, in hundredths of a percent: used
/// over used plus free, 0 when both are 0.  A filesystem may reserve blocks
/// for the superuser, so the space in use plus the space still available —
/// not the raw total — is the denominator disk usage is reported against.
pub open spec fn disk_permyriad_of(used: u64, free: u64) -> int {
    if used + free == 0 {
        0
    } else {
        (used as int) * 10000 / ((used as int) + (free as int))
    }
}

/// Computes a partition's used share in hundredths of a percent.  The used
/// part never exceeds the denominator, so the result is at most 10000.
pub fn compute_disk_permyriad(used: u64, free: u64) -> (r: u64)
    ensures
        r == disk_permyriad_of(used, free),
        r <= 10000,
{
    let whole: u128 = used as u128 + free as u128;
    if whole == 0 {
        return 0;
    }
    let q: u128 = (used as u128) * 10000 / whole;
    proof {
        lemma_div_is_ordered((used as int) * 10000, (whole as int) * 10000, whole as int);
        assert((whole as int) * 10000 / (whole as int) == 10000) by (nonlinear_arith)
            requires
                whole > 0,
        ;
    }
    q as u64
}

/// What a memory query reports: totals in bytes, and the used share.
#[derive(Clone, Copy, PartialEq, Eq, Structural, Debug)]
pub struct MemoryRecord {
    /// Total physical memory in bytes.
    pub total: u64,
    /// Memory available for new work, in bytes.
    pub available: u64,
    /// Memory in use, in bytes.
    pub used: u64,
    /// Free memory in bytes.
    pub free: u64,
    /// Used share of total, in hundredths of a percent.
    pub used_permyriad: u64,
}

/// Builds the record a memory query reports: every queried value passes
/// through exactly, and the used share is computed from used and total.
pub fn memory_record(total: u64, available: u64, used: u64, free: u64) -> (r: MemoryRecord)
    ensures
        r.total == total,
        r.available == available,
        r.used == used,
        r.free == free,
        r.used_permyriad == permyriad_sat(used, total),
{
    MemoryRecord { total, available, used, free, used_permyriad: compute_permyriad(used, total) }
}

/// One partition as an adapter sampled it: its labels as raw platform
/// bytes, and its usage query's outcome.
pub struct PartitionSample {
    /// The device name's bytes.
    pub device: Vec<u8>,
    /// The mount point's bytes.
    pub mountpoint: Vec<u8>,
    /// The filesystem name's bytes.
    pub fstype: Vec<u8>,
    /// The usage totals, or nothing when the query for this partition
    /// failed.
    pub usage: Option<UsageSample>,
}

/// The totals a usage query yields for one partition.
#[derive(Clone, Copy, PartialEq, Eq, Structural, Debug)]
pub struct UsageSample {
    /// Total size in bytes.
    pub total: u64,
    /// Free bytes.
    pub free: u64,
    /// Used bytes.
    pub used: u64,
}

/// A partition's usage record as the host receives it: interned label
/// views and plain totals.
#[derive(Clone, Copy, PartialEq, Eq, Structural, Debug)]
pub struct DiskUsageRecord {
    /// View of the interned device name.
    pub device: StrView,
    /// View of the interned mount point.
    pub path: StrView,
    /// View of the interned filesystem name.
    pub fstype: StrView,
    /// Total size in bytes.
    pub total: u64,
    /// Free bytes.
    pub free: u64,
    /// Used bytes.
    pub used: u64,
    /// Used share of used plus free, in hundredths of a percent.
    pub used_permyriad: u64,
}

/// The intern table's entries after interning one usage record's labels.
pub open spec fn entries_after_usage_record(
    entries: Seq<Seq<u8>>,
    device: Seq<u8>,
    mountpoint: Seq<u8>,
    fstype: Seq<u8>,
) -> Seq<Seq<u8>> {
    interned_entries(
        interned_entries(
            interned_entries(entries, normalize_lossy(device)),
            normalize_lossy(mountpoint),
        ),
        normalize_lossy(fstype),
    )
}

/// Builds one partition's usage record: labels are normalized and interned,
/// totals pass through exactly, and the used share is computed from used
/// and free.
pub fn disk_usage_record(
    table: &mut InternTable,
    device: &[u8],
    mountpoint: &[u8],
    fstype: &[u8],
    total: u64,
    free: u64,
    used: u64,
) -> (r: DiskUsageRecord)
    requires
        old(table).wf(),
    ensures
        final(table).wf(),
        final(table)@ == entries_after_usage_record(old(table)@, device@, mountpoint@, fstype@),
        old(table)@.len() <= final(table)@.len(),
        forall|j: int| 0 <= j < old(table)@.len() ==> final(table)@[j] == old(table)@[j],
        r.device.wf(final(table)@),
        r.device.content(final(table)@) == normalize_lossy(device@),
        r.path.wf(final(table)@),
        r.path.content(final(table)@) == normalize_lossy(mountpoint@),
        r.fstype.wf(final(table)@),
        r.fstype.content(final(table)@) == normalize_lossy(fstype@),
        r.total == total,
        r.free == free,
        r.used == used,
        r.used_permyriad == disk_permyriad_of(used, free),
{
    let device_view = table.intern(device);
    let path_view = table.intern(mountpoint);
    let fstype_view = table.intern(fstype);
    DiskUsageRecord {
        device: device_view,
        path: path_view,
        fstype: fstype_view,
        total,
        free,
        used,
        used_permyriad: compute_disk_permyriad(used, free),
    }
}

/// The intern table's entries after a run of usage samples, skipped samples
/// interning nothing.
pub open spec fn entries_after_usage_samples(
    entries: Seq<Seq<u8>>,
    samples: Seq<PartitionSample>,
) -> Seq<Seq<u8>>
    decreases samples.len(),
{
    if samples.len() == 0 {
        entries
    } else {
        let first = samples[0];
        let next = if first.usage is Some {
            entries_after_usage_record(entries, first.device@, first.mountpoint@, first.fstype@)
        } else {
            entries
        };
        entries_after_usage_samples(next, samples.drop_first())
    }
}

/// The samples that yield a usage record: those whose usage query
/// succeeded, in order.
pub open spec fn usage_kept(samples: Seq<PartitionSample>) -> Seq<PartitionSample>
    decreases samples.len(),
{
    if samples.len() == 0 {
        Seq::empty()
    } else if samples[0].usage is Some {
        seq![samples[0]] + usage_kept(samples.drop_first())
    } else {
        usage_kept(samples.drop_first())
    }
}

/// The record reports exactly the sample: its labels normalized and
/// interned in `entries`, its totals unchanged, its used share computed.
pub open spec fn usage_record_matches(
    r: DiskUsageRecord,
    s: PartitionSample,
    entries: Seq<Seq<u8>>,
) -> bool {
    &&& r.device.wf(entries) && r.device.content(entries) == normalize_lossy(s.device@)
    &&& r.path.wf(entries) && r.path.content(entries) == normalize_lossy(s.mountpoint@)
    &&& r.fstype.wf(entries) && r.fstype.content(entries) == normalize_lossy(s.fstype@)
    &&& match s.usage {
        Some(u) => r.total == u.total && r.free == u.free && r.used == u.used && r.used_permyriad
            == disk_permyriad_of(u.used, u.free),
        None => false,
    }
}

/// Appending a sample keeps it exactly when its usage query succeeded.
proof fn lemma_usage_kept_push(samples: Seq<PartitionSample>, s: PartitionSample)
    ensures
        usage_kept(samples.push(s)) == if s.usage is Some {
            usage_kept(samples).push(s)
        } else {
            usage_kept(samples)
        },
    decreases samples.len(),
{
    let p = samples.push(s);
    if samples.len() == 0 {
        assert(p.drop_first() =~= Seq::<PartitionSample>::empty());
        assert(usage_kept(Seq::<PartitionSample>::empty()) == Seq::<PartitionSample>::empty());
        assert(p[0] == s);
        if s.usage is Some {
            assert(usage_kept(p) == seq![s] + usage_kept(p.drop_first()));
            assert(seq![s] + Seq::<PartitionSample>::empty() =~= usage_kept(samples).push(s));
        }
    } else {
        assert(p[0] == samples[0]);
        assert(p.drop_first() =~= samples.drop_first().push(s));
        lemma_usage_kept_push(samples.drop_first(), s);
        if samples[0].usage is Some && s.usage is Some {
            assert(usage_kept(p) == seq![samples[0]] + usage_kept(samples.drop_first()).push(s));
            assert(seq![samples[0]] + usage_kept(samples.drop_first()).push(s) =~= (seq![samples[0]]
                + usage_kept(samples.drop_first())).push(s));
        }
    }
}

/// Builds the usage records for a run of partition samples: one record per
/// sample whose usage query succeeded, in order; failed samples are skipped
/// and the rest still reported.
#[verifier::loop_isolation(false)]
pub fn disk_usage_records(table: &mut InternTable, samples: &Vec<PartitionSample>) -> (records: Vec<
    DiskUsageRecord,
>)
    requires
        old(table).wf(),
    ensures
        final(table).wf(),
        final(table)@ == entries_after_usage_samples(old(table)@, samples@),
        records@.len() == usage_kept(samples@).len(),
        forall|j: int|
            0 <= j < records@.len() ==> usage_record_matches(
                records@[j],
                usage_kept(samples@)[j],
                final(table)@,
            ),
{
    let mut records: Vec<DiskUsageRecord> = Vec::new();
    let n = samples.len();
    let mut i: usize = 0;
    proof {
        assert(samples@.take(0) =~= Seq::empty());
        assert(samples@.skip(0) =~= samples@);
    }
    while i < n
        invariant
            i <= n,
            table.wf(),
            entries_after_usage_samples(old(table)@, samples@) == entries_after_usage_samples(
                table@,
                samples@.skip(i as int),
            ),
            records@.len() == usage_kept(samples@.take(i as int)).len(),
            forall|j: int|
                0 <= j < records@.len() ==> usage_record_matches(
                    records@[j],
                    usage_kept(samples@.take(i as int))[j],
                    table@,
                ),
        decreases n - i,
    {
        let ghost pre_entries = table@;
        let ghost rest = samples@.skip(i as int);
        proof {
            assert(rest[0] == samples@[i as int]);
            assert(rest.drop_first() =~= samples@.skip(i + 1));
            assert(samples@.take(i as int).push(samples@[i as int]) =~= samples@.take(i + 1));
            lemma_usage_kept_push(samples@.take(i as int), samples@[i as int]);
        }
        let s = &samples[i];
        match s.usage {
            Some(u) => {
                let r = disk_usage_record(
                    table,
                    s.device.as_slice(),
                    s.mountpoint.as_slice(),
                    s.fstype.as_slice(),
                    u.total,
                    u.free,
                    u.used,
                );
                records.push(r);
            },
            None => {},
        }
        i = i + 1;
    }
    proof {
        assert(samples@.take(n as int) =~= samples@);
        assert(samples@.skip(n as int).len() == 0);
    }
    records
}

/// One partition's I/O counters as an adapter sampled them.
pub struct DiskIoSample {
    /// The partition's device name.
    pub name: String,
    /// Bytes read since boot.
    pub read_bytes: u64,
    /// Bytes written since boot.
    pub write_bytes: u64,
    /// Completed reads since boot.
    pub read_count: u64,
    /// Completed writes since boot.
    pub write_count: u64,
}

/// A partition's I/O counter record as the host receives it.
#[derive(Clone, Copy, PartialEq, Eq, Structural, Debug)]
pub struct DiskIoRecord {
    /// View of the interned device name.
    pub name: StrView,
    /// Bytes read since boot.
    pub read_bytes: u64,
    /// Bytes written since boot.
    pub write_bytes: u64,
    /// Completed reads since boot.
    pub read_count: u64,
    /// Completed writes since boot.
    pub write_count: u64,
}

/// The intern table's entries after a run of I/O samples, names of excluded
/// devices interning nothing.
pub open spec fn entries_after_io_samples(
    entries: Seq<Seq<u8>>,
    samples: Seq<DiskIoSample>,
) -> Seq<Seq<u8>>
    decreases samples.len(),
{
    if samples.len() == 0 {
        entries
    } else {
        let next = if disk_included(samples[0].name@) {
            interned_entries(entries, encode_utf8(samples[0].name@))
        } else {
            entries
        };
        entries_after_io_samples(next, samples.drop_first())
    }
}

/// The samples that yield an I/O record: those naming an included physical
/// block device, in order.
pub open spec fn io_kept(samples: Seq<DiskIoSample>) -> Seq<DiskIoSample>
    decreases samples.len(),
{
    if samples.len() == 0 {
        Seq::empty()
    } else if disk_included(samples[0].name@) {
        seq![samples[0]] + io_kept(samples.drop_first())
    } else {
        io_kept(samples.drop_first())
    }
}

/// The record reports exactly the sample: its name interned in `entries`
/// and its counters unchanged.
pub open spec fn io_record_matches(r: DiskIoRecord, s: DiskIoSample, entries: Seq<Seq<u8>>) -> bool {
    &&& disk_included(s.name@)
    &&& r.name.wf(entries) && r.name.content(entries) == encode_utf8(s.name@)
    &&& r.read_bytes == s.read_bytes
    &&& r.write_bytes == s.write_bytes
    &&& r.read_count == s.read_count
    &&& r.write_count == s.write_count
}

/// Appending a sample keeps it exactly when its device is included.
proof fn lemma_io_kept_push(samples: Seq<DiskIoSample>, s: DiskIoSample)
    ensures
        io_kept(samples.push(s)) == if disk_included(s.name@) {
            io_kept(samples).push(s)
        } else {
            io_kept(samples)
        },
    decreases samples.len(),
{
    let p = samples.push(s);
    if samples.len() == 0 {
        assert(p.drop_first() =~= Seq::<DiskIoSample>::empty());
        assert(io_kept(Seq::<DiskIoSample>::empty()) == Seq::<DiskIoSample>::empty());
        assert(p[0] == s);
        if disk_included(s.name@) {
            assert(io_kept(p) == seq![s] + io_kept(p.drop_first()));
            assert(seq![s] + Seq::<DiskIoSample>::empty() =~= io_kept(samples).push(s));
        }
    } else {
        assert(p[0] == samples[0]);
        assert(p.drop_first() =~= samples.drop_first().push(s));
        lemma_io_kept_push(samples.drop_first(), s);
        if disk_included(samples[0].name@) && disk_included(s.name@) {
            assert(io_kept(p) == seq![samples[0]] + io_kept(samples.drop_first()).push(s));
            assert(seq![samples[0]] + io_kept(samples.drop_first()).push(s) =~= (seq![samples[0]]
                + io_kept(samples.drop_first())).push(s));
        }
    }
}

/// Builds the I/O counter records for a run of samples: one record per
/// sample whose device the inclusion rule accepts, in order; every other
/// sample is left out.
#[verifier::loop_isolation(false)]
pub fn disk_io_records(table: &mut InternTable, samples: &Vec<DiskIoSample>) -> (records: Vec<
    DiskIoRecord,
>)
    requires
        old(table).wf(),
    ensures
        final(table).wf(),
        final(table)@ == entries_after_io_samples(old(table)@, samples@),
        records@.len() == io_kept(samples@).len(),
        forall|j: int|
            0 <= j < records@.len() ==> io_record_matches(
                records@[j],
                io_kept(samples@)[j],
                final(table)@,
            ),
{
    let mut records: Vec<DiskIoRecord> = Vec::new();
    let n = samples.len();
    let mut i: usize = 0;
    proof {
        assert(samples@.take(0) =~= Seq::empty());
        assert(samples@.skip(0) =~= samples@);
    }
    while i < n
        invariant
            i <= n,
            table.wf(),
            entries_after_io_samples(old(table)@, samples@) == entries_after_io_samples(
                table@,
                samples@.skip(i as int),
            ),
            records@.len() == io_kept(samples@.take(i as int)).len(),
            forall|j: int|
                0 <= j < records@.len() ==> io_record_matches(
                    records@[j],
                    io_kept(samples@.take(i as int))[j],
                    table@,
                ),
        decreases n - i,
    {
        let ghost rest = samples@.skip(i as int);
        proof {
            assert(rest[0] == samples@[i as int]);
            assert(rest.drop_first() =~= samples@.skip(i + 1));
            assert(samples@.take(i as int).push(samples@[i as int]) =~= samples@.take(i + 1));
            lemma_io_kept_push(samples@.take(i as int), samples@[i as int]);
        }
        let s = &samples[i];
        if !should_exclude_disk(s.name.as_str()) {
            let name_bytes = s.name.as_str().as_bytes();
            proof {
                encode_utf8_valid_utf8(s.name@);
                lemma_normalize_lossy_identity(encode_utf8(s.name@));
            }
            let name_view = table.intern(name_bytes);
            let r = DiskIoRecord {
                name: name_view,
                read_bytes: s.read_bytes,
                write_bytes: s.write_bytes,
                read_count: s.read_count,
                write_count: s.write_count,
            };
            records.push(r);
        }
        i = i + 1;
    }
    proof {
        assert(samples@.take(n as int) =~= samples@);
        assert(samples@.skip(n as int).len() == 0);
    }
    records
}

} // verus!
