//! The shard's memory manager: computes the advertised free-storage
//! percentage relative to a reserved threshold. Percentages are kept
//! in hundredths of a percent, so `10000` is a full `100%`.

use vstd::prelude::*;
use crate::chars::{str_to_chars, chars_eq};

verus! {

/// Why a memory update failed.
#[derive(Clone, Copy, Debug, PartialEq, Eq, Structural)]
pub enum MemoryError {
    /// Filesystem statistics could not be read.
    StatError,
}

/// The advertised free-storage percentage, in hundredths: the space
/// left after reserving `reserved` of the total, as a share of the
/// unreserved total, clamped to the valid range. A reservation that
/// exhausts the total, or exceeds what is free, advertises zero.
pub open spec fn spec_available_pct(reserved: int, total: int, avail: int) -> int {
    let threshold = total * reserved / 10000;
    if total - threshold <= 0 {
        0
    } else {
        let usable = if avail > threshold {
            avail - threshold
        } else {
            0
        };
        let pct = usable * 10000 / (total - threshold);
        if pct > 10000 {
            10000
        } else {
            pct
        }
    }
}

/// The advertised percentage always lies between zero and a full
/// hundred percent, and a full reservation advertises zero.
pub proof fn lemma_available_pct_bounds(reserved: int, total: int, avail: int)
    requires
        0 <= reserved <= 10000,
        0 <= total,
        0 <= avail,
    ensures
        0 <= spec_available_pct(reserved, total, avail) <= 10000,
        reserved == 10000 ==> spec_available_pct(reserved, total, avail) == 0,
{
    let threshold = total * reserved / 10000;
    assert(total * reserved / 10000 >= 0) by (nonlinear_arith)
        requires
            0 <= reserved,
            0 <= total,
    ;
    if total - threshold > 0 {
        let usable = if avail > threshold {
            avail - threshold
        } else {
            0
        };
        assert(usable * 10000 / (total - threshold) >= 0) by (nonlinear_arith)
            requires
                usable >= 0,
                total - threshold > 0,
        ;
    }
    if reserved == 10000 {
        assert(total * 10000 / 10000 == total);
    }
}

/// Computes the advertised percentage from raw byte counts.
pub fn compute_available_pct(reserved: u32, total: u64, avail: u64) -> (r: u32)
    requires
        reserved <= 10000,
    ensures
        r == spec_available_pct(reserved as int, total as int, avail as int),
        r <= 10000,
        reserved == 10000 ==> r == 0,
{
    proof {
        lemma_available_pct_bounds(reserved as int, total as int, avail as int);
        assert((total as int) * (reserved as int) <= 0xffffffffffffffff * 10000) by (
        nonlinear_arith)
            requires
                total as int <= 0xffffffffffffffff,
                0 <= reserved as int <= 10000,
        ;
    }
    let threshold: u128 = (total as u128) * (reserved as u128) / 10000;
    proof {
        assert((total as int) * (reserved as int) / 10000 <= total as int) by (nonlinear_arith)
            requires
                0 <= reserved as int <= 10000,
                0 <= total as int,
        ;
    }
    let denom: u128 = total as u128 - threshold;
    if denom == 0 {
        return 0;
    }
    let usable: u128 = if (avail as u128) > threshold {
        avail as u128 - threshold
    } else {
        0
    };
    proof {
        assert(usable * 10000 <= 0xffffffffffffffff * 10000) by (nonlinear_arith)
            requires
                0 <= usable <= 0xffffffffffffffff,
        ;
    }
    let pct: u128 = usable * 10000 / denom;
    if pct > 10000 {
        10000
    } else {
        pct as u32
    }
}

/// Relies on `sysinfo::Disks::new_with_refreshed_list` and the
/// `Disk` accessors `mount_point`, `total_space` and
/// `available_space`: one `(mount point, total bytes, available
/// bytes)` triple per disk the system reports. What the system
/// reports depends on the machine, so nothing is promised of the
/// contents.
#[verifier::external_body]
fn read_disk_stats() -> (r: Vec<(String, u64, u64)>)
{
    let disks = sysinfo::Disks::new_with_refreshed_list();
    disks.list().iter().map(
        |d| (d.mount_point().to_string_lossy().to_string(), d.total_space(), d.available_space()),
    ).collect()
}

/// The total and available bytes of the disk mounted at the root,
/// when the list names one.
pub fn find_root_stats(stats: &Vec<(String, u64, u64)>) -> (r: Option<(u64, u64)>)
    ensures
        r matches Some(p) ==> exists|i: int|
            0 <= i < stats@.len() && #[trigger] stats@[i].0@ == "/"@ && p.0 == stats@[i].1 && p.1
                == stats@[i].2,
        r is None ==> forall|i: int| 0 <= i < stats@.len() ==> #[trigger] stats@[i].0@ != "/"@,
{
    let root = str_to_chars("/");
    let mut i: usize = 0;
    let n: usize = stats.len();
    while i < n
        invariant
            i <= n,
            n == stats@.len(),
            root@ == "/"@,
            forall|j: int| 0 <= j < i ==> #[trigger] stats@[j].0@ != "/"@,
        decreases n - i,
    {
        let m = str_to_chars(stats[i].0.as_str());
        if chars_eq(&m, &root) {
            return Some((stats[i].1, stats[i].2));
        }
        i = i + 1;
    }
    None
}

/// Manages the node's advertised storage headroom. The reserved
/// share is fixed at construction; the advertised percentage is
/// refreshed on demand.
pub struct MemoryManager {
    pub unavailable_memory_perc: u32,
    pub available_memory_perc: u32,
}

impl MemoryManager {
    /// Both percentages stay within a full hundred percent.
    pub open spec fn inv(&self) -> bool {
        self.unavailable_memory_perc <= 10000 && self.available_memory_perc <= 10000
    }

    /// The configured reserved share, in hundredths of a percent.
    pub open spec fn reserved(&self) -> u32 {
        self.unavailable_memory_perc
    }

    /// A manager for the given reserved share, with the advertised
    /// percentage computed from the given byte counts.
    pub fn new(unavailable_memory_perc: u32, total: u64, avail: u64) -> (r: MemoryManager)
        requires
            unavailable_memory_perc <= 10000,
        ensures
            r.inv(),
            r.unavailable_memory_perc == unavailable_memory_perc,
            r.available_memory_perc == spec_available_pct(
                unavailable_memory_perc as int,
                total as int,
                avail as int,
            ),
    {
        let available = compute_available_pct(unavailable_memory_perc, total, avail);
        MemoryManager { unavailable_memory_perc, available_memory_perc: available }
    }

    /// Recomputes the advertised percentage from the given byte
    /// counts.
    pub fn update_with(&mut self, total: u64, avail: u64)
        requires
            old(self).inv(),
        ensures
            final(self).inv(),
            final(self).unavailable_memory_perc == old(self).unavailable_memory_perc,
            final(self).available_memory_perc == spec_available_pct(
                old(self).unavailable_memory_perc as int,
                total as int,
                avail as int,
            ),
    {
        self.available_memory_perc = compute_available_pct(
            self.unavailable_memory_perc,
            total,
            avail,
        );
    }

    /// Refreshes the advertised percentage from the system's own
    /// disk statistics; when they cannot be read, the prior value is
    /// retained and the error reported.
    pub fn update(&mut self) -> (r: Result<(), MemoryError>)
        requires
            old(self).inv(),
        ensures
            final(self).inv(),
            final(self).unavailable_memory_perc == old(self).unavailable_memory_perc,
            r is Err ==> final(self).available_memory_perc == old(self).available_memory_perc,
            r matches Err(e) ==> e == MemoryError::StatError,
    {
        let stats = read_disk_stats();
        match find_root_stats(&stats) {
            Some((total, avail)) => {
                self.update_with(total, avail);
                Ok(())
            },
            None => Err(MemoryError::StatError),
        }
    }

    /// The advertised percentage for the given reserved share, read
    /// from the system's disk statistics; nothing when they cannot
    /// be read. A full reservation advertises zero without looking.
    pub fn get_available_memory_percentage(unavailable_memory_perc: u32) -> (r: Option<u32>)
        requires
            unavailable_memory_perc <= 10000,
        ensures
            r matches Some(p) ==> p <= 10000,
            unavailable_memory_perc == 10000 ==> r == Some(0u32),
    {
        if unavailable_memory_perc == 10000 {
            return Some(0);
        }
        let stats = read_disk_stats();
        match find_root_stats(&stats) {
            Some((total, avail)) => Some(
                compute_available_pct(unavailable_memory_perc, total, avail),
            ),
            None => None,
        }
    }
}

} // verus!
