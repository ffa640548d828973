//! RAM and swap usage from the kernel's page counts.
use vstd::prelude::*;

verus! {

/// Physical RAM statistics.
#[derive(Debug, Clone, Copy, PartialEq, Eq, Structural)]
pub struct MemoryInfo {
    /// Total physical RAM in bytes.
    pub total: u64,
    /// Active + wired pages in bytes (app-visible usage).
    pub used: u64,
    /// Pages available for reuse (free + inactive + speculative) in bytes.
    pub available: u64,
    /// Wired (non-reclaimable) pages in bytes.
    pub wired: u64,
    /// Pages currently held in the compressor in bytes.
    pub compressed: u64,
}

impl Default for MemoryInfo {
    /// All zero, for when the statistics cannot be read.
    fn default() -> (r: Self)
        ensures
            r == (MemoryInfo { total: 0, used: 0, available: 0, wired: 0, compressed: 0 }),
    {
        MemoryInfo { total: 0, used: 0, available: 0, wired: 0, compressed: 0 }
    }
}

/// Swap file statistics, in bytes.
#[derive(Debug, Clone, Copy, PartialEq, Eq, Structural)]
pub struct SwapInfo {
    pub total: u64,
    pub used: u64,
    pub free: u64,
}

impl Default for SwapInfo {
    /// All zero, for when the statistics cannot be read.
    fn default() -> (r: Self)
        ensures
            r == (SwapInfo { total: 0, used: 0, free: 0 }),
    {
        SwapInfo { total: 0, used: 0, free: 0 }
    }
}

/// Page counts of the virtual memory system.
#[derive(Debug, Clone, Copy, PartialEq, Eq, Structural)]
pub struct VmStats {
    pub free_count: u32,
    pub active_count: u32,
    pub inactive_count: u32,
    pub wire_count: u32,
    pub speculative_count: u32,
    pub compressor_page_count: u32,
}

/// The kernel's account of the swap files.
#[derive(Debug, Clone, Copy, PartialEq, Eq, Structural)]
pub struct SwapUsage {
    pub total: u64,
    pub avail: u64,
    pub used: u64,
}

/// Whether the statistics in bytes fit their type.
pub open spec fn fits(s: VmStats, page_size: u64) -> bool {
    &&& (s.active_count + s.wire_count) * page_size <= u64::MAX
    &&& (s.free_count + s.inactive_count + s.speculative_count) * page_size <= u64::MAX
    &&& s.compressor_page_count * page_size <= u64::MAX
}

/// Physical memory statistics from page counts, or `None` if the page size is
/// unknown or the counts could not be read.
pub fn read_memory(page_size: u64, stats: Option<VmStats>, total: u64) -> (r: Option<MemoryInfo>)
    requires
        stats matches Some(s) ==> fits(s, page_size),
    ensures
        r is Some <==> page_size != 0 && stats is Some,
        match (r, stats) {
            (Some(m), Some(s)) => {
                &&& m.total == total
                &&& m.used == (s.active_count + s.wire_count) * page_size
                &&& m.available == (s.free_count + s.inactive_count + s.speculative_count)
                    * page_size
                &&& m.wired == s.wire_count * page_size
                &&& m.compressed == s.compressor_page_count * page_size
            },
            _ => true,
        },
{
    if page_size == 0 {
        return None;
    }
    match stats {
        None => None,
        Some(s) => {
            let used: u64 = s.active_count as u64 + s.wire_count as u64;
            let available: u64 = s.free_count as u64 + s.inactive_count as u64
                + s.speculative_count as u64;
            proof {
                assert(s.wire_count * page_size <= (s.active_count + s.wire_count) * page_size)
                    by (nonlinear_arith)
                    requires
                        s.active_count >= 0,
                        page_size >= 0,
                ;
            }
            Some(
                MemoryInfo {
                    total,
                    used: used * page_size,
                    available: available * page_size,
                    wired: s.wire_count as u64 * page_size,
                    compressed: s.compressor_page_count as u64 * page_size,
                },
            )
        },
    }
}

/// Swap statistics, or `None` if they could not be read.
pub fn read_swap(usage: Option<SwapUsage>) -> (r: Option<SwapInfo>)
    ensures
        r == match usage {
            Some(u) => Some(SwapInfo { total: u.total, used: u.used, free: u.avail }),
            None => None,
        },
{
    match usage {
        Some(u) => Some(SwapInfo { total: u.total, used: u.used, free: u.avail }),
        None => None,
    }
}

} // verus!
