//! What callers in other languages are handed: flat records and C text.
use vstd::prelude::*;

use crate::memory::MemoryInfo;
use crate::sampler::Metrics;
use crate::soc::SocInfo;

verus! {

/// A sample in one flat record.
#[derive(Debug, Clone, Copy, PartialEq)]
pub struct PmMetrics<F> {
    pub sys_power: F,
    pub cpu_power: F,
    pub gpu_power: F,
    pub ane_power: F,
    pub dram_power: F,
    pub cpu_temp: F,
    pub gpu_temp: F,
    pub pcpu_util: F,
    pub pcpu_mhz: u32,
    pub ecpu_util: F,
    pub ecpu_mhz: u32,
    pub gpu_util: F,
    pub gpu_mhz: u32,
    pub mem_used: u64,
    pub mem_total: u64,
    pub swap_used: u64,
    pub swap_total: u64,
    pub fan_rpm: u32,
    pub fan_max_rpm: u32,
    pub interval_ms: F,
}

/// A temperature, `off` while the sensor is off.
pub open spec fn reading_or<F>(t: Option<F>, off: F) -> F {
    match t {
        Some(x) => x,
        None => off,
    }
}

/// A sample in one flat record; a sensor that is off reads `off`.
pub fn flat_metrics<F: Copy>(m: &Metrics<F>, off: F) -> (r: PmMetrics<F>)
    ensures
        r.sys_power == m.sys_power && r.cpu_power == m.cpu_power && r.gpu_power == m.gpu_power,
        r.ane_power == m.ane_power && r.dram_power == m.dram_power,
        r.cpu_temp == reading_or(m.cpu_temp, off) && r.gpu_temp == reading_or(m.gpu_temp, off),
        r.pcpu_util == m.pcpu.utilization && r.pcpu_mhz == m.pcpu.freq_mhz,
        r.ecpu_util == m.ecpu.utilization && r.ecpu_mhz == m.ecpu.freq_mhz,
        r.gpu_util == m.gpu_util && r.gpu_mhz == m.gpu_freq_mhz,
        r.mem_used == m.memory.used && r.mem_total == m.memory.total,
        r.swap_used == m.swap.used && r.swap_total == m.swap.total,
        r.fan_rpm == m.fan_rpm && r.fan_max_rpm == m.fan_max_rpm,
        r.interval_ms == m.interval_ms,
{
    PmMetrics {
        sys_power: m.sys_power,
        cpu_power: m.cpu_power,
        gpu_power: m.gpu_power,
        ane_power: m.ane_power,
        dram_power: m.dram_power,
        cpu_temp: match m.cpu_temp {
            Some(x) => x,
            None => off,
        },
        gpu_temp: match m.gpu_temp {
            Some(x) => x,
            None => off,
        },
        pcpu_util: m.pcpu.utilization,
        pcpu_mhz: m.pcpu.freq_mhz,
        ecpu_util: m.ecpu.utilization,
        ecpu_mhz: m.ecpu.freq_mhz,
        gpu_util: m.gpu_util,
        gpu_mhz: m.gpu_freq_mhz,
        mem_used: m.memory.used,
        mem_total: m.memory.total,
        swap_used: m.swap.used,
        swap_total: m.swap.total,
        fan_rpm: m.fan_rpm,
        fan_max_rpm: m.fan_max_rpm,
        interval_ms: m.interval_ms,
    }
}

/// What does not change while the machine runs.
#[derive(Debug, Clone, Copy, PartialEq, Eq)]
pub struct PmSocInfo {
    pub pcpu_cores: u32,
    pub ecpu_cores: u32,
    pub gpu_cores: u32,
    pub total_ram: u64,
}

/// What does not change while the machine runs; 0 for what is not known.
pub fn soc_record(soc: &SocInfo, memory: Option<MemoryInfo>) -> (r: PmSocInfo)
    ensures
        r.pcpu_cores == (if soc.perf_levels@.len() > 0 {
            soc.perf_levels@[0].cores
        } else {
            0
        }),
        r.ecpu_cores == (if soc.perf_levels@.len() > 0 {
            soc.perf_levels@.last().cores
        } else {
            0
        }),
        r.gpu_cores == soc.gpu_cores,
        r.total_ram == match memory {
            Some(m) => m.total,
            None => 0,
        },
{
    PmSocInfo {
        pcpu_cores: match soc.pcpu_level() {
            Some(l) => l.cores,
            None => 0,
        },
        ecpu_cores: match soc.ecpu_level() {
            Some(l) => l.cores,
            None => 0,
        },
        gpu_cores: soc.gpu_cores,
        total_ram: match memory {
            Some(m) => m.total,
            None => 0,
        },
    }
}

/// How much of a text fits into a buffer of this size beside the closing NUL.
pub open spec fn fitting(text: Seq<u8>, size: int) -> Seq<u8> {
    if size == 0 {
        seq![]
    } else if text.len() < size {
        text
    } else {
        text.take(size - 1)
    }
}

/// What is written into a buffer of this size for a text: as much of it as fits, and
/// a NUL. Nothing fits into a buffer of no size.
pub fn c_text(text: &Vec<u8>, size: usize) -> (r: Vec<u8>)
    ensures
        size == 0 ==> r@.len() == 0,
        size > 0 ==> r@ == fitting(text@, size as int).push(0),
        r@.len() <= size,
{
    let mut r: Vec<u8> = Vec::new();
    if size == 0 {
        return r;
    }
    let n: usize = if text.len() < size {
        text.len()
    } else {
        size - 1
    };
    let mut i: usize = 0;
    while i < n
        invariant
            i <= n <= text@.len(),
            r@ == text@.take(i as int),
        decreases n - i,
    {
        r.push(text[i]);
        i = i + 1;
    }
    proof {
        assert(text@.take(text@.len() as int) == text@);
    }
    r.push(0);
    r
}

/// A text that fits beside the closing NUL is written whole; of another as much as leaves
/// room for the NUL.
pub proof fn texts_are_cut_to_the_buffer(text: Seq<u8>, size: int)
    requires
        size > 0,
    ensures
        fitting(text, size).is_prefix_of(text),
        text.len() + 1 <= size ==> fitting(text, size) == text,
        text.len() + 1 > size ==> fitting(text, size).len() + 1 == size,
{
}

} // verus!
