use power_monitor::ffi::{c_text, flat_metrics, soc_record};
use power_monitor::memory::{read_memory, read_swap, MemoryInfo, SwapInfo, SwapUsage, VmStats};
use power_monitor::sampler::{ClusterMetrics, Metrics};
use power_monitor::soc::{
    candidate_properties, level_count, probe_voltage_state_properties, read_dvfs_frequencies,
    DvfsNode, LevelProbe, SocInfo, SystemProbe,
};

fn stats() -> VmStats {
    VmStats {
        free_count: 1,
        active_count: 2,
        inactive_count: 4,
        wire_count: 8,
        speculative_count: 16,
        compressor_page_count: 32,
    }
}

#[test]
fn memory_is_counted_in_pages() {
    let m = read_memory(4096, Some(stats()), 1 << 34).unwrap();
    assert_eq!(m.total, 1 << 34);
    assert_eq!(m.used, (2 + 8) * 4096);
    assert_eq!(m.available, (1 + 4 + 16) * 4096);
    assert_eq!(m.wired, 8 * 4096);
    assert_eq!(m.compressed, 32 * 4096);
    assert!(read_memory(4096, None, 1 << 34).is_none());
}

#[test]
fn swap_is_handed_on() {
    let s = read_swap(Some(SwapUsage { total: 3, avail: 2, used: 1 })).unwrap();
    assert_eq!((s.total, s.used, s.free), (3, 1, 2));
    assert!(read_swap(None).is_none());
}

fn pairs(freqs_hz: &[u32]) -> Vec<u8> {
    freqs_hz.iter().flat_map(|f| [f.to_le_bytes(), [0; 4]].concat()).collect()
}

fn level(name: &str, cores: u32) -> LevelProbe {
    LevelProbe {
        name: Some(name.to_string()),
        cores: Some(cores),
        freqs64: vec![],
        freqs32: vec![],
    }
}

fn probe() -> SystemProbe {
    SystemProbe {
        chip_name: Some("Apple M5".to_string()),
        levels: vec![level("Performance", 4), level("Efficiency", 6)],
        gpu_cores: Some(10),
        dvfs: vec![DvfsNode {
            ecpu: pairs(&[1_000_000_000, 2_000_000_000]),
            pcpu: pairs(&[3_000_000_000]),
            pcpu_second: vec![],
            gpu: pairs(&[400_000_000]),
        }],
    }
}

#[test]
fn the_system_is_described() {
    let soc = SocInfo::from_system(&probe());
    assert_eq!(soc.chip_name, "Apple M5");
    assert_eq!(soc.gpu_cores, 10);
    assert_eq!(soc.total_cores(), 10);
    let p = soc.pcpu_level().unwrap();
    assert_eq!((p.name.as_str(), p.cores), ("Performance", 4));
    assert_eq!(p.freqs_mhz, vec![3000]);
    let e = soc.ecpu_level().unwrap();
    assert_eq!((e.name.as_str(), e.cores), ("Efficiency", 6));
    assert_eq!(e.freqs_mhz, vec![1000, 2000]);
    assert_eq!(soc.gpu_freqs_mhz, vec![400]);
}

#[test]
fn dvfs_tables_come_from_the_nodes() {
    let t = read_dvfs_frequencies(&probe().dvfs);
    assert_eq!(t.ecpu, vec![1000, 2000]);
    assert_eq!(t.pcpu, vec![3000]);
    assert_eq!(t.gpu, vec![400]);
    let none = read_dvfs_frequencies(&vec![]);
    assert!(none.ecpu.is_empty() && none.pcpu.is_empty() && none.gpu.is_empty());
}

#[test]
fn voltage_states_are_listed() {
    assert_eq!(level_count(None), 2);
    let names = candidate_properties();
    assert!(names.iter().any(|n| n == "voltage-states1-sram"));
    let mut data: Vec<Vec<u8>> = names.iter().map(|_| vec![]).collect();
    data[0] = pairs(&[1_000_000_000]);
    let found = probe_voltage_state_properties(7, &data);
    assert_eq!(found.len(), 1);
    assert!(found[0].contains(&names[0]));
}

fn metrics() -> Metrics<u32> {
    Metrics {
        ecpu: ClusterMetrics { freq_mhz: 1, utilization: 2 },
        pcpu: ClusterMetrics { freq_mhz: 3, utilization: 4 },
        gpu_util: 5,
        gpu_freq_mhz: 6,
        cpu_power: 7,
        gpu_power: 8,
        ane_power: 9,
        dram_power: 10,
        all_power: 11,
        sys_power: 12,
        memory: MemoryInfo { total: 13, used: 14, available: 15, wired: 16, compressed: 17 },
        swap: SwapInfo { total: 18, used: 19, free: 20 },
        cpu_temp: Some(21),
        gpu_temp: None,
        fan_rpm: 22,
        fan_max_rpm: 23,
        interval_ms: 24,
    }
}

#[test]
fn samples_are_flattened() {
    let r = flat_metrics(&metrics(), 99);
    assert_eq!((r.ecpu_mhz, r.ecpu_util, r.pcpu_mhz, r.pcpu_util), (1, 2, 3, 4));
    assert_eq!((r.gpu_util, r.gpu_mhz), (5, 6));
    assert_eq!((r.cpu_power, r.gpu_power, r.ane_power, r.dram_power, r.sys_power), (7, 8, 9, 10, 12));
    assert_eq!((r.mem_total, r.mem_used, r.swap_total, r.swap_used), (13, 14, 18, 19));
    assert_eq!((r.cpu_temp, r.gpu_temp), (21, 99));
    assert_eq!((r.fan_rpm, r.fan_max_rpm, r.interval_ms), (22, 23, 24));
}

#[test]
fn the_machine_in_one_record() {
    let r = soc_record(&SocInfo::from_system(&probe()), Some(metrics().memory));
    assert_eq!((r.pcpu_cores, r.ecpu_cores, r.gpu_cores, r.total_ram), (4, 6, 10, 13));
    let mut bare = probe();
    bare.levels = vec![];
    let soc = SocInfo { perf_levels: vec![], ..SocInfo::from_system(&bare) };
    let r = soc_record(&soc, None);
    assert_eq!((r.pcpu_cores, r.ecpu_cores, r.total_ram), (0, 0, 0));
}

#[test]
fn c_text_is_cut_to_the_buffer() {
    let name = b"Apple M5".to_vec();
    assert_eq!(c_text(&name, 32), b"Apple M5\0".to_vec());
    assert_eq!(c_text(&name, 9), b"Apple M5\0".to_vec());
    assert_eq!(c_text(&name, 6), b"Apple\0".to_vec());
    assert_eq!(c_text(&name, 1), b"\0".to_vec());
    assert_eq!(c_text(&name, 0), Vec::<u8>::new());
}
