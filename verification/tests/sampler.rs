use power_monitor::ioreport::StateResidency;
use power_monitor::sampler::{
    add_ticks, calc_utilization, classify_cpu_cluster, is_idle_state, reset_ticks, CpuCluster,
    Ratio,
};

fn sr(name: &str, ticks: u64) -> StateResidency {
    StateResidency {
        name: name.into(),
        ticks,
    }
}

fn fraction(r: Ratio) -> f32 {
    r.part as f32 / r.whole as f32
}

#[test]
fn idle_state_names_recognized() {
    for name in ["IDLE", "DOWN", "OFF", "SWOFF"] {
        assert!(is_idle_state(name), "{name} should be idle");
    }
}

#[test]
fn active_state_names_not_idle() {
    for name in ["V0P7", "V1P18", "P1", "P2", "1308 MHz", "NON_IDLE", ""] {
        assert!(!is_idle_state(name), "{name} should not be idle");
    }
}

#[test]
fn all_idle_returns_zero() {
    let states = vec![sr("IDLE", 10_000)];
    let (freq, util) = calc_utilization(&states, &[]);
    assert_eq!(fraction(util), 0.0);
    assert_eq!(freq, 0);
}

#[test]
fn all_active_returns_one() {
    let states = vec![sr("V0P7", 10_000)];
    let (freq, util) = calc_utilization(&states, &[1000]);
    assert!((fraction(util) - 1.0).abs() < 1e-6);
    assert_eq!(freq, 1000);
}

#[test]
fn half_idle_half_active() {
    let states = vec![sr("IDLE", 5_000), sr("V0P5", 5_000)];
    let (freq, util) = calc_utilization(&states, &[2000]);
    assert!((fraction(util) - 0.5).abs() < 1e-6);
    assert_eq!(freq, 2000);
}

#[test]
fn weighted_freq_two_active_states() {
    let states = vec![sr("IDLE", 0), sr("V0P1", 1_000), sr("V0P3", 3_000)];
    let (freq, util) = calc_utilization(&states, &[1000, 3000]);
    assert!((fraction(util) - 1.0).abs() < 1e-6, "util={util:?}");
    assert_eq!(freq, 2500);
}

#[test]
fn empty_freq_table_gives_zero_mhz_but_correct_util() {
    let states = vec![sr("IDLE", 1_000), sr("V0P7", 1_000)];
    let (freq, util) = calc_utilization(&states, &[]);
    assert!((fraction(util) - 0.5).abs() < 1e-6);
    assert_eq!(freq, 0);
}

#[test]
fn zero_total_ticks_returns_zero() {
    let states = vec![sr("IDLE", 0), sr("V0P7", 0)];
    let (freq, util) = calc_utilization(&states, &[1000]);
    assert_eq!(fraction(util), 0.0);
    assert_eq!(freq, 0);
}

#[test]
fn multiple_idle_states_all_skipped() {
    let states = vec![
        sr("IDLE", 8_000),
        sr("DOWN", 1_000),
        sr("V0P1", 500),
        sr("V0P2", 500),
    ];
    let (_, util) = calc_utilization(&states, &[1000, 2000]);
    assert!((fraction(util) - 0.1).abs() < 1e-6, "util={util:?}");
}

#[test]
fn add_ticks_into_empty_clones_source() {
    let mut accum = Vec::new();
    let src = vec![sr("IDLE", 100), sr("V0P1", 50)];
    add_ticks(&mut accum, &src);
    assert_eq!(accum.len(), 2);
    assert_eq!(accum[0].ticks, 100);
    assert_eq!(accum[1].ticks, 50);
}

#[test]
fn add_ticks_accumulates_by_index() {
    let mut accum = vec![sr("IDLE", 100), sr("V0P1", 50)];
    let src = vec![sr("IDLE", 200), sr("V0P1", 75)];
    add_ticks(&mut accum, &src);
    assert_eq!(accum[0].ticks, 300);
    assert_eq!(accum[1].ticks, 125);
    assert_eq!(accum[0].name, "IDLE");
}

#[test]
fn reset_ticks_preserves_names() {
    let mut accum = vec![sr("IDLE", 100), sr("V0P1", 50)];
    reset_ticks(&mut accum);
    assert_eq!(accum[0].ticks, 0);
    assert_eq!(accum[1].ticks, 0);
    assert_eq!(accum[0].name, "IDLE");
    assert_eq!(accum[1].name, "V0P1");
}

#[test]
fn classify_bare_cluster_names() {
    assert_eq!(classify_cpu_cluster("PCPU"), Some(CpuCluster::P));
    assert_eq!(classify_cpu_cluster("PCPU0"), Some(CpuCluster::P));
    assert_eq!(classify_cpu_cluster("ECPU"), Some(CpuCluster::EorM));
    assert_eq!(classify_cpu_cluster("ECPU0"), Some(CpuCluster::EorM));
    assert_eq!(classify_cpu_cluster("MCPU"), Some(CpuCluster::EorM));
    assert_eq!(classify_cpu_cluster("MCPU1"), Some(CpuCluster::EorM));
}

#[test]
fn classify_strips_die_prefix() {
    assert_eq!(classify_cpu_cluster("DIE_0_PCPU0"), Some(CpuCluster::P));
    assert_eq!(classify_cpu_cluster("DIE_1_ECPU"), Some(CpuCluster::EorM));
    assert_eq!(classify_cpu_cluster("DIE_12_MCPU"), Some(CpuCluster::EorM));
}

#[test]
fn classify_rejects_substring_matches() {
    assert_eq!(classify_cpu_cluster("APCPU"), None);
    assert_eq!(classify_cpu_cluster("XECPU"), None);
    assert_eq!(classify_cpu_cluster("GPU"), None);
    assert_eq!(classify_cpu_cluster(""), None);
}

#[test]
fn classify_preserves_original_on_malformed_die_prefix() {
    assert_eq!(classify_cpu_cluster("DIE_X_PCPU"), None);
    assert_eq!(classify_cpu_cluster("DIE_PCPU"), None);
}
