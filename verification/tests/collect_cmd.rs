use power_monitor::fleet::{
    build_snapshot, push_bounded, sparkline, write_host_block, History, HostState, HISTORY_LEN,
};
use power_monitor::hosts::{parse_hosts, parse_tailnet_status, status_refusal, tailnet_hosts};
use power_monitor::json::{escape_json, walk_flat_object};
use power_monitor::prometheus::{
    fleet_to_prometheus, gauge_value, live_host, Gauge, LiveHost, GAUGES,
};
use power_monitor::sample::{parse_sample, parsed_to_metrics, ParsedSample};
use std::collections::VecDeque;

type Numbers = ParsedSample<f32, f32>;

/// The history of a host: a fraction is its part and its whole.
type Recent = History<f32, Option<(u64, u64)>>;

/// The measured quantities of a sample as numbers, with its temperatures read.
fn numbers_and<T>(
    s: &ParsedSample<String, String>,
    temp: impl Fn(&str) -> T,
) -> ParsedSample<f32, T> {
    let number = |t: &str| t.parse::<f32>().unwrap_or(0.0);
    ParsedSample {
        chip: s.chip.clone(),
        hostname: s.hostname.clone(),
        sys_power: number(&s.sys_power),
        cpu_power: number(&s.cpu_power),
        gpu_power: number(&s.gpu_power),
        ane_power: number(&s.ane_power),
        dram_power: number(&s.dram_power),
        ecpu_util: number(&s.ecpu_util),
        pcpu_util: number(&s.pcpu_util),
        gpu_util: number(&s.gpu_util),
        ecpu_freq_mhz: s.ecpu_freq_mhz,
        pcpu_freq_mhz: s.pcpu_freq_mhz,
        gpu_freq_mhz: s.gpu_freq_mhz,
        cpu_temp_c: temp(&s.cpu_temp_c),
        gpu_temp_c: temp(&s.gpu_temp_c),
        fan_rpm: s.fan_rpm,
        fan_max_rpm: s.fan_max_rpm,
        memory_used_bytes: s.memory_used_bytes,
        memory_total_bytes: s.memory_total_bytes,
        swap_used_bytes: s.swap_used_bytes,
        swap_total_bytes: s.swap_total_bytes,
    }
}

/// The measured quantities of a sample as numbers.
fn numbers(s: &ParsedSample<String, String>) -> Numbers {
    numbers_and(s, |t| t.parse::<f32>().unwrap_or(f32::NAN))
}

fn blank() -> Numbers {
    numbers(&parse_sample("{}"))
}

/// The heights of the blocks for values on a scale.
fn heights(values: &VecDeque<f32>, scale_max: f32) -> VecDeque<u8> {
    values
        .iter()
        .map(|v| (((v / scale_max).clamp(0.0, 1.0) * 8.0) as usize).min(7) as u8)
        .collect()
}

fn spark(values: &VecDeque<f32>, width: usize, scale_max: f32) -> String {
    sparkline(&heights(values, scale_max), width)
}

fn fraction(parts: Option<(u64, u64)>) -> f32 {
    match parts {
        Some((part, whole)) => part as f32 / whole as f32,
        None => 0.0,
    }
}

/// The snapshot of a fleet whose histories hold these heights.
fn snapshot(states: &[HostState<f32, u64>], heights: &History<u8, u8>) -> String {
    let blocks: Vec<String> = states
        .iter()
        .map(|h| {
            let mut out = String::new();
            write_host_block(&mut out, h, "0.00", heights);
            out
        })
        .collect();
    build_snapshot(&blocks, 1000)
}

// ── parse_hosts ──────────────────────────────────────────────────────────────

#[test]
fn parse_hosts_bare_names_get_default_port() {
    let v = parse_hosts("a,b,c", 9090);
    assert_eq!(v, vec!["a:9090", "b:9090", "c:9090"]);
}

#[test]
fn parse_hosts_explicit_port_preserved() {
    let v = parse_hosts("a:1000,b:2000", 9090);
    assert_eq!(v, vec!["a:1000", "b:2000"]);
}

#[test]
fn parse_hosts_strips_scheme_and_path() {
    let v = parse_hosts("http://mac01/path,https://mac02:9091/x", 9090);
    assert_eq!(v, vec!["mac01:9090", "mac02:9091"]);
}

#[test]
fn parse_hosts_ignores_empty_and_whitespace() {
    let v = parse_hosts(" a , ,b ", 9090);
    assert_eq!(v, vec!["a:9090", "b:9090"]);
}

// ── Field parsers ────────────────────────────────────────────────────────────

#[test]
fn walk_flat_object_passes_over_white_space() {
    let pair = |k: &str, v: &str| (k.to_string(), v.to_string());
    assert_eq!(walk_flat_object("{\"a\":\n1}"), vec![pair("a", "1")]);
    assert_eq!(
        walk_flat_object("\n{ \"a\" \r\n:\t1\n,\n  \"b\"\n: \r\"x y\" \n}\n"),
        vec![pair("a", "1"), pair("b", "x y")]
    );
}

#[test]
fn walk_flat_object_yields_keys_and_values() {
    let json = r#"{"a":42,"b":"hi","c":-0.5,"d":null}"#;
    let pairs = walk_flat_object(json);
    assert_eq!(
        pairs,
        vec![
            ("a".to_string(), "42".to_string()),
            ("b".to_string(), "hi".to_string()),
            ("c".to_string(), "-0.5".to_string()),
            ("d".to_string(), "null".to_string()),
        ]
    );
}

#[test]
fn parse_sample_preserves_u64_precision() {
    let n: u64 = 17_179_869_185;
    let json = format!(r#"{{"memory_total_bytes":{n}}}"#);
    let s = parse_sample(&json);
    assert_eq!(s.memory_total_bytes, n);
}

#[test]
fn parse_sample_scientific_notation() {
    let json = r#"{"sys_power":1.5e3}"#;
    let s = numbers(&parse_sample(json));
    assert!((s.sys_power - 1500.0).abs() < 0.01);
}

#[test]
fn parse_sample_missing_field_defaults() {
    let s = numbers(&parse_sample(r#"{"chip":"Apple M5"}"#));
    assert_eq!(s.chip, "Apple M5");
    assert_eq!(s.sys_power, 0.0);
    assert_eq!(s.memory_total_bytes, 0);
    assert!(s.cpu_temp_c.is_nan());
}

#[test]
fn parse_sample_null_temp_round_trips_to_nan() {
    let json = r#"{"chip":"Apple M4","hostname":"sub-1","cpu_temp_c":null,"gpu_temp_c":null,"sys_power":1.2}"#;
    let s = numbers(&parse_sample(json));
    assert!(s.cpu_temp_c.is_nan());
    assert!(s.gpu_temp_c.is_nan());
    assert!((s.sys_power - 1.2).abs() < 0.01);
}

#[test]
fn parse_sample_full_payload() {
    let json = r#"{"timestamp":"2026-04-09T12:00:00Z","version":"0.1.0","hostname":"mac01","chip":"Apple M5","pcpu_cores":4,"ecpu_cores":6,"gpu_cores":10,"interval_ms":1000,"sys_power":12.3,"cpu_power":3.1,"gpu_power":1.2,"ane_power":0.0,"dram_power":0.5,"all_power":4.3,"ecpu_util":0.10,"ecpu_freq_mhz":1200,"pcpu_util":0.15,"pcpu_freq_mhz":2500,"gpu_util":0.05,"gpu_freq_mhz":700,"cpu_temp_c":45.0,"gpu_temp_c":44.0,"memory_used_bytes":8000000000,"memory_total_bytes":16000000000,"swap_used_bytes":0,"swap_total_bytes":0}"#;
    let s = numbers(&parse_sample(json));
    assert_eq!(s.chip, "Apple M5");
    assert_eq!(s.hostname, "mac01");
    assert!((s.sys_power - 12.3).abs() < 0.01);
    assert!((s.cpu_power - 3.1).abs() < 0.01);
    assert_eq!(s.pcpu_freq_mhz, 2500);
    assert_eq!(s.memory_used_bytes, 8_000_000_000);
    assert_eq!(s.memory_total_bytes, 16_000_000_000);
    assert!((s.cpu_temp_c - 45.0).abs() < 0.01);
}

// ── Sparkline and history ────────────────────────────────────────────────────

#[test]
fn sparkline_empty_buffer_is_all_spaces() {
    let v = VecDeque::new();
    let s = spark(&v, 8, 40.0);
    assert_eq!(s, "        ");
}

#[test]
fn sparkline_single_value_low_and_high() {
    let mut low = VecDeque::new();
    low.push_back(0.0);
    let s = spark(&low, 4, 40.0);
    assert_eq!(s, "   ▁");

    let mut high = VecDeque::new();
    high.push_back(40.0);
    let s = spark(&high, 4, 40.0);
    assert_eq!(s, "   █");
}

#[test]
fn sparkline_clamps_above_scale_max() {
    let mut v = VecDeque::new();
    v.push_back(100.0);
    let s = spark(&v, 1, 40.0);
    assert_eq!(s, "█");
}

#[test]
fn sparkline_pads_left_when_buffer_smaller_than_width() {
    let mut v = VecDeque::new();
    v.push_back(20.0);
    v.push_back(40.0);
    let s = spark(&v, 5, 40.0);
    assert_eq!(s.chars().count(), 5);
    assert!(s.starts_with("   "));
}

#[test]
fn sparkline_shows_most_recent_when_buffer_overflows_width() {
    let mut v = VecDeque::new();
    for _ in 0..10 {
        v.push_back(0.0);
    }
    v.push_back(40.0);
    let s = spark(&v, 4, 40.0);
    assert_eq!(s, "▁▁▁█");
}

#[test]
fn push_bounded_respects_capacity() {
    let mut v = VecDeque::new();
    for i in 0..(HISTORY_LEN + 10) {
        push_bounded(&mut v, i as f32);
    }
    assert_eq!(v.len(), HISTORY_LEN);
    assert_eq!(*v.front().unwrap(), 10.0);
    assert_eq!(*v.back().unwrap(), (HISTORY_LEN + 9) as f32);
}

#[test]
fn history_push_updates_all_ringbuffers() {
    let mut h: Recent = History::new();
    let s = ParsedSample {
        sys_power: 5.0,
        cpu_power: 1.5,
        gpu_power: 0.3,
        ane_power: 0.1,
        dram_power: 0.2,
        pcpu_util: 0.15,
        ecpu_util: 0.25,
        gpu_util: 0.05,
        memory_used_bytes: 8_000_000_000,
        memory_total_bytes: 16_000_000_000,
        swap_used_bytes: 1_500_000_000,
        swap_total_bytes: 3_000_000_000,
        ..blank()
    };
    h.push(&s);
    assert_eq!(h.sys_power.back(), Some(&5.0));
    assert_eq!(h.cpu_power.back(), Some(&1.5));
    assert_eq!(h.gpu_power.back(), Some(&0.3));
    assert_eq!(h.ane_power.back(), Some(&0.1));
    assert_eq!(h.dram_power.back(), Some(&0.2));
    assert_eq!(h.pcpu_util.back(), Some(&0.15));
    assert_eq!(h.ecpu_util.back(), Some(&0.25));
    assert_eq!(h.gpu_util.back(), Some(&0.05));
    assert!((fraction(*h.mem_frac.back().unwrap()) - 0.5).abs() < 1e-6);
    assert!((fraction(*h.swap_frac.back().unwrap()) - 0.5).abs() < 1e-6);
}

#[test]
fn fractions_do_not_exceed_one() {
    let mut h: Recent = History::new();
    let s = ParsedSample {
        fan_rpm: 7000,
        fan_max_rpm: 6000,
        memory_used_bytes: 200,
        memory_total_bytes: 100,
        swap_used_bytes: 31,
        swap_total_bytes: 30,
        ..blank()
    };
    h.push(&s);
    assert_eq!(h.fan_duty.back(), Some(&Some((6000, 6000))));
    assert_eq!(h.mem_frac.back(), Some(&Some((100, 100))));
    assert_eq!(h.swap_frac.back(), Some(&Some((30, 30))));
}

#[test]
fn history_push_handles_zero_total_memory() {
    let mut h: Recent = History::new();
    let s = ParsedSample {
        memory_used_bytes: 100,
        memory_total_bytes: 0,
        swap_used_bytes: 50,
        swap_total_bytes: 0,
        ..blank()
    };
    h.push(&s);
    assert_eq!(fraction(*h.mem_frac.back().unwrap()), 0.0);
    assert_eq!(fraction(*h.swap_frac.back().unwrap()), 0.0);
}

// ── Snapshot ─────────────────────────────────────────────────────────────────

#[test]
fn snapshot_empty_fleet() {
    let s = build_snapshot(&vec![], 1000);
    assert!(s.starts_with("{\"generated_at\":"));
    assert!(s.contains("\"poll_interval_ms\":1000"));
    assert!(s.contains(&format!("\"history_len\":{HISTORY_LEN}")));
    assert!(s.contains("\"hosts\":[]"));
}

#[test]
fn snapshot_never_seen_host_produces_null_metrics() {
    let s = snapshot(&[HostState::new("mac01:9090".to_string())], &History::new());
    assert!(s.contains("\"label\":\"mac01\""));
    assert!(s.contains("\"target\":\"mac01:9090\""));
    assert!(s.contains("\"ok\":false"));
    assert!(s.contains("\"stale_s\":null"));
    assert!(s.contains("\"metrics\":null"));
    assert!(s.contains("\"spark\":"));
}

#[test]
fn snapshot_tells_how_long_ago_a_host_answered() {
    let mut h: HostState<f32, u64> = HostState::new("mac01:9090".to_string());
    h.last_ok_at = Some(0);
    let mut out = String::new();
    write_host_block(&mut out, &h, "1.25", &History::new());
    assert!(out.contains("\"ok\":false,\"stale_s\":1.25,"));
    h.last_ok_at = None;
    out.clear();
    write_host_block(&mut out, &h, "1.25", &History::new());
    assert!(out.contains("\"stale_s\":null,"));
}

#[test]
fn snapshot_inlines_raw_metrics_body_verbatim() {
    let mut h: HostState<f32, u64> = HostState::new("mac01:9090".to_string());
    h.last_json = "{\"chip\":\"M5\",\"sys_power\":12.3}".to_string();
    h.last_ok_at = Some(0);
    let s = snapshot(&[h], &History::new());
    assert!(s.contains("\"ok\":true"));
    assert!(s.contains("\"metrics\":{\"chip\":\"M5\",\"sys_power\":12.3}"));
}

#[test]
fn snapshot_contains_sparkline_fields() {
    let mut h: HostState<f32, u64> = HostState::new("mac01:9090".to_string());
    h.last_json = "{}".to_string();
    h.last_ok_at = Some(0);
    h.history.sys_power.push_back(20.0);
    h.history.cpu_power.push_back(10.0);
    h.history.gpu_power.push_back(8.0);
    let mut shown: History<u8, u8> = History::new();
    shown.sys_power = heights(&h.history.sys_power, 40.0);
    shown.cpu_power = heights(&h.history.cpu_power, 20.0);
    shown.gpu_power = heights(&h.history.gpu_power, 16.0);
    let s = snapshot(&[h], &shown);
    assert!(s.contains("\"spark\":{"));
    assert!(s.contains("\"sys\":"));
    assert!(s.contains("\"cpu\":"));
    assert!(s.contains("\"gpu\":"));
}

// ── Prometheus aggregation ───────────────────────────────────────────────────

/// A host as the exporter shows it at a time in seconds.
fn live(h: &HostState<f32, u64>, now: u64) -> LiveHost {
    let values = h.parsed.as_ref().map_or(vec![], |p| {
        let m = parsed_to_metrics(p, 0.0);
        (0..GAUGES)
            .map(|i| match gauge_value(&m, i) {
                Gauge::Measured(x) => Some(format!("{x:.3}")),
                Gauge::Count(n) => Some(format!("{:.3}", n as f64)),
                Gauge::Absent => None,
            })
            .collect()
    });
    live_host(h, h.last_ok_at.map(|t| now - t), values)
}

#[test]
fn prometheus_emits_help_and_type_lines() {
    let text = fleet_to_prometheus(&vec![]);
    assert!(text.contains("# HELP power_monitor_sys_power_watts"));
    assert!(text.contains("# TYPE power_monitor_sys_power_watts gauge"));
    assert!(text.contains("# HELP power_monitor_host_up"));
}

#[test]
fn prometheus_emits_labelled_samples_for_online_hosts() {
    let mut h = HostState::new("mac01:9090".to_string());
    h.parsed = Some(ParsedSample {
        chip: "Apple M5".to_string(),
        hostname: "mac01".to_string(),
        sys_power: 12.5,
        ..numbers_and(&parse_sample("{}"), |t| t.parse::<f32>().ok())
    });
    h.last_ok_at = Some(100);
    let text = fleet_to_prometheus(&vec![live(&h, 100)]);
    assert!(
        text.contains("power_monitor_sys_power_watts{chip=\"Apple M5\",host=\"mac01\"} 12.500")
    );
    assert!(text.contains(
        "power_monitor_host_up{chip=\"Apple M5\",host=\"mac01\",target=\"mac01:9090\"} 1"
    ));
}

#[test]
fn prometheus_host_up_is_zero_for_never_seen() {
    let h = HostState::new("never-seen:9090".to_string());
    let text = fleet_to_prometheus(&vec![live(&h, 100)]);
    assert!(text.contains(
        "power_monitor_host_up{chip=\"\",host=\"never-seen\",target=\"never-seen:9090\"} 0"
    ));
}

#[test]
fn a_host_is_up_by_its_last_answer() {
    let mut h: HostState<f32, u64> = HostState::new("mac01:9090".to_string());
    assert!(!live_host(&h, None, vec![]).up);
    assert!(!live_host(&h, Some(0), vec![]).up);
    h.last_ok_at = Some(100);
    assert!(live(&h, 109).up);
    assert!(!live(&h, 110).up);
    assert!(live(&h, 109).shown.is_none());
}

// ── Tailnet discovery ────────────────────────────────────────────────────────

#[test]
fn parse_tailnet_status_picks_online_peers() {
    let stdout = "\
100.64.1.1    dashboard-host      me@        macOS   -
100.64.1.5    mac01               me@        macOS   idle; direct 192.168.1.5:41641
100.64.1.6    mac02               me@        macOS   active
100.64.1.7    mac03               me@        macOS   offline
";
    let hosts = parse_tailnet_status(stdout);
    assert_eq!(hosts, vec!["dashboard-host", "mac01", "mac02"]);
}

#[test]
fn parse_tailnet_status_skips_non_tailscale_ips() {
    let stdout = "\
192.168.1.5    bogus               me@        macOS   -
100.64.1.5    mac01               me@        macOS   idle
";
    assert_eq!(parse_tailnet_status(stdout), vec!["mac01"]);
}

#[test]
fn parse_tailnet_status_handles_ipv6_tailnet() {
    let stdout = "fd7a:115c:a1e0::1    mac01   me@   macOS  idle";
    assert_eq!(parse_tailnet_status(stdout), vec!["mac01"]);
}

#[test]
fn parse_tailnet_status_returns_empty_for_blank_input() {
    assert!(parse_tailnet_status("").is_empty());
}

// ── Labels ───────────────────────────────────────────────────────────────────

#[test]
fn escape_json_handles_quotes_and_backslashes() {
    assert_eq!(escape_json("a\"b\\c"), "a\\\"b\\\\c");
}

#[test]
fn host_state_label_is_hostname_only() {
    let h: HostState<f32, u64> = HostState::new("mac01.lan:9090".to_string());
    assert_eq!(h.label, "mac01.lan");
}

#[test]
fn tailnet_status_must_be_text() {
    let status = "100.64.1.5  mac01  me@  macOS  idle\n100.64.1.7  mac03  me@  macOS  offline\n";
    assert_eq!(tailnet_hosts(status.as_bytes()), Ok(vec!["mac01".to_string()]));
    let bytes = [b'a', 0xff];
    let why = std::str::from_utf8(&bytes).unwrap_err().to_string();
    assert_eq!(tailnet_hosts(&bytes), Err(format!("tailscale output not UTF-8: {why}")));
}

#[test]
fn a_refused_status_tells_what_was_said() {
    assert_eq!(
        status_refusal("exit status: 1", b" not running\xff\n"),
        "tailscale status exited with exit status: 1: not running\u{fffd}"
    );
}

#[test]
fn joined_targets_give_themselves() {
    for list in ["", " a , ,b ", "http://mac01/path,https://mac02:9091/x", "/,:,x:1/y", "a:1000,b"] {
        let targets = parse_hosts(list, 9090);
        assert!(targets.iter().all(|t| t.contains(':') && !t.contains('/')));
        for port in [0u16, 9090, 65535] {
            assert_eq!(parse_hosts(&targets.join(","), port), targets);
        }
    }
}
