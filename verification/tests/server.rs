use power_monitor::collect_cmd;
use power_monitor::collect_cmd::{route_request, Route};
use power_monitor::fleet::{
    build_snapshot_at, fan_parts, memory_parts, write_stream_event, HostState, PollStep, Polling,
};
use power_monitor::http::{
    build_request, constant_time_eq, extract_bearer, extract_path, http_response, parse_response,
    read_request_head, try_acquire, RequestHead, ResponseError, CHUNK_BYTES, MAX_HEADER_BYTES,
    MAX_INFLIGHT,
};
use power_monitor::memory::{MemoryInfo, SwapInfo};
use power_monitor::pipe_cmd::write_frame;
use power_monitor::prometheus::{
    gauge_label, gauge_text, gauge_value, is_up, metrics_to_prometheus, write_prom_label, Gauge,
    GAUGES,
};
use power_monitor::sample::{parse_sample, parsed_to_metrics, ParsedSample};
use power_monitor::sampler::{ClusterMetrics, Metrics};
use power_monitor::serialize::{
    hostname, metrics_to_json, short_hostname, utc_now, write_metrics_json_at, AgentInfo,
};
use power_monitor::serve_cmd::{answer_at, handle_connection, is_admitted, refuse, server_busy};

fn text(bytes: &[u8]) -> String {
    String::from_utf8(bytes.to_vec()).unwrap()
}

fn metrics() -> Metrics<String> {
    let s = |t: &str| t.to_string();
    Metrics {
        ecpu: ClusterMetrics { freq_mhz: 1200, utilization: s("0.1000") },
        pcpu: ClusterMetrics { freq_mhz: 2500, utilization: s("0.1500") },
        gpu_util: s("0.0500"),
        gpu_freq_mhz: 700,
        cpu_power: s("3.100"),
        gpu_power: s("1.200"),
        ane_power: s("0.000"),
        dram_power: s("0.500"),
        all_power: s("4.300"),
        sys_power: s("12.300"),
        memory: MemoryInfo { total: 16, used: 8, available: 8, wired: 1, compressed: 2 },
        swap: SwapInfo { total: 4, used: 1, free: 3 },
        cpu_temp: Some(s("45.0")),
        gpu_temp: None,
        fan_rpm: 3000,
        fan_max_rpm: 6000,
        interval_ms: s("1000"),
    }
}

fn info() -> AgentInfo {
    AgentInfo {
        version: "1.0.0",
        hostname: "mac01".to_string(),
        chip: "Apple \"M5\"".to_string(),
        pcpu_cores: 4,
        ecpu_cores: 6,
        gpu_cores: 10,
        interval_ms: 1000,
    }
}

fn gauges() -> Vec<Option<String>> {
    (0..GAUGES).map(|i| if i == 3 { None } else { Some(i.to_string()) }).collect()
}

// ── Requests and responses ───────────────────────────────────────────────────

#[test]
fn requests_carry_path_and_token_through() {
    let r = build_request("mac01:9090", Some("s3cret"));
    assert_eq!(extract_path(r.as_bytes()).as_deref(), Some("/json"));
    assert_eq!(extract_bearer(r.as_bytes()).as_deref(), Some("s3cret"));
    let open = build_request("mac01:9090", None);
    assert_eq!(extract_bearer(open.as_bytes()), None);
    assert!(open.contains("Host: mac01:9090\r\n"));
    assert!(open.ends_with("\r\n\r\n"));
}

#[test]
fn responses_are_read_back_whole() {
    let r = http_response("200 OK", "application/json", "{\"a\":\"é\"}\r\n\r\n");
    assert_eq!(parse_response(&r).ok().as_deref(), Some("{\"a\":\"é\"}\r\n\r\n"));
    assert!(text(&r).contains("Content-Length: 14\r\n"));
}

#[test]
fn bad_responses_are_told_apart() {
    let status = parse_response(&http_response("401 Unauthorized", "text/plain", "no"));
    match status {
        Err(e) => assert!(e.message("mac01:9090").contains("401 Unauthorized")),
        Ok(_) => panic!("accepted"),
    }
    assert!(matches!(parse_response(b"junk"), Err(ResponseError::Malformed)));
    match parse_response(&[b'H', 0xff]) {
        Err(ResponseError::NotUtf8(why)) => {
            assert_eq!(why, std::str::from_utf8(&[b'H', 0xff]).unwrap_err().to_string())
        }
        _ => panic!("accepted"),
    }
}

#[test]
fn heads_end_at_the_blank_line() {
    let chunks: Vec<Vec<u8>> = vec![b"GET / HT".to_vec(), b"TP/1.1\r\n\r\n".to_vec(), b"more".to_vec()];
    assert_eq!(read_request_head(&chunks), b"GET / HTTP/1.1\r\n\r\n".to_vec());
    assert_eq!(read_request_head(&vec![b"GET".to_vec(), vec![], b"x".to_vec()]), b"GET".to_vec());
    let mut head = RequestHead::new();
    while head.wants_more() {
        head.feed(&[b'x'; CHUNK_BYTES]);
    }
    assert_eq!(head.into_bytes().len(), MAX_HEADER_BYTES);
}

#[test]
fn permits_are_bounded() {
    assert!(try_acquire(0, MAX_INFLIGHT).is_some());
    assert!(try_acquire(MAX_INFLIGHT - 1, MAX_INFLIGHT).is_some());
    assert!(try_acquire(MAX_INFLIGHT, MAX_INFLIGHT).is_none());
}

#[test]
fn tokens_are_compared_whole() {
    assert!(constant_time_eq(Some("abc"), "abc"));
    assert!(!constant_time_eq(Some("abd"), "abc"));
    assert!(!constant_time_eq(Some("ab"), "abc"));
    assert!(!constant_time_eq(Some("abcd"), "abc"));
    assert!(!constant_time_eq(None, "abc"));
    assert!(constant_time_eq(Some(""), ""));
}

// ── The agent ────────────────────────────────────────────────────────────────

#[test]
fn agents_answer_only_the_token() {
    let with = b"GET /json HTTP/1.1\r\nAuthorization: Bearer t\r\n\r\n";
    let without = b"GET /json HTTP/1.1\r\n\r\n";
    assert!(is_admitted(with, Some("t")) && is_admitted(without, None));
    assert!(!is_admitted(without, Some("t")) && !is_admitted(with, Some("other")));
    let answer = handle_connection(without, &metrics(), &gauges(), &info(), Some("t")).unwrap();
    assert_eq!(answer, refuse());
    assert!(text(&refuse()).starts_with("HTTP/1.1 401 Unauthorized\r\n"));
    assert!(text(&server_busy()).starts_with("HTTP/1.1 503 Service Unavailable\r\n"));
}

#[test]
fn agents_show_json_and_gauges() {
    let json = handle_connection(b"GET /json HTTP/1.1\r\n\r\n", &metrics(), &gauges(), &info(), None);
    let json = text(&json.unwrap());
    assert!(json.contains("application/json"));
    assert!(json.contains("\"sys_power\":12.300"));
    let prom =
        handle_connection(b"GET /metrics HTTP/1.1\r\n\r\n", &metrics(), &gauges(), &info(), None);
    assert!(text(&prom.unwrap()).contains("power_monitor_sys_power_watts"));
    let lost = handle_connection(b"GET /x HTTP/1.1\r\n\r\n", &metrics(), &gauges(), &info(), None);
    assert!(text(&lost.unwrap()).starts_with("HTTP/1.1 404"));
    assert!(handle_connection(b"", &metrics(), &gauges(), &info(), None).is_none());
}

#[test]
fn answers_at_a_given_time() {
    let lost = b"GET /x HTTP/1.1\r\n\r\n";
    let answer = answer_at(lost, &metrics(), &gauges(), &info(), None, 86_400).unwrap();
    assert!(text(&answer).ends_with("{\"error\":\"not found\",\"timestamp\":\"1970-01-02T00:00:00Z\"}"));
    let json = b"GET /json?x=1 HTTP/1.1\r\n\r\n";
    let answer = answer_at(json, &metrics(), &gauges(), &info(), None, 0).unwrap();
    let mut body = String::new();
    write_metrics_json_at(&mut body, &metrics(), &info(), 0);
    assert_eq!(parse_response(&answer).ok(), Some(body));
    let mut snapshot = String::new();
    build_snapshot_at(&mut snapshot, &vec!["{}".to_string(), "{}".to_string()], 500, 59);
    assert_eq!(
        snapshot,
        "{\"generated_at\":\"1970-01-01T00:00:59Z\",\"poll_interval_ms\":500,\"history_len\":24,\"hosts\":[{},{}]}"
    );
    let answer = collect_cmd::answer_at(Route::Snapshot, "", &vec![], &vec![], 500, 59).unwrap();
    assert_eq!(
        parse_response(&answer).ok().as_deref(),
        Some("{\"generated_at\":\"1970-01-01T00:00:59Z\",\"poll_interval_ms\":500,\"history_len\":24,\"hosts\":[]}")
    );
}

#[test]
fn what_agents_show_is_read_back() {
    let mut plain = info();
    plain.chip = "Apple M5".to_string();
    let mut out = String::new();
    write_metrics_json_at(&mut out, &metrics(), &plain, 0);
    assert!(out.starts_with("{\"timestamp\":\"1970-01-01T00:00:00Z\",\"version\":\"1.0.0\""), "{out}");
    let s = parse_sample(&out);
    assert_eq!((s.chip.as_str(), s.hostname.as_str()), ("Apple M5", "mac01"));
    assert_eq!((s.sys_power.as_str(), s.cpu_power.as_str()), ("12.300", "3.100"));
    assert_eq!((s.pcpu_freq_mhz, s.ecpu_freq_mhz, s.gpu_freq_mhz), (2500, 1200, 700));
    assert_eq!((s.cpu_temp_c.as_str(), s.gpu_temp_c.as_str()), ("45.0", "null"));
    assert_eq!((s.memory_used_bytes, s.memory_total_bytes), (8, 16));
    assert_eq!((s.swap_used_bytes, s.swap_total_bytes), (1, 4));
    assert_eq!((s.fan_rpm, s.fan_max_rpm), (3000, 6000));
}

#[test]
fn names_are_escaped_in_json() {
    assert!(metrics_to_json(&metrics(), &info()).contains("\"chip\":\"Apple \\\"M5\\\"\""));
    let mut out = String::new();
    write_frame(&mut out, &metrics(), &info());
    assert!(out.ends_with("}\n"));
}

#[test]
fn host_names_are_shortened() {
    assert_eq!(short_hostname("mac01.local"), "mac01");
    assert_eq!(short_hostname("mac01.lan"), "mac01.lan");
    assert_eq!(hostname(Some(b"mac01.local\0junk")), "mac01");
    assert_eq!(hostname(Some(&[b'm', 0xff, b'c', 0])), "m\u{fffd}c");
    assert_eq!(hostname(None), "localhost");
}

#[test]
fn the_clock_gives_a_timestamp() {
    let t = utc_now();
    assert_eq!(t.len(), 20);
    assert!(t.as_str() > "2024-01-01T00:00:00Z" && t.ends_with('Z'));
}

// ── Gauges ───────────────────────────────────────────────────────────────────

#[test]
fn gauges_have_names_help_and_values() {
    assert_eq!(gauge_label(0), "sys_power_watts");
    for i in 0..GAUGES {
        assert!(!gauge_label(i).is_empty());
        assert!(!gauge_text(i).is_empty());
    }
    let numbers: ParsedSample<u32, Option<u32>> = sample();
    let m = parsed_to_metrics(&numbers, 0);
    assert!(matches!(gauge_value(&m, 0), Gauge::Measured(12)));
}

fn sample() -> ParsedSample<u32, Option<u32>> {
    ParsedSample {
        chip: "Apple M5".to_string(),
        hostname: "mac01".to_string(),
        sys_power: 12,
        cpu_power: 3,
        gpu_power: 1,
        ane_power: 0,
        dram_power: 0,
        ecpu_util: 0,
        pcpu_util: 0,
        gpu_util: 0,
        ecpu_freq_mhz: 1200,
        pcpu_freq_mhz: 2500,
        gpu_freq_mhz: 700,
        cpu_temp_c: Some(45),
        gpu_temp_c: None,
        fan_rpm: 7000,
        fan_max_rpm: 6000,
        memory_used_bytes: 8,
        memory_total_bytes: 16,
        swap_used_bytes: 1,
        swap_total_bytes: 0,
    }
}

#[test]
fn labels_are_escaped() {
    let mut out = String::new();
    write_prom_label(&mut out, "a\\b\"c\nd");
    assert_eq!(out, "a\\\\b\\\"c\\nd");
    let all = metrics_to_prometheus(&gauges(), "Apple \"M5\"", "mac01");
    assert!(all.contains(
        "power_monitor_sys_power_watts{chip=\"Apple \\\"M5\\\"\",host=\"mac01\"} 0\n"
    ));
    assert!(!all.contains(&format!("power_monitor_{}{{", gauge_label(3))));
}

#[test]
fn hosts_are_up_for_ten_seconds() {
    assert!(is_up(Some(0)) && is_up(Some(9)));
    assert!(!is_up(Some(10)) && !is_up(None));
}

// ── The collector ────────────────────────────────────────────────────────────

#[test]
fn collectors_route_requests() {
    let get = |path: &str| format!("GET {path} HTTP/1.1\r\n\r\n").into_bytes();
    assert_eq!(route_request(&get("/"), None), Route::Dashboard);
    assert_eq!(route_request(&get("/metrics"), None), Route::Metrics);
    assert_eq!(route_request(&get("/nope"), None), Route::NotFound);
    assert_eq!(route_request(&get("/metrics"), Some("t")), Route::Refuse);
    assert_eq!(route_request(b"", None), Route::Drop);
    let page = collect_cmd::handle_connection(Route::Dashboard, "<html>", &vec![], &vec![], 1000);
    assert!(text(&page.unwrap()).ends_with("<html>"));
    assert!(collect_cmd::handle_connection(Route::Drop, "", &vec![], &vec![], 1000).is_none());
    let refused = collect_cmd::handle_connection(Route::Refuse, "", &vec![], &vec![], 1000);
    assert!(text(&refused.unwrap()).starts_with("HTTP/1.1 401"));
}

#[test]
fn polling_resolves_again_after_a_failure() {
    let mut p = Polling::new();
    let mut steps = vec![p.step];
    for ok in [false, true, true, true, true, false, true, true] {
        p = p.next(ok);
        steps.push(p.step);
    }
    assert_eq!(
        steps,
        vec![
            PollStep::Resolve,
            PollStep::Sleep,
            PollStep::Resolve,
            PollStep::Fetch,
            PollStep::Sleep,
            PollStep::Fetch,
            PollStep::Sleep,
            PollStep::Resolve,
            PollStep::Fetch,
        ]
    );
    assert!(p.known);
}

#[test]
fn failed_polls_keep_what_was_shown() {
    let mut h: HostState<u32, u64> = HostState::new("mac01:9090".to_string());
    h.answered("{}".to_string(), sample(), 77);
    assert_eq!(h.last_ok_at, Some(77));
    assert_eq!(h.history.sys_power.back(), Some(&12));
    assert_eq!(h.history.fan_duty.back(), Some(&Some((6000, 6000))));
    h.failed("timeout".to_string());
    assert_eq!(h.last_err.as_deref(), Some("timeout"));
    assert_eq!(h.last_json, "{}");
    assert_eq!(h.last_ok_at, Some(77));
}

#[test]
fn fractions_are_of_something() {
    assert_eq!(fan_parts(&sample()), Some((6000, 6000)));
    assert_eq!(memory_parts(&sample()), Some((8, 16)));
    assert_eq!(power_monitor::fleet::swap_parts(&sample()), None);
}

#[test]
fn stream_events_are_framed() {
    let mut out = String::new();
    write_stream_event(&mut out, &vec!["{}".to_string()], 1000);
    assert!(out.starts_with("data: {\"generated_at\":"));
    assert!(out.ends_with("\"hosts\":[{}]}\n\n"));
}
