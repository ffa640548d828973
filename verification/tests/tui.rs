use power_monitor::tui::{
    bar, box_bottom, box_empty, box_row, box_rule, box_top, color_enabled, display_temp, fan_row,
    fmt_gb, frame, left_col, mem_row, now_str, palette, power_row, power_row_temp, temp_str, title,
    util_row, visual_len, whole_gb, Heat, Level, Palette, Rows, BAR_W, INNER,
};
use power_monitor::values::Value;

fn pal() -> Palette {
    palette(true, true)
}

fn heat_of(frac: f32) -> Heat {
    Heat::of_part(&Value::Float(frac.to_bits()))
}

fn level(val: f32, max: f32) -> Level {
    let frac = (val / max).clamp(0.0, 1.0);
    Level {
        filled: (frac * BAR_W as f32).round() as usize,
        heat: heat_of(frac),
        percent: format!("{:.0}", (val / max * 100.0).clamp(0.0, 100.0)),
    }
}

/// A temperature in words, absent where it is no number.
fn in_words(t: f32) -> Option<String> {
    if t.is_nan() {
        None
    } else {
        Some(format!("{t:.0}"))
    }
}

fn number(t: f32) -> Option<f32> {
    if t.is_nan() {
        None
    } else {
        Some(t)
    }
}

#[test]
fn display_temp_caches_through_nan() {
    let mut last: Option<f32> = number(f32::NAN);
    let (v, live) = display_temp(number(46.0), &mut last);
    assert!((v.unwrap() - 46.0).abs() < 1e-6);
    assert!(live);

    let (v, live) = display_temp(number(f32::NAN), &mut last);
    assert!((v.unwrap() - 46.0).abs() < 1e-6);
    assert!(!live);
}

#[test]
fn display_temp_first_nan_returns_nan() {
    let mut last: Option<f32> = number(f32::NAN);
    let (v, live) = display_temp(number(f32::NAN), &mut last);
    assert!(v.is_none());
    assert!(!live);
}

#[test]
fn temp_str_nan_renders_dashes() {
    assert!(temp_str(&pal(), in_words(f32::NAN).as_deref(), true, Heat::Low).contains("--°C"));
}

#[test]
fn rows_never_exceed_box_width() {
    let p = pal();
    for &t in &[46.0_f32, 100.0, 105.0, f32::NAN] {
        for &live in &[true, false] {
            let row = power_row_temp(
                &p,
                "GPU",
                &format!("{:.2}", 12.34),
                &level(12.34, 16.0),
                in_words(t).as_deref(),
                live,
                Heat::Low,
            );
            assert!(
                visual_len(&row) <= INNER,
                "temp row width {} > INNER {INNER} (temp={t}, live={live})",
                visual_len(&row),
            );
        }
    }
    assert!(visual_len(&power_row(&p, "SYS", "199.99", &level(199.99, 40.0))) <= INNER);
    assert!(visual_len(&util_row(&p, "PCPU", &level(1.0, 1.0), 9999)) <= INNER);
    assert!(
        visual_len(&mem_row(
            &p,
            "MEM",
            &level(99.0, 128.0),
            99 << 30,
            128 << 30
        )) <= INNER
    );
    assert!(visual_len(&fan_row(&p, &level(6550.0, 6550.0), 6550, 6550)) <= INNER);
}

#[test]
fn live_temperatures_have_a_color_and_old_ones_are_dim() {
    let p = pal();
    assert_eq!(temp_str(&p, Some("46"), true, Heat::Low), format!("{}46°C{}", p.green, p.reset));
    assert_eq!(temp_str(&p, Some("71"), true, Heat::Middle), format!("{}71°C{}", p.yellow, p.reset));
    assert_eq!(temp_str(&p, Some("90"), true, Heat::High), format!("{}90°C{}", p.red, p.reset));
    assert_eq!(temp_str(&p, Some("46"), false, Heat::High), format!("{}46°C{}", p.dim, p.reset));
}

#[test]
fn bars_are_of_one_width() {
    let p = palette(false, false);
    let text = bar(&p, &level(10.0, 40.0));
    assert_eq!(text, "██████░░░░░░░░░░░░░░░░░░");
    assert_eq!(text.chars().count(), BAR_W);
    assert_eq!(visual_len(&bar(&pal(), &level(0.0, 40.0))), BAR_W);
    assert_eq!(visual_len(&bar(&pal(), &level(99.0, 40.0))), BAR_W);
}

#[test]
fn left_column_is_padded() {
    assert_eq!(left_col(&palette(false, false), "CPU", "7"), "  CPU     7%  ");
    assert_eq!(left_col(&palette(false, false), "PCPU", "100"), "  PCPU  100%  ");
}

#[test]
fn rows_without_color() {
    let p = palette(false, false);
    assert_eq!(
        power_row(&p, "SYS", "12.34", &level(20.0, 40.0)),
        "  SYS    50%  ████████████░░░░░░░░░░░░  12.34 W"
    );
    assert_eq!(
        util_row(&p, "ECPU", &level(0.0, 1.0), 972),
        "  ECPU    0%  ░░░░░░░░░░░░░░░░░░░░░░░░   972 MHz"
    );
    assert_eq!(
        fan_row(&p, &level(0.5, 1.0), 3000, 6000),
        "  FAN    50%  ████████████░░░░░░░░░░░░  3000 RPM"
    );
    assert_eq!(
        mem_row(&p, "MEM", &level(1.0, 2.0), 8 << 30, 16 << 30),
        "  MEM    50%  ████████████░░░░░░░░░░░░   8.0 / 16.0 GB"
    );
}

#[test]
fn memory_is_told_in_tenths_of_a_gigabyte() {
    let mut n: u64 = 1;
    while n < 1 << 50 {
        for bytes in [n - 1, n, n + 1, n / 3, n * 5 / 7, n + n / 20] {
            let expected = format!("{:4.1}", bytes as f64 / (1u64 << 30) as f64);
            assert_eq!(fmt_gb(bytes), expected, "{bytes}");
        }
        n *= 2;
    }
    assert_eq!(fmt_gb(0), " 0.0");
    for twentieths in 0..200u64 {
        let bytes = (1u64 << 30) / 4 * twentieths;
        let expected = format!("{:4.1}", bytes as f64 / (1u64 << 30) as f64);
        assert_eq!(fmt_gb(bytes), expected, "{bytes}");
    }
}

#[test]
fn whole_gigabytes_are_rounded() {
    for bytes in [0, 1 << 29, (1 << 29) - 1, 16 << 30, (16 << 30) + (1 << 29), 5 << 28, 7 << 28] {
        assert_eq!(whole_gb(bytes), (bytes as f64 / (1u64 << 30) as f64).round() as u32, "{bytes}");
    }
    assert_eq!(whole_gb(u64::MAX), u32::MAX);
}

#[test]
fn a_machine_without_fans_says_so() {
    let p = palette(false, false);
    assert_eq!(
        fan_row(&p, &level(0.0, 1.0), 0, 0),
        "  FAN    —  ────────────────────────  fanless"
    );
}

#[test]
fn colors_take_no_width() {
    assert_eq!(visual_len("plain"), 5);
    assert_eq!(visual_len("\x1b[1;31mred\x1b[0m"), 3);
    assert_eq!(visual_len("°C █"), 4);
    assert_eq!(visual_len(""), 0);
}

#[test]
fn color_needs_a_terminal_that_wants_it() {
    assert!(color_enabled(true, false, None, Some("xterm")));
    assert!(color_enabled(true, false, Some(""), None));
    assert!(!color_enabled(false, false, None, None));
    assert!(!color_enabled(true, true, None, None));
    assert!(!color_enabled(true, false, Some("1"), None));
    assert!(!color_enabled(true, false, None, Some("dumb")));
}

#[test]
fn the_clock_is_padded() {
    assert_eq!(now_str(9, 5, 3, 0), "09:05 03-Jan");
    assert_eq!(now_str(23, 59, 31, 11), "23:59 31-Dec");
}

#[test]
fn the_box_is_of_one_width() {
    let p = pal();
    let name = title("1.0.0", "Apple M5", 4, 6, 10, 16);
    let rows = Rows {
        sys: power_row(&p, "SYS", "12.34", &level(20.0, 40.0)),
        fan: fan_row(&p, &level(0.5, 1.0), 3000, 6000),
        gpu: power_row_temp(&p, "GPU", "1.20", &level(1.2, 16.0), Some("44"), true, Heat::Low),
        cpu: power_row_temp(&p, "CPU", "3.10", &level(3.1, 20.0), None, false, Heat::Low),
        ..empty_rows()
    };
    let text = frame(&p, &name, &rows, "mac01", "1000 ms");
    assert_eq!(text.lines().count(), 18);
    for line in text.lines() {
        assert_eq!(visual_len(line), INNER + 2, "{line}");
    }
    let mut top = String::new();
    box_top(&mut top, &p, &name);
    assert!(text.contains(top.trim_end()));
    let mut rule = String::new();
    box_rule(&mut rule, &p, INNER);
    assert_eq!(visual_len(rule.trim_end_matches('\n')), INNER + 2);
    let mut blank = String::new();
    box_empty(&mut blank, &p, INNER);
    assert_eq!(visual_len(blank.trim_end_matches('\n')), INNER + 2);
    let mut row = String::new();
    box_row(&mut row, &p, &rows.sys, INNER);
    assert_eq!(visual_len(row.trim_end_matches('\n')), INNER + 2);
    let mut bottom = String::new();
    box_bottom(&mut bottom, &p, "mac01", "1000 ms");
    assert!(bottom.contains("mac01"));
}

fn empty_rows() -> Rows {
    let blank = || String::new();
    Rows {
        sys: blank(),
        fan: blank(),
        gpu: blank(),
        cpu: blank(),
        ane: blank(),
        dram: blank(),
        pcpu_util: blank(),
        ecpu_util: blank(),
        gpu_util: blank(),
        memory: blank(),
        swap: blank(),
    }
}

#[test]
fn heat_follows_the_thresholds() {
    let heat = |t: f32| Heat::of_temp(&Value::Float(t.to_bits()));
    assert_eq!(heat(-5.0), Heat::Low);
    assert_eq!(heat(69.9), Heat::Low);
    assert_eq!(heat(70.0), Heat::Middle);
    assert_eq!(heat(84.9), Heat::Middle);
    assert_eq!(heat(85.0), Heat::High);
    for part in [0.0f32, 0.39999998, 0.4, 0.5, 0.74999994, 0.75, 1.0, f32::NAN] {
        let expected = if part < 0.40 {
            Heat::Low
        } else if part < 0.75 {
            Heat::Middle
        } else {
            Heat::High
        };
        assert_eq!(Heat::of_part(&Value::Float(part.to_bits())), expected, "{part}");
    }
}
