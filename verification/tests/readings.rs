use power_monitor::readings::{portion, BatteryReading, FanState, Portion, TimeToFull};
use power_monitor::sampler::{plausible, Fan};
use power_monitor::values::{max_present, Value};

fn val(x: f32) -> Value {
    Value::Float(x.to_bits())
}

fn num(v: Value) -> f32 {
    match v {
        Value::Float(bits) => f32::from_bits(bits),
        Value::Fixed { mantissa, fraction } => mantissa as f32 / 2f32.powi(fraction as i32),
    }
}

fn fraction(p: Portion) -> f32 {
    match p {
        Portion::Nothing => 0.0,
        Portion::Part { part, whole } => num(part) / num(whole),
        Portion::Whole => 1.0,
    }
}

/// A battery by its current, its remaining and its full charge.
fn battery(current: f32, remaining: f32, full: f32) -> BatteryReading<Value> {
    BatteryReading {
        voltage_mv: val(0.0),
        current_ma: val(current),
        power_mw: val(0.0),
        remaining_mah: val(remaining),
        full_charge_mah: val(full),
    }
}

/// A fan by its speed and its greatest.
fn fan(rpm: f32, max_rpm: f32) -> FanState<Value> {
    FanState { rpm: val(rpm), target_rpm: val(0.0), min_rpm: val(0.0), max_rpm: val(max_rpm) }
}

fn hours_to_full(t: TimeToFull) -> f32 {
    match t {
        TimeToFull::Zero => 0.0,
        TimeToFull::Filling { full, remaining, current } => {
            (num(full) - num(remaining)) / -num(current)
        }
    }
}

#[test]
fn battery_not_present_when_zero_capacity() {
    let b = battery(0.0, 0.0, 0.0);
    assert!(!b.is_present());
    assert_eq!(fraction(b.state_of_charge()) * 100.0, 0.0);
    assert_eq!(b.state_of_charge(), Portion::Nothing);
    assert!(!b.is_charging());
}

#[test]
fn battery_present_when_capacity_nonzero() {
    let b = battery(0.0, 2500.0, 5000.0);
    assert!(b.is_present());
    assert!((fraction(b.state_of_charge()) * 100.0 - 50.0).abs() < 0.01);
}

#[test]
fn battery_charging_when_current_negative() {
    let b = battery(-500.0, 0.0, 5000.0);
    assert!(b.is_charging());
}

#[test]
fn battery_time_to_empty_only_when_discharging() {
    let discharging = battery(500.0, 1000.0, 5000.0);
    let (charge, current) = discharging.time_to_empty_hours().unwrap();
    assert!((num(charge) / num(current) - 2.0).abs() < 1e-6);

    let charging = battery(-500.0, 1000.0, 5000.0);
    assert!(charging.time_to_empty_hours().is_none());

    let absent = battery(0.0, 0.0, 0.0);
    assert!(absent.time_to_empty_hours().is_none());
}

#[test]
fn battery_time_to_full_only_when_charging() {
    let charging = battery(-500.0, 1000.0, 5000.0);
    assert!((hours_to_full(charging.time_to_full_hours().unwrap()) - 8.0).abs() < 1e-6);

    let discharging = battery(500.0, 1000.0, 5000.0);
    assert!(discharging.time_to_full_hours().is_none());
}

#[test]
fn battery_soc_clamped_to_100() {
    let b = battery(0.0, 200.0, 100.0);
    assert_eq!(fraction(b.state_of_charge()) * 100.0, 100.0);
    assert_eq!(b.state_of_charge(), Portion::Whole);
}

#[test]
fn a_full_battery_needs_no_time() {
    assert_eq!(battery(-1.0, 100.0, 100.0).time_to_full_hours(), Some(TimeToFull::Zero));
    assert_eq!(battery(-1.0, 101.0, 100.0).time_to_full_hours(), Some(TimeToFull::Zero));
    assert_eq!(battery(0.0, 50.0, 100.0).time_to_full_hours(), None);
    assert_eq!(battery(0.0, 50.0, 100.0).time_to_empty_hours(), None);
    assert_eq!(battery(-1.0, 50.0, 0.0).time_to_full_hours(), None);
}

#[test]
fn fan_duty_cycle_proportional() {
    let f = fan(3000.0, 6000.0);
    assert!((fraction(f.duty_cycle()) - 0.5).abs() < 1e-6);
}

#[test]
fn fan_duty_cycle_zero_when_max_zero() {
    let f = fan(0.0, 0.0);
    assert_eq!(fraction(f.duty_cycle()), 0.0);
    assert_eq!(fan(1000.0, 0.0).duty_cycle(), Portion::Nothing);
}

#[test]
fn max_present_all_none_is_nan() {
    let v: Vec<Option<Value>> = vec![None, None, None];
    assert!(max_present(&v).map_or(f32::NAN, num).is_nan());
}

#[test]
fn max_present_picks_max_of_some() {
    let v = vec![Some(val(10.0)), None, Some(val(42.5)), Some(val(-4.5))];
    assert!((max_present(&v).map_or(f32::NAN, num) - 42.5).abs() < 1e-6);
}

#[test]
fn max_present_single_some_passes_through() {
    let v = vec![None, Some(val(-4.5)), None];
    assert!((max_present(&v).map_or(f32::NAN, num) - (-4.5)).abs() < 1e-6);
}

#[test]
fn the_greatest_passes_over_what_is_no_number() {
    let v = vec![Some(val(f32::NAN)), Some(val(3.0)), Some(val(f32::NAN))];
    assert_eq!(max_present(&v), Some(val(3.0)));
    assert_eq!(max_present(&vec![Some(val(f32::NAN))]), None);
}

#[test]
fn values_are_ordered_as_numbers() {
    let xs = [
        f32::NEG_INFINITY,
        f32::MIN,
        -1.5,
        -f32::MIN_POSITIVE,
        -1e-45,
        -0.0,
        0.0,
        1e-45,
        f32::MIN_POSITIVE,
        0.1,
        1.0,
        1.5,
        255.0,
        3e9,
        f32::MAX,
        f32::INFINITY,
        f32::NAN,
    ];
    for x in xs {
        for y in xs {
            assert_eq!(val(x).is_at_most(&val(y)), x <= y, "{x} {y}");
        }
        assert_eq!(val(x).is_positive(), x > 0.0, "{x}");
        assert_eq!(val(x).is_negative(), x < 0.0, "{x}");
        assert_eq!(val(x).is_number(), !x.is_nan(), "{x}");
    }
}

#[test]
fn layouts_are_ordered_together() {
    let half = Value::Fixed { mantissa: 128, fraction: 8 };
    assert!(half.is_at_most(&val(0.5)) && val(0.5).is_at_most(&half));
    assert!(half.is_at_most(&val(0.50001)) && !val(0.50001).is_at_most(&half));
    assert!(!half.is_at_most(&val(0.49999)) && val(0.49999).is_at_most(&half));
    let least = Value::Fixed { mantissa: i64::MIN, fraction: 0 };
    let most = Value::Fixed { mantissa: i64::MAX, fraction: 0 };
    let fine = Value::Fixed { mantissa: 1, fraction: 255 };
    assert!(least.is_at_most(&fine) && fine.is_at_most(&most));
    assert!(!most.is_at_most(&fine) && !fine.is_at_most(&least));
    assert!(most.is_at_most(&val(9.3e18)) && val(f32::NEG_INFINITY).is_at_most(&least));
    assert!(fine.is_at_most(&val(1e-45)) && fine.is_positive());
}

#[test]
fn portions_are_cut() {
    assert_eq!(portion(val(-1.0), val(2.0)), Portion::Nothing);
    assert_eq!(portion(val(1.0), val(-2.0)), Portion::Nothing);
    assert_eq!(portion(val(1.0), val(f32::NAN)), Portion::Nothing);
    assert_eq!(
        portion(val(1.0), val(2.0)),
        Portion::Part { part: val(1.0), whole: val(2.0) }
    );
    assert_eq!(portion(val(f32::INFINITY), val(2.0)), Portion::Whole);
    assert!(matches!(portion(val(f32::INFINITY), val(f32::INFINITY)), Portion::Part { .. }));
    assert!(matches!(portion(val(f32::NAN), val(2.0)), Portion::Part { .. }));
}

#[test]
fn freezing_is_not_plausible() {
    assert_eq!(plausible(Some(val(42.5))), Some(val(42.5)));
    assert_eq!(plausible(Some(val(0.0))), None);
    assert_eq!(plausible(Some(val(-4.5))), None);
    assert_eq!(plausible(Some(val(f32::NAN))), None);
    assert_eq!(plausible(None), None);
}

#[test]
fn fans_without_a_greatest_speed_are_not_shown() {
    assert_eq!(Fan::of(&fan(1999.9, 6000.0)), Some(Fan { rpm: 1999, max_rpm: 6000 }));
    assert_eq!(Fan::of(&fan(2000.0, 0.0)), None);
    assert_eq!(Fan::of(&fan(-1.0, 0.5)), Some(Fan { rpm: 0, max_rpm: 0 }));
}
