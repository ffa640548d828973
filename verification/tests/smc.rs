use power_monitor::fans::{FanControl, FanReply, FanWrite};
use power_monitor::readings::FanState;
use power_monitor::smc::{
    code_of, four_bytes, four_cc, index_request, info_request, probe_keys, read_request,
    resolve_key, write_request, Access, Ask, Decoder, KeyInfo, Smc, SmcError, SmcWriteError, Value,
    KEY_COUNT, K_F0MX, K_F1MX, K_FNUM, PROBES,
};

#[test]
fn smc_error_display() {
    assert_eq!(SmcError::ServiceNotFound.message(), "AppleSMC service not found");
    assert!(SmcError::OpenFailed(-536870212).message().contains("-536870212"));
}

#[test]
fn smc_error_is_copy() {
    let e = SmcError::ServiceNotFound;
    let _e2 = e;
    let _e3 = e;
}

#[test]
fn smc_errors_in_words() {
    assert_eq!(
        SmcError::OpenFailed(-536870212).message(),
        "IOServiceOpen failed: kern_return_t -536870212"
    );
    assert_eq!(SmcError::OpenFailed(5).message(), "IOServiceOpen failed: kern_return_t 5");
    assert_eq!(SmcWriteError::KeyNotFound.message(), "SMC key not found on this hardware");
    assert_eq!(
        SmcWriteError::IoError(i32::MIN).message(),
        "SMC write failed: kern_return_t -2147483648"
    );
}

#[test]
fn codes_are_big_endian() {
    assert_eq!(four_cc(b"PSTR"), 0x50535452);
    assert_eq!(four_bytes(0x50535452), *b"PSTR");
    assert_eq!(code_of("PSTR"), 0x50535452);
    assert_eq!(code_of("PST"), 0);
    assert_eq!(code_of("PSTé"), 0);
    assert_eq!(four_bytes(four_cc(b"flt ")), *b"flt ");
}

fn with_bytes(first: &[u8]) -> [u8; 32] {
    let mut b = [0xaa; 32];
    b[..first.len()].copy_from_slice(first);
    b
}

fn fixed(mantissa: i64, fraction: u8) -> Value {
    Value::Fixed { mantissa, fraction }
}

#[test]
fn values_are_decoded_by_their_type() {
    let cases: Vec<(&str, &[u8], Value)> = vec![
        ("flt ", &[0x00, 0x00, 0xc0, 0x3f], Value::Float(1.5f32.to_bits())),
        ("sp78", &[0x80, 0x2d], fixed(0x2d80, 8)),
        ("sp78", &[0x00, 0xff], fixed(-256, 8)),
        ("ioft", &[0x00, 0x80, 0x01, 0x00], fixed(0x18000, 16)),
        ("ui8 ", &[7], fixed(7, 0)),
        ("ui16", &[0x01, 0x02], fixed(0x0102, 0)),
        ("si16", &[0xff, 0xfe], fixed(-2, 0)),
        ("ui32", &[0x00, 0x00, 0x01, 0x02], fixed(0x0102, 0)),
    ];
    for (name, bytes, value) in cases {
        let decoder = Decoder::of_type(code_of(name)).unwrap();
        assert_eq!(decoder.decode(&with_bytes(bytes)), value, "{name}");
        let mut back = [0xaa; 32];
        decoder.encode(value, &mut back);
        assert_eq!(back, with_bytes(bytes), "{name}");
    }
    assert_eq!(Decoder::of_type(code_of("hex_")), None);
}

#[test]
fn whole_parts_agree_with_casts() {
    let floats = [
        0.0f32, -0.0, 0.5, 0.99999994, 1.0, 1.5, 2.0, 2.75, 1234.56, 16777215.0, 16777216.0,
        4294967040.0, 4294967296.0, 1e20, -1.0, -1e20, f32::INFINITY, f32::NEG_INFINITY, f32::NAN,
        f32::MIN_POSITIVE, 1e-42, f32::MAX,
    ];
    for f in floats {
        let v = Value::Float(f.to_bits());
        assert_eq!(v.whole(), f as u32, "{f}");
        assert_eq!(v.is_finite(), f.is_finite(), "{f}");
    }
    assert_eq!(fixed(-5, 0).whole(), 0);
    assert_eq!(fixed(0x2d80, 8).whole(), 45);
    assert_eq!(fixed(i64::MAX, 0).whole(), u32::MAX);
    assert_eq!(fixed(i64::MAX, 200).whole(), 0);
    assert!(fixed(3, 0).is_finite());
}

fn info(name: &str) -> Option<KeyInfo> {
    Some(KeyInfo { data_size: 4, data_type: code_of(name), attributes: 0x80 })
}

#[test]
fn only_keys_that_can_be_read_are_resolved() {
    let rk = resolve_key(7, info("flt ")).unwrap();
    assert_eq!((rk.key, rk.data_size, rk.data_type), (7, 4, code_of("flt ")));
    assert_eq!(rk.decoder, Decoder::Flt);
    assert_eq!(resolve_key(7, None), None);
    assert_eq!(resolve_key(7, info("ch8*")), None);
    assert_eq!(
        resolve_key(7, Some(KeyInfo { data_size: 0, data_type: code_of("flt "), attributes: 0 })),
        None
    );
}

#[test]
fn requests_name_what_they_ask() {
    let r = info_request(9);
    assert_eq!((r.ask, r.key, r.index, r.data_size), (Ask::KeyInfo, 9, 0, 0));
    let r = index_request(12);
    assert_eq!((r.ask, r.key, r.index), (Ask::KeyFromIndex, 0, 12));
    let rk = resolve_key(7, info("ui16")).unwrap();
    let r = read_request(&rk);
    assert_eq!((r.ask, r.key, r.data_size, r.data_type), (Ask::ReadBytes, 7, 4, 0));
    assert_eq!(r.bytes, [0; 32]);
    let r = write_request(&rk, fixed(0x0102, 0));
    assert_eq!((r.ask, r.key, r.data_size, r.data_type), (Ask::WriteBytes, 7, 4, code_of("ui16")));
    assert_eq!(&r.bytes[..3], &[1, 2, 0]);
    let commands = [Ask::ReadBytes, Ask::WriteBytes, Ask::KeyFromIndex, Ask::KeyInfo];
    assert_eq!(commands.map(|a| a.command()), [5, 6, 8, 9]);
}

fn opened(present: &[&str]) -> Smc {
    let names: Vec<u32> = present.iter().map(|n| code_of(n)).collect();
    let infos: Vec<Option<KeyInfo>> = probe_keys()
        .iter()
        .map(|k| if names.contains(k) { info("flt ") } else { None })
        .collect();
    match Smc::open(true, 0, &infos) {
        Ok(smc) => smc,
        Err(e) => panic!("{}", e.message()),
    }
}

#[test]
fn opening_finds_the_present_keys() {
    let smc = opened(&["PSTR", "FNum", "Tp01", "Tp0f", "Tg0b"]);
    assert_eq!(probe_keys().len(), PROBES);
    assert_eq!(smc.read(0).unwrap().key, code_of("PSTR"));
    assert_eq!(smc.read(1), None);
    assert_eq!(smc.read(K_FNUM).unwrap().key, code_of("FNum"));
    assert_eq!(smc.read(KEY_COUNT - 1), None);
    let cpu: Vec<u32> = smc.cpu_temp_keys().iter().map(|k| k.key).collect();
    assert_eq!(cpu, vec![code_of("Tp01"), code_of("Tp0f")]);
    let gpu: Vec<u32> = smc.gpu_temp_keys().iter().map(|k| k.key).collect();
    assert_eq!(gpu, vec![code_of("Tg0b")]);
    assert_eq!(smc.read_per_core_cpu_temps(&vec![Some(41.5), None], 0.0), vec![41.5, 0.0]);
}

#[test]
fn opening_fails_without_a_service() {
    assert!(matches!(Smc::open(false, 0, &vec![]), Err(SmcError::ServiceNotFound)));
    assert!(matches!(Smc::open(false, 3, &vec![]), Err(SmcError::ServiceNotFound)));
    assert!(matches!(Smc::open(true, 3, &vec![]), Err(SmcError::OpenFailed(3))));
}

#[test]
fn a_key_is_asked_for_once() {
    let mut smc = opened(&[]);
    let code = four_cc(b"Tp0a");
    assert_eq!(smc.access(b"Tp0a"), Access::Resolve(code));
    let first = smc.resolved(code, info("flt "));
    assert!(matches!(first, Access::Proceed(_)));
    assert_eq!(smc.access(b"Tp0a"), first);

    let absent = four_cc(b"XXXX");
    assert_eq!(smc.access(b"XXXX"), Access::Resolve(absent));
    assert_eq!(smc.resolved(absent, None), Access::Absent);
    assert_eq!(smc.access(b"XXXX"), Access::Absent);
}

#[test]
fn reading_and_writing_a_key() {
    let rk = resolve_key(1, info("ui8 ")).unwrap();
    let there = Access::Proceed(rk);
    assert_eq!(Smc::read_f32(&there, Some(with_bytes(&[3]))), Some(fixed(3, 0)));
    assert_eq!(Smc::read_f32(&there, None), None);
    assert_eq!(Smc::read_f32(&Access::Absent, Some([0; 32])), None);
    assert_eq!(Smc::write_f32(&there, 0), Ok(()));
    assert_eq!(Smc::write_f32(&there, -1), Err(SmcWriteError::IoError(-1)));
    assert_eq!(Smc::write_f32(&Access::Absent, 0), Err(SmcWriteError::KeyNotFound));
}

#[test]
fn listing_the_keys() {
    assert_eq!(Smc::key_count(Some(fixed(1500, 0))), 1500);
    assert_eq!(Smc::key_count(None), 0);
    assert_eq!(Smc::key_at_index(Some(code_of("PSTR"))), Some(*b"PSTR"));
    assert_eq!(Smc::key_at_index(Some(0)), None);
    assert_eq!(Smc::key_at_index(None), None);
    assert_eq!(
        Smc::all_keys(&vec![Some(code_of("#KEY")), None, Some(0), Some(code_of("PSTR"))]),
        vec![*b"#KEY", *b"PSTR"]
    );
    assert_eq!(Smc::key_info(info("flt ")), Some((4, *b"flt ", 0x80)));
    assert_eq!(Smc::key_info(None), None);
}

#[test]
fn fans_are_counted() {
    let counts: Vec<u8> = [0.0f32, 1.0, 2.0, 9.0, -3.0, 1.9, f32::NAN, f32::INFINITY]
        .iter()
        .map(|f| Smc::fan_count(Some(Value::Float(f.to_bits()))))
        .collect();
    assert_eq!(counts, vec![0, 1, 2, 2, 0, 1, 0, 0]);
    assert_eq!(Smc::fan_count(Some(fixed(2, 0))), 2);
    assert_eq!(Smc::fan_count(None), 0);
    assert_eq!(Smc::fan_max_rpm(0), Some(K_F0MX));
    assert_eq!(Smc::fan_max_rpm(1), Some(K_F1MX));
    assert_eq!(Smc::fan_max_rpm(2), None);
}

#[test]
fn readings_come_from_their_places() {
    let v: Vec<usize> = (0..KEY_COUNT).collect();
    let s = Smc::snapshot(&v, 1);
    assert_eq!((s.power.system, s.power.bus), (0, 8));
    assert_eq!((s.thermal.cpu_efficiency, s.thermal.memory), (9, 19));
    assert_eq!(s.fans.count, 1);
    assert_eq!(
        s.fans.fans[0],
        Some(FanState { rpm: 21, target_rpm: 22, min_rpm: 23, max_rpm: 24 })
    );
    assert_eq!(s.fans.fans[1], None);
    assert_eq!((s.voltage.rail_12v, s.voltage.gpu_core), (29, 32));
    assert_eq!((s.current.dc_rail, s.current.gpu_core), (33, 35));
    assert_eq!((s.battery.voltage_mv, s.battery.full_charge_mah), (36, 40));
    assert_eq!(Smc::read_fans(&v, 2).fans[1].unwrap().max_rpm, 28);
}

/// Runs fan control on these replies and lists the keys that are written.
fn written(mut step: FanControl, replies: &[FanReply]) -> (Vec<(String, FanWrite)>, FanControl) {
    let mut log = Vec::new();
    for r in replies {
        if let Some((key, what)) = step.write() {
            log.push((String::from_utf8(key.to_vec()).unwrap(), what));
        }
        step = step.next(*r);
    }
    (log, step)
}

fn log(entries: &[(&str, FanWrite)]) -> Vec<(String, FanWrite)> {
    entries.iter().map(|(k, w)| (k.to_string(), *w)).collect()
}

#[test]
fn fans_are_forced_one_after_the_other() {
    let ok = FanReply::Written;
    let (keys, end) = written(Smc::set_fans_max(), &[FanReply::Fans(2), ok, ok, ok, ok]);
    assert_eq!(
        keys,
        log(&[
            ("F0md", FanWrite::On),
            ("F0Tg", FanWrite::Greatest),
            ("F1md", FanWrite::On),
            ("F1Tg", FanWrite::Greatest)
        ])
    );
    assert_eq!(end, FanControl::Finished { error: None });
    let (keys, end) = written(Smc::set_fans_max(), &[FanReply::Fans(0)]);
    assert_eq!(keys, vec![]);
    assert_eq!(end, FanControl::Finished { error: None });
}

#[test]
fn a_failed_force_releases_the_fans() {
    let ok = FanReply::Written;
    let e = SmcWriteError::IoError(7);
    let (keys, end) = written(
        Smc::set_fans_max(),
        &[FanReply::Fans(2), ok, ok, ok, FanReply::Failed(e), FanReply::Fans(2), ok, ok],
    );
    assert_eq!(
        &keys[4..],
        &log(&[("F0md", FanWrite::Off), ("F1md", FanWrite::Off)])[..]
    );
    assert_eq!(end, FanControl::Finished { error: Some(e) });
    let (_, end) = written(
        Smc::set_fans_max(),
        &[
            FanReply::Fans(1),
            FanReply::Failed(e),
            FanReply::Fans(1),
            FanReply::Failed(SmcWriteError::KeyNotFound),
        ],
    );
    assert_eq!(end, FanControl::Finished { error: Some(e) });
}

#[test]
fn a_failed_release_ends_the_work() {
    let e = SmcWriteError::KeyNotFound;
    let (keys, end) = written(Smc::set_fans_auto(), &[FanReply::Fans(2), FanReply::Failed(e)]);
    assert_eq!(keys, log(&[("F0md", FanWrite::Off)]));
    assert_eq!(end, FanControl::Finished { error: Some(e) });
    let (keys, end) =
        written(Smc::set_fans_auto(), &[FanReply::Fans(2), FanReply::Written, FanReply::Written]);
    assert_eq!(keys, log(&[("F0md", FanWrite::Off), ("F1md", FanWrite::Off)]));
    assert_eq!(end, FanControl::Finished { error: None });
}
