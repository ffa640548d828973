use power_monitor::event::SamplerEvent;
use power_monitor::ioreport::{
    build_sample, parse_delta, raw_channels, refresh_scratch, ChannelData, ChannelGroup,
    ChannelKind, ChannelSample, Component, Delta, EnergyUnit, MultiGroupSampler, RawData,
    StateData, StateResidency, StepResult, Subscribing,
};
use power_monitor::memory::SwapInfo;
use power_monitor::sampler::{
    classify_channel, pick_fan, process_sub_sample, ticks_fit, unit_index, Accum, Averages, Fan,
    Ratio, RouteTag, Sampler, WindowStep, MIN_SUB_MS, N_SAMPLES,
};
use power_monitor::soc::{PerfLevel, SocInfo};

fn energy(name: &str, unit: &str, value: i64) -> ChannelData {
    ChannelData {
        group: b"Energy Model".to_vec(),
        name: name.as_bytes().to_vec(),
        unit: unit.as_bytes().to_vec(),
        value,
        states: vec![],
    }
}

fn states(group: &str, name: &str, ticks: &[(&str, u64)]) -> ChannelData {
    ChannelData {
        group: group.as_bytes().to_vec(),
        name: name.as_bytes().to_vec(),
        unit: vec![],
        value: 0,
        states: ticks
            .iter()
            .map(|(n, t)| StateData { name: n.as_bytes().to_vec(), ticks: *t })
            .collect(),
    }
}

fn delta() -> Vec<Option<ChannelData>> {
    vec![
        Some(energy("GPU", "nJ", 5_000_000)),
        Some(energy("CPU Energy", "mJ", 30)),
        Some(states("CPU Stats", "PCPU", &[("IDLE", 50), ("V0", 50)])),
        Some(states("CPU Stats", "ECPU", &[("IDLE", 75), ("V0", 25)])),
        Some(states("GPU Stats", "GPUPH", &[("OFF", 90), ("P1", 10)])),
    ]
}

fn soc() -> SocInfo {
    let level = |name: &str, cores: u32, mhz: u32| PerfLevel {
        name: name.to_string(),
        cores,
        freqs_mhz: vec![mhz],
    };
    SocInfo {
        chip_name: "Apple M5".to_string(),
        perf_levels: vec![level("Performance", 4, 3000), level("Efficiency", 6, 1000)],
        gpu_cores: 10,
        gpu_freqs_mhz: vec![400],
    }
}

#[test]
fn channels_are_built_from_what_the_system_reports() {
    let c = build_sample(&energy("CPU Energy", "uJ", -3));
    assert_eq!((c.group, c.channel.as_str(), c.unit), (ChannelGroup::EnergyModel, "CPU Energy", EnergyUnit::MicroJoule));
    assert!(matches!(c.kind, ChannelKind::Energy(-3)));
    let c = build_sample(&states("CPU Stats", "PCPU", &[("IDLE", 7)]));
    match c.kind {
        ChannelKind::States(s) => assert_eq!((s[0].name.as_str(), s[0].ticks), ("IDLE", 7)),
        _ => panic!("no states"),
    }
}

#[test]
fn a_schema_is_built_once_and_refreshed_after() {
    let mut scratch: Vec<ChannelSample> = vec![];
    assert_eq!(
        refresh_scratch(&mut scratch, &delta()),
        Some(SamplerEvent::SchemaChanged { previous: 0, current: 5 })
    );
    let mut later = delta();
    later[1] = Some(energy("CPU Energy", "mJ", 77));
    assert_eq!(refresh_scratch(&mut scratch, &later), None);
    assert!(matches!(scratch[1].kind, ChannelKind::Energy(77)));
    later.pop();
    assert_eq!(
        refresh_scratch(&mut scratch, &later),
        Some(SamplerEvent::SchemaChanged { previous: 5, current: 4 })
    );
}

#[test]
fn missing_differences_are_told() {
    let mut m = MultiGroupSampler::new();
    assert_eq!(m.sample(&Delta::Missing), Some(SamplerEvent::NullDelta));
    assert_eq!(m.sample(&Delta::Unlisted), None);
    assert!(m.channels().is_empty());
    assert!(m.sample(&Delta::Channels(delta())).is_some());
    assert_eq!(m.channels().len(), 5);
    assert_eq!(m.sample(&Delta::Missing), Some(SamplerEvent::NullDelta));
    assert_eq!(m.channels().len(), 5);
}

#[test]
fn subscribing_takes_its_steps() {
    let mut step = Subscribing::CopyEnergy;
    let mut groups = vec![];
    while step != Subscribing::Opened {
        if let Some((group, _)) = step.channel_group() {
            groups.push(group);
        }
        let result = if step == Subscribing::MergeGpu { StepResult::Nothing } else { StepResult::Done };
        step = step.next(result, true);
    }
    assert_eq!(groups, vec!["Energy Model", "CPU Stats", "GPU Stats"]);
    assert_eq!(Subscribing::CopyEnergy.next(StepResult::Nothing, true), Subscribing::Failed);
    assert_eq!(Subscribing::CopyEnergy.next(StepResult::Done, false), Subscribing::CopyMerged);
    assert_eq!(Subscribing::MergeCpu.next(StepResult::NoName, true), Subscribing::Failed);
    assert_eq!(Subscribing::FirstSample.next(StepResult::Nothing, true), Subscribing::Release);
}

#[test]
fn energy_goes_to_its_component() {
    let data = vec![Some(energy("GPU", "nJ", 5)), None, Some(energy("other", "mJ", 6)), Some(energy("DRAM", "mJ", 7))];
    let counts = parse_delta(&data);
    assert_eq!(counts.len(), 2);
    assert_eq!((counts[0].component, counts[0].raw, counts[0].unit), (Component::Gpu, 5, EnergyUnit::NanoJoule));
    assert_eq!((counts[1].component, counts[1].raw), (Component::Dram, 7));
    assert_eq!(Component::from_bytes(b"ANE"), Some(Component::Ane));
    assert_eq!(Component::from_bytes(b"ane"), None);
}

#[test]
fn raw_channels_are_listed() {
    let data = vec![None, Some(RawData { name: b"PCPU".to_vec(), fmt: 2, raw: 9 })];
    let all = raw_channels(&data);
    assert_eq!(all.len(), 1);
    assert_eq!((all[0].name.as_str(), all[0].fmt, all[0].raw), ("PCPU", 2, 9));
}

#[test]
fn units_have_their_places() {
    assert_eq!(unit_index(EnergyUnit::MilliJoule), 0);
    assert_eq!(unit_index(EnergyUnit::MicroJoule), 1);
    assert_eq!(unit_index(EnergyUnit::NanoJoule), 2);
    for u in [EnergyUnit::MilliJoule, EnergyUnit::MicroJoule, EnergyUnit::NanoJoule] {
        assert_eq!(EnergyUnit::parse(u.label().as_bytes()), Some(u));
    }
}

#[test]
fn channels_are_routed() {
    let tags: Vec<RouteTag> =
        delta().iter().map(|d| classify_channel(&build_sample(d.as_ref().unwrap()))).collect();
    assert_eq!(
        tags,
        vec![
            RouteTag::EnergyGpu,
            RouteTag::EnergyCpu,
            RouteTag::ClusterP,
            RouteTag::ClusterEorM,
            RouteTag::GpuStates
        ]
    );
    let route = |name: &str| classify_channel(&build_sample(&energy(name, "mJ", 1)));
    assert_eq!(route("GPU Energy"), RouteTag::Skip);
    assert_eq!(route("ANE0"), RouteTag::EnergyAne);
    assert_eq!(route("DRAM"), RouteTag::EnergyDram);
    assert_eq!(route("DIE_0_CPU Energy"), RouteTag::EnergyCpu);
}

fn residency(list: &Vec<StateResidency>) -> Vec<u64> {
    list.iter().map(|s| s.ticks).collect()
}

#[test]
fn sub_samples_sum_up_the_channels() {
    let channels: Vec<ChannelSample> =
        delta().iter().map(|d| build_sample(d.as_ref().unwrap())).collect();
    let routing: Vec<RouteTag> = channels.iter().map(classify_channel).collect();
    assert!(ticks_fit(&channels));
    let (mut e, mut p, mut g) = (vec![], vec![], vec![]);
    let s = process_sub_sample(
        &channels, &routing, true, &mut e, &mut p, &mut g, &vec![1000], &vec![3000], &vec![400],
    );
    assert_eq!(residency(&e), vec![75, 25]);
    assert_eq!(residency(&p), vec![50, 50]);
    assert_eq!(residency(&g), vec![90, 10]);
    let (mhz, util) = s.pcpu.unwrap();
    assert_eq!((mhz, util.part, util.whole), (3000, 50, 100));
    let (mhz, util) = s.ecpu.unwrap();
    assert_eq!((mhz, util.part, util.whole), (1000, 25, 100));
    assert_eq!(s.energy.len(), 2);
    assert_eq!((s.energy[0].tag, s.energy[0].raw, s.energy[0].unit), (RouteTag::EnergyGpu, 5_000_000, EnergyUnit::NanoJoule));
    let still = process_sub_sample(
        &channels, &routing, false, &mut e, &mut p, &mut g, &vec![1000], &vec![3000], &vec![400],
    );
    assert!(still.energy.is_empty() && still.pcpu.is_none());
    assert_eq!(residency(&e), vec![0, 0]);
}

#[test]
fn ticks_that_do_not_fit_are_seen() {
    let big = build_sample(&states("CPU Stats", "PCPU", &[("IDLE", u64::MAX), ("V0", 1)]));
    assert!(!ticks_fit(&vec![big]));
}

#[test]
fn a_window_from_end_to_end() {
    let mut s = Sampler::with_samples_per_window(2, Some(MultiGroupSampler::new()), true, soc()).unwrap();
    assert_eq!(s.samples_per_window(), 2);
    assert_eq!(s.soc().chip_name, "Apple M5");
    assert_eq!(s.sub_window_ms(1000, 0), 500);
    assert_eq!(s.sub_window_ms(1001, 0), 501);
    assert_eq!(s.sub_window_ms(1001, 1), 500);
    assert_eq!(s.sub_window_ms(10, 0), MIN_SUB_MS);
    let mut acc = Accum::new();
    while s.get_metrics(1000, acc.taken) == WindowStep::Dwell(500) {
        s.refresh(&Delta::Channels(delta()));
        assert!(s.can_sum());
        acc.add(&s.sub_sample(true));
    }
    assert_eq!(s.get_metrics(1000, acc.taken), WindowStep::Finish);
    assert_eq!(acc.taken, 2);
    let averages = Averages {
        ecpu_util: 0.25,
        pcpu_util: 0.5,
        gpu_util: 0.1,
        cpu_power: 1.0,
        gpu_power: 2.0,
        ane_power: 3.0,
        dram_power: 4.0,
        all_power: 6.0,
        sys_power: 9.0,
        cpu_temp: None,
        gpu_temp: Some(44.0),
        interval_ms: 1000.0,
    };
    let swap = Some(SwapInfo { total: 3, used: 1, free: 2 });
    let m = acc.finish(averages, None, swap, (3000, 6000));
    assert_eq!((m.pcpu.freq_mhz, m.ecpu.freq_mhz, m.gpu_freq_mhz), (3000, 1000, 400));
    assert_eq!((m.pcpu.utilization, m.all_power, m.gpu_temp), (0.5, 6.0, Some(44.0)));
    assert_eq!((m.memory.total, m.swap.total, m.fan_rpm, m.fan_max_rpm), (0, 3, 3000, 6000));
}

#[test]
fn a_sampler_needs_channels_and_sensors() {
    assert!(Sampler::new(None, true, soc()).is_none());
    assert!(Sampler::new(Some(MultiGroupSampler::new()), false, soc()).is_none());
    let s = Sampler::new(Some(MultiGroupSampler::new()), true, soc()).unwrap();
    assert_eq!(s.samples_per_window(), N_SAMPLES);
    let s = Sampler::with_samples_per_window(0, Some(MultiGroupSampler::new()), true, soc());
    assert_eq!(s.unwrap().samples_per_window(), 1);
}

#[test]
fn the_busier_fan_is_shown() {
    let a = Fan { rpm: 10, max_rpm: 100 };
    let b = Fan { rpm: 20, max_rpm: 90 };
    assert_eq!(pick_fan(Some(a), Some(b), true), (10, 100));
    assert_eq!(pick_fan(Some(a), Some(b), false), (20, 90));
    assert_eq!(pick_fan(Some(a), None, false), (10, 100));
    assert_eq!(pick_fan(None, Some(b), true), (20, 90));
    assert_eq!(pick_fan(None, None, true), (0, 0));
    let r = Ratio { part: 1, whole: 2 };
    assert_eq!((r.part, r.whole), (1, 2));
}

#[test]
fn dwells_add_up_to_the_window() {
    for n in [0usize, 1, 2, 3, 4, 7] {
        let s =
            Sampler::with_samples_per_window(n, Some(MultiGroupSampler::new()), true, soc()).unwrap();
        let k = n.max(1) as u64;
        for duration in [0u64, 1, 49, 50, 199, 200, 201, 1000, 1001, 1003, u64::MAX] {
            let mut total: u64 = 0;
            let mut taken: u32 = 0;
            while let WindowStep::Dwell(ms) = s.get_metrics(duration, taken) {
                assert!(ms >= MIN_SUB_MS);
                total += ms;
                taken += 1;
            }
            assert_eq!(taken as u64, k);
            assert_eq!(total, duration.max(k * MIN_SUB_MS));
        }
    }
}
