use power_monitor::ioreport::{ChannelGroup, EnergyUnit};

#[test]
fn energy_unit_bytes_roundtrip() {
    assert_eq!(EnergyUnit::from_bytes(b"mJ"), EnergyUnit::MilliJoule);
    assert_eq!(EnergyUnit::from_bytes(b"uJ"), EnergyUnit::MicroJoule);
    assert_eq!(EnergyUnit::from_bytes(b"nJ"), EnergyUnit::NanoJoule);
    assert_eq!(EnergyUnit::from_bytes(b"???"), EnergyUnit::MilliJoule);
}

#[test]
fn energy_unit_to_joules() {
    let to_joules = |u: EnergyUnit, raw: i64| raw as f64 / u.units_per_joule() as f64;
    assert!((to_joules(EnergyUnit::MilliJoule, 1000) - 1.0).abs() < 1e-9);
    assert!((to_joules(EnergyUnit::MicroJoule, 1_000_000) - 1.0).abs() < 1e-9);
    assert!((to_joules(EnergyUnit::NanoJoule, 1_000_000_000) - 1.0).abs() < 1e-9);
}

#[test]
fn channel_group_from_bytes() {
    assert_eq!(
        ChannelGroup::from_bytes(b"Energy Model"),
        ChannelGroup::EnergyModel
    );
    assert_eq!(
        ChannelGroup::from_bytes(b"CPU Stats"),
        ChannelGroup::CpuStats
    );
    assert_eq!(
        ChannelGroup::from_bytes(b"GPU Stats"),
        ChannelGroup::GpuStats
    );
    assert_eq!(ChannelGroup::from_bytes(b"Unknown"), ChannelGroup::Other);
}
