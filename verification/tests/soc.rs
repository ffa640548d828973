use power_monitor::soc::parse_voltage_states;

fn entry(freq_raw: u32, volt: u32) -> [u8; 8] {
    let mut b = [0u8; 8];
    b[..4].copy_from_slice(&freq_raw.to_le_bytes());
    b[4..].copy_from_slice(&volt.to_le_bytes());
    b
}

fn make_data(entries: &[(u32, u32)]) -> Vec<u8> {
    entries.iter().flat_map(|&(f, v)| entry(f, v)).collect()
}

#[test]
fn hz_values_m1_to_m4_style() {
    let data = make_data(&[(600_000_000, 850), (912_000_000, 900)]);
    let freqs = parse_voltage_states(&data);
    assert_eq!(freqs, vec![600, 912]);
}

#[test]
fn khz_values_m5_style() {
    let data = make_data(&[(972_000, 850), (1_308_000, 900)]);
    let freqs = parse_voltage_states(&data);
    assert_eq!(freqs, vec![972, 1308]);
}

#[test]
fn empty_data_returns_empty() {
    assert!(parse_voltage_states(&[]).is_empty());
}

#[test]
fn sub_100mhz_entries_filtered_out() {
    let data = make_data(&[(0, 0), (600_000_000, 850)]);
    let freqs = parse_voltage_states(&data);
    assert_eq!(freqs, vec![600]);
}

#[test]
fn partial_entry_at_end_ignored() {
    let mut data = make_data(&[(600_000_000, 850)]);
    data.extend_from_slice(&[0u8; 4]);
    let freqs = parse_voltage_states(&data);
    assert_eq!(freqs, vec![600]);
}
