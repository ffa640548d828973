//! Prometheus exposition text: the gauge catalogue and the exporters of a single
//! host and of a fleet.
use vstd::prelude::*;

use crate::fleet::HostState;
use crate::sampler::Metrics;
use crate::text::chars_of;
use crate::text::concat_assoc;

verus! {

// ── Catalogue ────────────────────────────────────────────────────────────────

/// Number of gauges. Both exporters go by the same catalogue, so that names, help
/// texts and units agree.
pub const GAUGES: usize = 19;

/// Name of the `i`th gauge, without the prefix `power_monitor_`.
pub open spec fn gauge_name(i: int) -> Seq<char> {
    if i == 0 {
        "sys_power_watts"@
    } else if i == 1 {
        "cpu_power_watts"@
    } else if i == 2 {
        "gpu_power_watts"@
    } else if i == 3 {
        "ane_power_watts"@
    } else if i == 4 {
        "dram_power_watts"@
    } else if i == 5 {
        "ecpu_utilization"@
    } else if i == 6 {
        "pcpu_utilization"@
    } else if i == 7 {
        "gpu_utilization"@
    } else if i == 8 {
        "ecpu_freq_mhz"@
    } else if i == 9 {
        "pcpu_freq_mhz"@
    } else if i == 10 {
        "gpu_freq_mhz"@
    } else if i == 11 {
        "cpu_temp_celsius"@
    } else if i == 12 {
        "gpu_temp_celsius"@
    } else if i == 13 {
        "fan_rpm"@
    } else if i == 14 {
        "fan_max_rpm"@
    } else if i == 15 {
        "memory_used_bytes"@
    } else if i == 16 {
        "memory_total_bytes"@
    } else if i == 17 {
        "swap_used_bytes"@
    } else {
        "swap_total_bytes"@
    }
}

/// Help text of the `i`th gauge.
pub open spec fn gauge_help(i: int) -> Seq<char> {
    if i == 0 {
        "Total system power draw in watts"@
    } else if i == 1 {
        "CPU power draw in watts"@
    } else if i == 2 {
        "GPU power draw in watts"@
    } else if i == 3 {
        "Apple Neural Engine power draw in watts"@
    } else if i == 4 {
        "DRAM power draw in watts"@
    } else if i == 5 {
        "Efficiency CPU cluster utilization (0-1)"@
    } else if i == 6 {
        "Performance CPU cluster utilization (0-1)"@
    } else if i == 7 {
        "GPU utilization (0-1)"@
    } else if i == 8 {
        "Efficiency CPU cluster weighted average frequency in MHz"@
    } else if i == 9 {
        "Performance CPU cluster weighted average frequency in MHz"@
    } else if i == 10 {
        "GPU weighted average frequency in MHz"@
    } else if i == 11 {
        "CPU temperature in degrees Celsius"@
    } else if i == 12 {
        "GPU temperature in degrees Celsius"@
    } else if i == 13 {
        "Highest-duty fan current RPM (0 if fanless)"@
    } else if i == 14 {
        "Highest-duty fan max RPM (0 if fanless)"@
    } else if i == 15 {
        "Physical RAM used in bytes"@
    } else if i == 16 {
        "Physical RAM total in bytes"@
    } else if i == 17 {
        "Swap used in bytes"@
    } else {
        "Swap total in bytes"@
    }
}

/// Name of the `i`th gauge.
pub fn gauge_label(i: usize) -> (r: &'static str)
    ensures
        r@ == gauge_name(i as int),
{
    if i == 0 {
        "sys_power_watts"
    } else if i == 1 {
        "cpu_power_watts"
    } else if i == 2 {
        "gpu_power_watts"
    } else if i == 3 {
        "ane_power_watts"
    } else if i == 4 {
        "dram_power_watts"
    } else if i == 5 {
        "ecpu_utilization"
    } else if i == 6 {
        "pcpu_utilization"
    } else if i == 7 {
        "gpu_utilization"
    } else if i == 8 {
        "ecpu_freq_mhz"
    } else if i == 9 {
        "pcpu_freq_mhz"
    } else if i == 10 {
        "gpu_freq_mhz"
    } else if i == 11 {
        "cpu_temp_celsius"
    } else if i == 12 {
        "gpu_temp_celsius"
    } else if i == 13 {
        "fan_rpm"
    } else if i == 14 {
        "fan_max_rpm"
    } else if i == 15 {
        "memory_used_bytes"
    } else if i == 16 {
        "memory_total_bytes"
    } else if i == 17 {
        "swap_used_bytes"
    } else {
        "swap_total_bytes"
    }
}

/// Help text of the `i`th gauge.
pub fn gauge_text(i: usize) -> (r: &'static str)
    ensures
        r@ == gauge_help(i as int),
{
    if i == 0 {
        "Total system power draw in watts"
    } else if i == 1 {
        "CPU power draw in watts"
    } else if i == 2 {
        "GPU power draw in watts"
    } else if i == 3 {
        "Apple Neural Engine power draw in watts"
    } else if i == 4 {
        "DRAM power draw in watts"
    } else if i == 5 {
        "Efficiency CPU cluster utilization (0-1)"
    } else if i == 6 {
        "Performance CPU cluster utilization (0-1)"
    } else if i == 7 {
        "GPU utilization (0-1)"
    } else if i == 8 {
        "Efficiency CPU cluster weighted average frequency in MHz"
    } else if i == 9 {
        "Performance CPU cluster weighted average frequency in MHz"
    } else if i == 10 {
        "GPU weighted average frequency in MHz"
    } else if i == 11 {
        "CPU temperature in degrees Celsius"
    } else if i == 12 {
        "GPU temperature in degrees Celsius"
    } else if i == 13 {
        "Highest-duty fan current RPM (0 if fanless)"
    } else if i == 14 {
        "Highest-duty fan max RPM (0 if fanless)"
    } else if i == 15 {
        "Physical RAM used in bytes"
    } else if i == 16 {
        "Physical RAM total in bytes"
    } else if i == 17 {
        "Swap used in bytes"
    } else {
        "Swap total in bytes"
    }
}

/// What a gauge shows.
#[derive(Debug, Clone, Copy, PartialEq)]
pub enum Gauge<F> {
    Measured(F),
    Count(u64),
    /// Nothing: the sensor is off.
    Absent,
}

/// What the `i`th gauge shows of a snapshot.
pub open spec fn gauge_of<F>(m: Metrics<F>, i: int) -> Gauge<F> {
    if i == 0 {
        Gauge::Measured(m.sys_power)
    } else if i == 1 {
        Gauge::Measured(m.cpu_power)
    } else if i == 2 {
        Gauge::Measured(m.gpu_power)
    } else if i == 3 {
        Gauge::Measured(m.ane_power)
    } else if i == 4 {
        Gauge::Measured(m.dram_power)
    } else if i == 5 {
        Gauge::Measured(m.ecpu.utilization)
    } else if i == 6 {
        Gauge::Measured(m.pcpu.utilization)
    } else if i == 7 {
        Gauge::Measured(m.gpu_util)
    } else if i == 8 {
        Gauge::Count(m.ecpu.freq_mhz as u64)
    } else if i == 9 {
        Gauge::Count(m.pcpu.freq_mhz as u64)
    } else if i == 10 {
        Gauge::Count(m.gpu_freq_mhz as u64)
    } else if i == 11 {
        match m.cpu_temp { Some(t) => Gauge::Measured(t), None => Gauge::Absent }
    } else if i == 12 {
        match m.gpu_temp { Some(t) => Gauge::Measured(t), None => Gauge::Absent }
    } else if i == 13 {
        Gauge::Count(m.fan_rpm as u64)
    } else if i == 14 {
        Gauge::Count(m.fan_max_rpm as u64)
    } else if i == 15 {
        Gauge::Count(m.memory.used)
    } else if i == 16 {
        Gauge::Count(m.memory.total)
    } else if i == 17 {
        Gauge::Count(m.swap.used)
    } else {
        Gauge::Count(m.swap.total)
    }
}

/// What the `i`th gauge shows of a snapshot.
pub fn gauge_value<F: Copy>(m: &Metrics<F>, i: usize) -> (r: Gauge<F>)
    ensures
        r == gauge_of(*m, i as int),
{
    if i == 0 {
        Gauge::Measured(m.sys_power)
    } else if i == 1 {
        Gauge::Measured(m.cpu_power)
    } else if i == 2 {
        Gauge::Measured(m.gpu_power)
    } else if i == 3 {
        Gauge::Measured(m.ane_power)
    } else if i == 4 {
        Gauge::Measured(m.dram_power)
    } else if i == 5 {
        Gauge::Measured(m.ecpu.utilization)
    } else if i == 6 {
        Gauge::Measured(m.pcpu.utilization)
    } else if i == 7 {
        Gauge::Measured(m.gpu_util)
    } else if i == 8 {
        Gauge::Count(m.ecpu.freq_mhz as u64)
    } else if i == 9 {
        Gauge::Count(m.pcpu.freq_mhz as u64)
    } else if i == 10 {
        Gauge::Count(m.gpu_freq_mhz as u64)
    } else if i == 11 {
        match m.cpu_temp { Some(t) => Gauge::Measured(t), None => Gauge::Absent }
    } else if i == 12 {
        match m.gpu_temp { Some(t) => Gauge::Measured(t), None => Gauge::Absent }
    } else if i == 13 {
        Gauge::Count(m.fan_rpm as u64)
    } else if i == 14 {
        Gauge::Count(m.fan_max_rpm as u64)
    } else if i == 15 {
        Gauge::Count(m.memory.used)
    } else if i == 16 {
        Gauge::Count(m.memory.total)
    } else if i == 17 {
        Gauge::Count(m.swap.used)
    } else {
        Gauge::Count(m.swap.total)
    }
}

/// No two gauges have the same name.
pub proof fn gauge_names_are_distinct(i: int, j: int)
    requires
        0 <= i < GAUGES,
        0 <= j < GAUGES,
        gauge_name(i) == gauge_name(j),
    ensures
        i == j,
{
    reveal_strlit("sys_power_watts");
    reveal_strlit("cpu_power_watts");
    reveal_strlit("gpu_power_watts");
    reveal_strlit("ane_power_watts");
    reveal_strlit("dram_power_watts");
    reveal_strlit("ecpu_utilization");
    reveal_strlit("pcpu_utilization");
    reveal_strlit("gpu_utilization");
    reveal_strlit("ecpu_freq_mhz");
    reveal_strlit("pcpu_freq_mhz");
    reveal_strlit("gpu_freq_mhz");
    reveal_strlit("cpu_temp_celsius");
    reveal_strlit("gpu_temp_celsius");
    reveal_strlit("fan_rpm");
    reveal_strlit("fan_max_rpm");
    reveal_strlit("memory_used_bytes");
    reveal_strlit("memory_total_bytes");
    reveal_strlit("swap_used_bytes");
    reveal_strlit("swap_total_bytes");
    let (a, b) = (gauge_name(i), gauge_name(j));
    assert(a.len() == b.len() && a[0] == b[0] && a[1] == b[1] && a[4] == b[4]);
}

/// Whether the gauge of this name, of which there is one, shows this of a snapshot, and
/// is introduced with this help text.
pub open spec fn is_shown_as<F>(m: Metrics<F>, name: Seq<char>, shown: Gauge<F>, help: Seq<char>) -> bool {
    &&& exists|i: int| 0 <= i < GAUGES && #[trigger] gauge_name(i) == name
    &&& forall|i: int|
        0 <= i < GAUGES && #[trigger] gauge_name(i) == name ==> gauge_of(m, i) == shown
            && gauge_help(i) == help
}

/// What is shown of a sensor that may be off.
pub open spec fn measured_or_absent<F>(x: Option<F>) -> Gauge<F> {
    match x {
        Some(x) => Gauge::Measured(x),
        None => Gauge::Absent,
    }
}

proof fn lemma_shown_as<F>(m: Metrics<F>, k: int)
    requires
        0 <= k < GAUGES,
    ensures
        is_shown_as(m, gauge_name(k), gauge_of(m, k), gauge_help(k)),
{
    assert forall|i: int| 0 <= i < GAUGES && #[trigger] gauge_name(i) == gauge_name(
        k,
    ) implies gauge_of(m, i) == gauge_of(m, k) && gauge_help(i) == gauge_help(k) by {
        gauge_names_are_distinct(i, k);
    }
}

/// Each gauge shows the quantity that it is named for, under the help text of that
/// quantity.
pub proof fn gauges_show_what_they_name<F>(m: Metrics<F>)
    ensures
        is_shown_as(
            m,
            "sys_power_watts"@,
            Gauge::Measured(m.sys_power),
            "Total system power draw in watts"@,
        ),
        is_shown_as(
            m,
            "cpu_power_watts"@,
            Gauge::Measured(m.cpu_power),
            "CPU power draw in watts"@,
        ),
        is_shown_as(
            m,
            "gpu_power_watts"@,
            Gauge::Measured(m.gpu_power),
            "GPU power draw in watts"@,
        ),
        is_shown_as(
            m,
            "ane_power_watts"@,
            Gauge::Measured(m.ane_power),
            "Apple Neural Engine power draw in watts"@,
        ),
        is_shown_as(
            m,
            "dram_power_watts"@,
            Gauge::Measured(m.dram_power),
            "DRAM power draw in watts"@,
        ),
        is_shown_as(
            m,
            "ecpu_utilization"@,
            Gauge::Measured(m.ecpu.utilization),
            "Efficiency CPU cluster utilization (0-1)"@,
        ),
        is_shown_as(
            m,
            "pcpu_utilization"@,
            Gauge::Measured(m.pcpu.utilization),
            "Performance CPU cluster utilization (0-1)"@,
        ),
        is_shown_as(
            m,
            "gpu_utilization"@,
            Gauge::Measured(m.gpu_util),
            "GPU utilization (0-1)"@,
        ),
        is_shown_as(
            m,
            "ecpu_freq_mhz"@,
            Gauge::Count(m.ecpu.freq_mhz as u64),
            "Efficiency CPU cluster weighted average frequency in MHz"@,
        ),
        is_shown_as(
            m,
            "pcpu_freq_mhz"@,
            Gauge::Count(m.pcpu.freq_mhz as u64),
            "Performance CPU cluster weighted average frequency in MHz"@,
        ),
        is_shown_as(
            m,
            "gpu_freq_mhz"@,
            Gauge::Count(m.gpu_freq_mhz as u64),
            "GPU weighted average frequency in MHz"@,
        ),
        is_shown_as(
            m,
            "cpu_temp_celsius"@,
            measured_or_absent(m.cpu_temp),
            "CPU temperature in degrees Celsius"@,
        ),
        is_shown_as(
            m,
            "gpu_temp_celsius"@,
            measured_or_absent(m.gpu_temp),
            "GPU temperature in degrees Celsius"@,
        ),
        is_shown_as(
            m,
            "fan_rpm"@,
            Gauge::Count(m.fan_rpm as u64),
            "Highest-duty fan current RPM (0 if fanless)"@,
        ),
        is_shown_as(
            m,
            "fan_max_rpm"@,
            Gauge::Count(m.fan_max_rpm as u64),
            "Highest-duty fan max RPM (0 if fanless)"@,
        ),
        is_shown_as(
            m,
            "memory_used_bytes"@,
            Gauge::Count(m.memory.used),
            "Physical RAM used in bytes"@,
        ),
        is_shown_as(
            m,
            "memory_total_bytes"@,
            Gauge::Count(m.memory.total),
            "Physical RAM total in bytes"@,
        ),
        is_shown_as(
            m,
            "swap_used_bytes"@,
            Gauge::Count(m.swap.used),
            "Swap used in bytes"@,
        ),
        is_shown_as(
            m,
            "swap_total_bytes"@,
            Gauge::Count(m.swap.total),
            "Swap total in bytes"@,
        ),
{
    lemma_shown_as(m, 0);
    lemma_shown_as(m, 1);
    lemma_shown_as(m, 2);
    lemma_shown_as(m, 3);
    lemma_shown_as(m, 4);
    lemma_shown_as(m, 5);
    lemma_shown_as(m, 6);
    lemma_shown_as(m, 7);
    lemma_shown_as(m, 8);
    lemma_shown_as(m, 9);
    lemma_shown_as(m, 10);
    lemma_shown_as(m, 11);
    lemma_shown_as(m, 12);
    lemma_shown_as(m, 13);
    lemma_shown_as(m, 14);
    lemma_shown_as(m, 15);
    lemma_shown_as(m, 16);
    lemma_shown_as(m, 17);
    lemma_shown_as(m, 18);
}

// ── Labels ───────────────────────────────────────────────────────────────────

/// How one character stands inside a label value.
pub open spec fn label_char(c: char) -> Seq<char> {
    if c == '\\' {
        seq!['\\', '\\']
    } else if c == '"' {
        seq!['\\', '"']
    } else if c == '\n' {
        seq!['\\', 'n']
    } else {
        seq![c]
    }
}

/// How a text stands inside a label value.
pub open spec fn label_text(s: Seq<char>) -> Seq<char>
    decreases s.len(),
{
    if s.len() == 0 {
        Seq::empty()
    } else {
        label_text(s.drop_last()) + label_char(s.last())
    }
}

/// Appends `s` as it stands inside a label value.
pub fn write_prom_label(out: &mut String, s: &str)
    ensures
        final(out)@ == old(out)@ + label_text(s@),
{
    let v = chars_of(s);
    let ghost before = out@;
    let mut i: usize = 0;
    assert(before + Seq::<char>::empty() == before);
    while i < v.len()
        invariant
            i <= v.len(),
            v@ == s@,
            out@ == before + label_text(s@.take(i as int)),
        decreases v.len() - i,
    {
        let c: char = v[i];
        let ghost at = out@;
        if c == '\\' {
            out.push('\\');
            out.push('\\');
        } else if c == '"' {
            out.push('\\');
            out.push('"');
        } else if c == '\n' {
            out.push('\\');
            out.push('n');
        } else {
            out.push(c);
        }
        proof {
            assert(out@ == at + label_char(c));
            assert(s@.take(i + 1).drop_last() == s@.take(i as int));
            concat_assoc(before, label_text(s@.take(i as int)), label_char(c));
        }
        i += 1;
    }
    assert(s@.take(v.len() as int) == s@);
}

/// A label value holds no line break, and a quote only behind a backslash.
pub proof fn labels_stay_on_their_line(s: Seq<char>)
    ensures
        !label_text(s).contains('\n'),
        forall|k: int|
            0 <= k < label_text(s).len() && #[trigger] label_text(s)[k] == '"' ==> k > 0 && label_text(
                s,
            )[k - 1] == '\\',
    decreases s.len(),
{
    if s.len() > 0 {
        labels_stay_on_their_line(s.drop_last());
        let head = label_text(s.drop_last());
        let tail = label_char(s.last());
        let whole = label_text(s);
        assert(whole == head + tail);
        assert forall|k: int| 0 <= k < whole.len() implies whole[k] != '\n' by {
            if k < head.len() {
                assert(whole[k] == head[k]);
                assert(head.contains(head[k]));
            } else {
                assert(whole[k] == tail[k - head.len()]);
            }
        }
        assert forall|k: int| 0 <= k < whole.len() && #[trigger] whole[k] == '"' implies k > 0
            && whole[k - 1] == '\\' by {
            if k < head.len() {
                assert(whole[k] == head[k]);
                assert(whole[k - 1] == head[k - 1]);
            } else {
                assert(whole[k] == tail[k - head.len()]);
                assert(k - head.len() == 1);
                assert(whole[k - 1] == tail[0]);
            }
        }
    }
}

/// The text that a label value stands for: a backslash and what follows it are one
/// character, any other character stands for itself.
pub open spec fn unlabelled(t: Seq<char>) -> Seq<char>
    decreases t.len(),
{
    if t.len() == 0 {
        Seq::empty()
    } else if t[0] != '\\' || t.len() == 1 {
        seq![t[0]] + unlabelled(t.skip(1))
    } else if t[1] == 'n' {
        seq!['\n'] + unlabelled(t.skip(2))
    } else {
        seq![t[1]] + unlabelled(t.skip(2))
    }
}

proof fn lemma_label_first(s: Seq<char>)
    requires
        s.len() > 0,
    ensures
        label_text(s) == label_char(s[0]) + label_text(s.skip(1)),
    decreases s.len(),
{
    if s.len() > 1 {
        lemma_label_first(s.drop_last());
        assert(s.skip(1).drop_last() =~= s.drop_last().skip(1));
        assert(label_text(s) =~= label_char(s[0]) + label_text(s.skip(1)));
    } else {
        assert(s.drop_last() =~= Seq::<char>::empty());
        assert(s.skip(1) =~= Seq::<char>::empty());
        assert(label_text(s) =~= label_char(s[0]) + label_text(s.skip(1)));
    }
}

/// A text comes back from the label value that it is written as.
pub proof fn labels_are_read_back(s: Seq<char>)
    ensures
        unlabelled(label_text(s)) == s,
    decreases s.len(),
{
    if s.len() > 0 {
        lemma_label_first(s);
        labels_are_read_back(s.skip(1));
        let rest = label_text(s.skip(1));
        let t = label_char(s[0]) + rest;
        let n = label_char(s[0]).len() as int;
        assert(t.skip(n) =~= rest);
        assert(forall|k: int| 0 <= k < n ==> t[k] == label_char(s[0])[k]);
        assert(seq![s[0]] + s.skip(1) =~= s);
    }
}

// ── One host ─────────────────────────────────────────────────────────────────

/// The two lines that introduce the `i`th gauge.
pub open spec fn gauge_header(i: int) -> Seq<char> {
    "# HELP power_monitor_"@ + gauge_name(i) + " "@ + gauge_help(i) + "\n# TYPE power_monitor_"@
        + gauge_name(i) + " gauge\n"@
}

/// A sample of the `i`th gauge; nothing where it shows nothing. The label values
/// stand as they are given.
pub open spec fn sample_line(i: int, chip: Seq<char>, host: Seq<char>, value: Option<String>) -> Seq<
    char,
> {
    match value {
        Some(v) => "power_monitor_"@ + gauge_name(i) + "{chip=\""@ + chip + "\",host=\""@ + host
            + "\"} "@ + v@ + "\n"@,
        None => Seq::empty(),
    }
}

/// The first `n` gauges of one host.
pub open spec fn host_gauges(chip: Seq<char>, host: Seq<char>, values: Seq<Option<String>>, n: int) -> Seq<
    char,
>
    decreases n,
{
    if n <= 0 {
        Seq::empty()
    } else {
        host_gauges(chip, host, values, n - 1) + gauge_header(n - 1) + sample_line(
            n - 1,
            label_text(chip),
            label_text(host),
            values[n - 1],
        )
    }
}

fn push_header(out: &mut String, i: usize)
    ensures
        final(out)@ == old(out)@ + gauge_header(i as int),
{
    broadcast use concat_assoc;

    out.append("# HELP power_monitor_");
    out.append(gauge_label(i));
    out.append(" ");
    out.append(gauge_text(i));
    out.append("\n# TYPE power_monitor_");
    out.append(gauge_label(i));
    out.append(" gauge\n");
}

fn push_sample(out: &mut String, i: usize, chip: &str, host: &str, value: &Option<String>)
    ensures
        final(out)@ == old(out)@ + sample_line(i as int, chip@, host@, *value),
{
    broadcast use concat_assoc;

    match value {
        Some(v) => {
            out.append("power_monitor_");
            out.append(gauge_label(i));
            out.append("{chip=\"");
            out.append(chip);
            out.append("\",host=\"");
            out.append(host);
            out.append("\"} ");
            out.append(v);
            out.append("\n");
        },
        None => {
            assert(out@ + Seq::<char>::empty() == out@);
        },
    }
}

/// The exposition text of one host. `values` holds what each gauge shows, in words;
/// a gauge that shows nothing finite is introduced but has no sample.
pub fn metrics_to_prometheus(values: &Vec<Option<String>>, chip: &str, host: &str) -> (r: String)
    requires
        values@.len() == GAUGES,
    ensures
        r@ == host_gauges(chip@, host@, values@, GAUGES as int),
{
    let mut chip_label: String = String::new();
    write_prom_label(&mut chip_label, chip);
    assert(chip_label@ == label_text(chip@));
    let mut host_label: String = String::new();
    write_prom_label(&mut host_label, host);
    assert(host_label@ == label_text(host@));
    let mut out: String = String::new();
    let mut i: usize = 0;
    while i < GAUGES
        invariant
            i <= GAUGES,
            values@.len() == GAUGES,
            chip_label@ == label_text(chip@),
            host_label@ == label_text(host@),
            out@ == host_gauges(chip@, host@, values@, i as int),
        decreases GAUGES - i,
    {
        push_header(&mut out, i);
        push_sample(&mut out, i, &chip_label, &host_label, &values[i]);
        i += 1;
    }
    out
}

proof fn lemma_within<T>(a: Seq<T>, b: Seq<T>, c: Seq<T>, pat: Seq<T>)
    requires
        crate::text::contains(b, pat),
    ensures
        crate::text::contains(a + b + c, pat),
{
    let i = choose|i: int| crate::text::occurs_at(b, i, pat);
    let all = a + b + c;
    assert(all.subrange(a.len() + i, a.len() + i + pat.len()) =~= b.subrange(i, i + pat.len()));
    assert(crate::text::occurs_at(all, a.len() + i, pat));
}

/// The text of one host tells each gauge that shows something, under its name, with the
/// labels of the chip and of the host.
pub proof fn every_gauge_is_told(
    chip: Seq<char>,
    host: Seq<char>,
    values: Seq<Option<String>>,
    i: int,
    n: int,
)
    requires
        0 <= i < n <= GAUGES,
        values.len() == GAUGES,
    ensures
        values[i] matches Some(v) ==> crate::text::contains(
            host_gauges(chip, host, values, n),
            "power_monitor_"@ + gauge_name(i) + "{chip=\""@ + label_text(chip) + "\",host=\""@
                + label_text(host) + "\"} "@ + v@ + "\n"@,
        ),
    decreases n,
{
    let none = Seq::<char>::empty();
    let before = host_gauges(chip, host, values, n - 1);
    let line = sample_line(i, label_text(chip), label_text(host), values[i]);
    let last = sample_line(n - 1, label_text(chip), label_text(host), values[n - 1]);
    if i < n - 1 {
        every_gauge_is_told(chip, host, values, i, n - 1);
        if values[i] is Some {
            lemma_within(none, before, gauge_header(n - 1) + last, line);
            assert(none + before + (gauge_header(n - 1) + last) =~= host_gauges(
                chip,
                host,
                values,
                n,
            ));
        }
    } else {
        assert(crate::text::occurs_at(line, 0, line)) by {
            assert(line.subrange(0, line.len() as int) =~= line);
        }
        lemma_within(before + gauge_header(n - 1), line, none, line);
        assert(before + gauge_header(n - 1) + line + none =~= host_gauges(chip, host, values, n));
    }
}

// ── A fleet ──────────────────────────────────────────────────────────────────

/// What a host that answered showed: its labels, and each gauge in words.
pub struct Shown {
    pub chip: String,
    pub hostname: String,
    pub values: Vec<Option<String>>,
}

/// A configured target.
pub struct LiveHost {
    pub target: String,
    pub label: String,
    /// Whether it answered in time.
    pub up: bool,
    /// What it showed last, if it ever answered.
    pub shown: Option<Shown>,
}

/// Whether every host that answered shows every gauge.
pub open spec fn complete(hosts: Seq<LiveHost>) -> bool {
    forall|k: int|
        0 <= k < hosts.len() ==> ((#[trigger] hosts[k]).shown matches Some(s) ==> s.values@.len()
            == GAUGES)
}

/// The sample of the `i`th gauge of one target; nothing where it has not told its
/// labels yet.
pub open spec fn target_line(i: int, h: LiveHost) -> Seq<char> {
    match h.shown {
        Some(s) => if s.chip@.len() == 0 || s.hostname@.len() == 0 {
            Seq::empty()
        } else {
            sample_line(i, s.chip@, s.hostname@, s.values@[i])
        },
        None => Seq::empty(),
    }
}

/// The samples of the `i`th gauge of the first `n` targets.
pub open spec fn target_lines(i: int, hosts: Seq<LiveHost>, n: int) -> Seq<char>
    decreases n,
{
    if n <= 0 {
        Seq::empty()
    } else {
        target_lines(i, hosts, n - 1) + target_line(i, hosts[n - 1])
    }
}

/// The first `n` gauges of a fleet.
pub open spec fn fleet_gauges(hosts: Seq<LiveHost>, n: int) -> Seq<char>
    decreases n,
{
    if n <= 0 {
        Seq::empty()
    } else {
        fleet_gauges(hosts, n - 1) + gauge_header(n - 1) + target_lines(
            n - 1,
            hosts,
            hosts.len() as int,
        )
    }
}

/// Whether a target is up: told for every target, also for one that never answered.
pub open spec fn up_line(h: LiveHost) -> Seq<char> {
    let chip = match h.shown {
        Some(s) => s.chip@,
        None => Seq::empty(),
    };
    let host = match h.shown {
        Some(s) => s.hostname@,
        None => h.label@,
    };
    "power_monitor_host_up{chip=\""@ + chip + "\",host=\""@ + host + "\",target=\""@ + h.target@ + "\"} "@
        + (if h.up { "1"@ } else { "0"@ }) + "\n"@
}

/// The liveness of the first `n` targets.
pub open spec fn up_lines(hosts: Seq<LiveHost>, n: int) -> Seq<char>
    decreases n,
{
    if n <= 0 {
        Seq::empty()
    } else {
        up_lines(hosts, n - 1) + up_line(hosts[n - 1])
    }
}

/// The two lines that introduce the liveness gauge.
pub const UP_HEADER: &'static str =
    "# HELP power_monitor_host_up 1 if the agent responded to the most recent poll within 10 seconds\n# TYPE power_monitor_host_up gauge\n";

/// The exposition text of a fleet.
pub open spec fn fleet_text(hosts: Seq<LiveHost>) -> Seq<char> {
    fleet_gauges(hosts, GAUGES as int) + UP_HEADER@ + up_lines(hosts, hosts.len() as int)
}

fn push_target(out: &mut String, i: usize, h: &LiveHost)
    requires
        i < GAUGES,
        h.shown matches Some(s) ==> s.values@.len() == GAUGES,
    ensures
        final(out)@ == old(out)@ + target_line(i as int, *h),
{
    assert(out@ + Seq::<char>::empty() == out@);
    match &h.shown {
        Some(s) => {
            if !s.chip.as_str().is_empty() && !s.hostname.as_str().is_empty() {
                push_sample(out, i, &s.chip, &s.hostname, &s.values[i]);
            }
        },
        None => {},
    }
}

fn push_up(out: &mut String, h: &LiveHost)
    ensures
        final(out)@ == old(out)@ + up_line(*h),
{
    broadcast use concat_assoc;

    out.append("power_monitor_host_up{chip=\"");
    match &h.shown {
        Some(s) => {
            out.append(&s.chip);
        },
        None => {
            assert(out@ + Seq::<char>::empty() == out@);
        },
    }
    out.append("\",host=\"");
    match &h.shown {
        Some(s) => {
            out.append(&s.hostname);
        },
        None => {
            out.append(&h.label);
        },
    }
    out.append("\",target=\"");
    out.append(&h.target);
    out.append("\"} ");
    if h.up {
        out.append("1");
    } else {
        out.append("0");
    }
    out.append("\n");
}

/// The exposition text of a fleet: every gauge with the samples of all targets that
/// have told their labels, and the liveness of every target.
pub fn fleet_to_prometheus(hosts: &Vec<LiveHost>) -> (r: String)
    requires
        complete(hosts@),
    ensures
        r@ == fleet_text(hosts@),
{
    let mut out: String = String::new();
    let mut i: usize = 0;
    while i < GAUGES
        invariant
            i <= GAUGES,
            complete(hosts@),
            out@ == fleet_gauges(hosts@, i as int),
        decreases GAUGES - i,
    {
        push_header(&mut out, i);
        let ghost at = out@;
        let mut k: usize = 0;
        assert(at + Seq::<char>::empty() == at);
        while k < hosts.len()
            invariant
                i < GAUGES,
                k <= hosts.len(),
                complete(hosts@),
                out@ == at + target_lines(i as int, hosts@, k as int),
            decreases hosts.len() - k,
        {
            let h: &LiveHost = &hosts[k];
            assert(h.shown matches Some(s) ==> s.values@.len() == GAUGES);
            push_target(&mut out, i, h);
            proof {
                concat_assoc(at, target_lines(i as int, hosts@, k as int), target_line(i as int, *h));
            }
            k += 1;
        }
        i += 1;
    }
    out.append(UP_HEADER);
    let ghost at = out@;
    let mut k: usize = 0;
    assert(at + Seq::<char>::empty() == at);
    while k < hosts.len()
        invariant
            k <= hosts.len(),
            out@ == at + up_lines(hosts@, k as int),
        decreases hosts.len() - k,
    {
        push_up(&mut out, &hosts[k]);
        proof {
            concat_assoc(at, up_lines(hosts@, k as int), up_line(hosts@[k as int]));
        }
        k += 1;
    }
    out
}

/// Seconds within which a target must have answered to be up.
pub const UP_SECONDS: u64 = 10;

/// Whether a target is up, by the whole seconds since it answered last.
pub fn is_up(seconds: Option<u64>) -> (r: bool)
    ensures
        r == (seconds matches Some(s) && s < UP_SECONDS),
        r == (seconds matches Some(s) && s < 10),
{
    match seconds {
        Some(s) => s < UP_SECONDS,
        None => false,
    }
}

/// What the exporter shows of a host: whether it is up, by the whole seconds since its
/// last answer, and its last sample, if there is one, with each gauge in words.
pub fn live_host<F, T>(
    h: &HostState<F, T>,
    seconds: Option<u64>,
    values: Vec<Option<String>>,
) -> (r: LiveHost)
    ensures
        r.target@ == h.target@,
        r.label@ == h.label@,
        r.up == (seconds matches Some(s) && s < UP_SECONDS && h.last_ok_at is Some),
        r.shown is Some <==> h.parsed is Some,
        r.shown matches Some(shown) ==> {
            &&& shown.chip@ == h.parsed->0.chip@
            &&& shown.hostname@ == h.parsed->0.hostname@
            &&& shown.values == values
        },
{
    let shown: Option<Shown> = match &h.parsed {
        Some(p) => Some(Shown { chip: p.chip.clone(), hostname: p.hostname.clone(), values }),
        None => None,
    };
    LiveHost {
        target: h.target.clone(),
        label: h.label.clone(),
        up: h.last_ok_at.is_some() && is_up(seconds),
        shown,
    }
}

/// Every configured target has its liveness in the text, whatever it showed.
pub proof fn every_target_is_told(hosts: Seq<LiveHost>, k: int)
    requires
        0 <= k < hosts.len(),
    ensures
        crate::text::contains(fleet_text(hosts), up_line(hosts[k])),
{
    lemma_up_line_within(hosts, k, hosts.len() as int);
    let ups = up_lines(hosts, hosts.len() as int);
    let line = up_line(hosts[k]);
    let i = choose|i: int| crate::text::occurs_at(ups, i, line);
    let head = fleet_gauges(hosts, GAUGES as int) + UP_HEADER@;
    assert(fleet_text(hosts) == head + ups);
    assert((head + ups).subrange(head.len() + i, head.len() + i + line.len()) =~= ups.subrange(
        i,
        i + line.len(),
    ));
    assert(crate::text::occurs_at(fleet_text(hosts), head.len() + i, line));
}

proof fn lemma_up_line_within(hosts: Seq<LiveHost>, k: int, n: int)
    requires
        0 <= k < n <= hosts.len(),
    ensures
        crate::text::contains(up_lines(hosts, n), up_line(hosts[k])),
    decreases n,
{
    let line = up_line(hosts[k]);
    let before = up_lines(hosts, n - 1);
    let all = up_lines(hosts, n);
    if k == n - 1 {
        assert(all.subrange(before.len() as int, before.len() as int + line.len()) =~= line);
        assert(crate::text::occurs_at(all, before.len() as int, line));
    } else {
        lemma_up_line_within(hosts, k, n - 1);
        let i = choose|i: int| crate::text::occurs_at(before, i, line);
        assert(all.subrange(i, i + line.len()) =~= before.subrange(i, i + line.len()));
        assert(crate::text::occurs_at(all, i, line));
    }
}

/// The text of a fleet tells each gauge of a host that told its labels, under its name,
/// with the labels of the chip and of the host as they are.
pub proof fn every_sample_is_told(hosts: Seq<LiveHost>, k: int, i: int)
    requires
        0 <= k < hosts.len(),
        0 <= i < GAUGES,
    ensures
        hosts[k].shown matches Some(s) ==> (s.chip@.len() > 0 && s.hostname@.len() > 0 ==> (
        s.values@[i] matches Some(v) ==> crate::text::contains(
            fleet_text(hosts),
            "power_monitor_"@ + gauge_name(i) + "{chip=\""@ + s.chip@ + "\",host=\""@ + s.hostname@
                + "\"} "@ + v@ + "\n"@,
        ))),
{
    let line = target_line(i, hosts[k]);
    lemma_target_within(hosts, i, k, hosts.len() as int);
    lemma_fleet_gauge_within(hosts, i, GAUGES as int, line);
    let rest = UP_HEADER@ + up_lines(hosts, hosts.len() as int);
    let none = Seq::<char>::empty();
    lemma_within(none, fleet_gauges(hosts, GAUGES as int), rest, line);
    assert(none + fleet_gauges(hosts, GAUGES as int) + rest =~= fleet_text(hosts));
}

proof fn lemma_target_within(hosts: Seq<LiveHost>, i: int, k: int, n: int)
    requires
        0 <= k < n <= hosts.len(),
    ensures
        crate::text::contains(target_lines(i, hosts, n), target_line(i, hosts[k])),
    decreases n,
{
    let line = target_line(i, hosts[k]);
    let none = Seq::<char>::empty();
    let before = target_lines(i, hosts, n - 1);
    let last = target_line(i, hosts[n - 1]);
    if k < n - 1 {
        lemma_target_within(hosts, i, k, n - 1);
        lemma_within(none, before, last, line);
        assert(none + before + last =~= target_lines(i, hosts, n));
    } else {
        assert(crate::text::occurs_at(line, 0, line)) by {
            assert(line.subrange(0, line.len() as int) =~= line);
        }
        lemma_within(before, line, none, line);
        assert(before + line + none =~= target_lines(i, hosts, n));
    }
}

proof fn lemma_fleet_gauge_within(hosts: Seq<LiveHost>, i: int, n: int, line: Seq<char>)
    requires
        0 <= i < n,
        crate::text::contains(target_lines(i, hosts, hosts.len() as int), line),
    ensures
        crate::text::contains(fleet_gauges(hosts, n), line),
    decreases n,
{
    let none = Seq::<char>::empty();
    let before = fleet_gauges(hosts, n - 1);
    let lines = target_lines(n - 1, hosts, hosts.len() as int);
    if i < n - 1 {
        lemma_fleet_gauge_within(hosts, i, n - 1, line);
        lemma_within(none, before, gauge_header(n - 1) + lines, line);
        assert(none + before + (gauge_header(n - 1) + lines) =~= fleet_gauges(hosts, n));
    } else {
        lemma_within(before + gauge_header(n - 1), lines, none, line);
        assert(before + gauge_header(n - 1) + lines + none =~= fleet_gauges(hosts, n));
    }
}

/// The liveness of a target ends in one where it is up and in zero where it is not, and
/// names the target; two targets that differ in nothing else differ in that alone.
pub proof fn liveness_is_one_or_zero(h: LiveHost)
    ensures
        up_line(h).len() >= 2,
        up_line(h)[up_line(h).len() - 2] == if h.up {
            '1'
        } else {
            '0'
        },
        up_line(h).last() == '\n',
        crate::text::contains(up_line(h), "target=\""@ + h.target@ + "\""@),
        h.shown matches Some(s) ==> crate::text::begins(
            up_line(h),
            "power_monitor_host_up{chip=\""@ + s.chip@ + "\",host=\""@ + s.hostname@ + "\","@,
        ),
        h.shown is None ==> crate::text::begins(
            up_line(h),
            "power_monitor_host_up{chip=\"\",host=\""@ + h.label@ + "\","@,
        ),
{
    reveal_strlit("1");
    reveal_strlit("0");
    reveal_strlit("\n");
    reveal_strlit("\"");
    reveal_strlit("\"} ");
    reveal_strlit("target=\"");
    reveal_strlit("\",target=\"");
    reveal_strlit("\",");
    reveal_strlit("\",host=\"");
    reveal_strlit("power_monitor_host_up{chip=\"");
    reveal_strlit("power_monitor_host_up{chip=\"\",host=\"");
    let chip = match h.shown {
        Some(s) => s.chip@,
        None => Seq::empty(),
    };
    let host = match h.shown {
        Some(s) => s.hostname@,
        None => h.label@,
    };
    let head = "power_monitor_host_up{chip=\""@ + chip + "\",host=\""@ + host;
    let line = up_line(h);
    let t = "target=\""@ + h.target@ + "\""@;
    let at = head.len() as int + 2;
    assert(line.subrange(at, at + t.len()) =~= t);
    assert(crate::text::occurs_at(line, at, t));
    let start = head + "\","@;
    assert(line.subrange(0, start.len() as int) =~= start);
    assert("power_monitor_host_up{chip=\""@ + Seq::<char>::empty() + "\",host=\""@
        =~= "power_monitor_host_up{chip=\"\",host=\""@);
}

} // verus!
