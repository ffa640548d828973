//! SoC configuration: chip name, performance levels and frequency tables, from
//! what the system's registries report.
use vstd::prelude::*;

use crate::text::{decimal, push_dec};
use crate::text::{concat_assoc, dec, texts};

verus! {

// ── Frequency tables ─────────────────────────────────────────────────────────

/// The number whose little-endian bytes start at index `i`.
pub open spec fn le_word(data: Seq<u8>, i: int) -> u32 {
    (data[i] + 0x100 * data[i + 1] + 0x1_0000 * data[i + 2] + 0x100_0000 * data[i + 3]) as u32
}

/// The first word of each complete 8-byte entry.
pub open spec fn raw_entries(data: Seq<u8>) -> Seq<u32> {
    Seq::new((data.len() / 8) as nat, |i: int| le_word(data, 8 * i))
}

/// The largest of the numbers, 0 for none.
pub open spec fn largest(s: Seq<u32>) -> u32
    decreases s.len(),
{
    if s.len() == 0 {
        0
    } else if s.last() > largest(s.drop_last()) {
        s.last()
    } else {
        largest(s.drop_last())
    }
}

/// The divisor from the unit of a table to MHz: the unit is Hz, kHz or MHz by
/// the magnitude of the largest entry.
pub open spec fn unit_divisor(max: u32) -> u32 {
    if max > 100_000_000 {
        1_000_000
    } else if max > 100_000 {
        1_000
    } else {
        1
    }
}

/// The frequencies of a voltage-state table in MHz, without those below 100.
pub open spec fn voltage_state_freqs(data: Seq<u8>) -> Seq<u32> {
    let raw = raw_entries(data);
    let divisor = unit_divisor(largest(raw));
    raw.map_values(|v: u32| (v / divisor) as u32).filter(|mhz: u32| mhz >= 100)
}

fn read_le_word(data: &[u8], i: usize) -> (r: u32)
    requires
        i + 4 <= data.len(),
    ensures
        r == le_word(data@, i as int),
{
    data[i] as u32 + 0x100 * (data[i + 1] as u32) + 0x1_0000 * (data[i + 2] as u32) + 0x100_0000 * (
    data[i + 3] as u32)
}

/// Parses a voltage-state table into frequencies in MHz. Each 8-byte entry is a
/// little-endian frequency and a voltage; a partial entry at the end is ignored.
pub fn parse_voltage_states(data: &[u8]) -> (r: Vec<u32>)
    ensures
        r@ == voltage_state_freqs(data@),
{
    let n: usize = data.len() / 8;
    let mut raw: Vec<u32> = Vec::new();
    let mut max: u32 = 0;
    let mut i: usize = 0;
    while i < n
        invariant
            n == data.len() / 8,
            i <= n,
            raw@ == raw_entries(data@).take(i as int),
            max == largest(raw@),
        decreases n - i,
    {
        let f: u32 = read_le_word(data, 8 * i);
        if f > max {
            max = f;
        }
        raw.push(f);
        i += 1;
        proof {
            assert(raw@.drop_last() == raw_entries(data@).take(i - 1));
            assert(raw@ == raw_entries(data@).take(i as int));
        }
    }
    assert(raw@ == raw_entries(data@));
    let divisor: u32 = if max > 100_000_000 {
        1_000_000
    } else if max > 100_000 {
        1_000
    } else {
        1
    };
    let ghost scaled = raw@.map_values(|v: u32| (v / divisor) as u32);
    let ghost keep = |mhz: u32| mhz >= 100;
    let mut out: Vec<u32> = Vec::new();
    let mut k: usize = 0;
    assert(scaled.take(0).filter(keep) == Seq::<u32>::empty()) by {
        reveal(Seq::filter);
    }
    while k < raw.len()
        invariant
            divisor > 0,
            k <= raw.len(),
            scaled == raw@.map_values(|v: u32| (v / divisor) as u32),
            keep == (|mhz: u32| mhz >= 100),
            out@ == scaled.take(k as int).filter(keep),
        decreases raw.len() - k,
    {
        let mhz: u32 = raw[k] / divisor;
        if mhz >= 100 {
            out.push(mhz);
        }
        k += 1;
        proof {
            reveal(Seq::filter);
            assert(scaled.take(k as int).drop_last() == scaled.take(k - 1));
        }
    }
    assert(scaled.take(raw.len() as int) == scaled);
    out
}

/// Whether the words of these entries, lowest byte first, stand in the bytes of a table:
/// one word and a voltage of the same size for each entry.
pub open spec fn holds_entries(data: Seq<u8>, entries: Seq<u32>) -> bool {
    &&& entries.len() == data.len() / 8
    &&& forall|i: int|
        #![trigger entries[i]]
        0 <= i < entries.len() ==> {
            &&& data[8 * i] == entries[i] % 0x100
            &&& data[8 * i + 1] == entries[i] / 0x100 % 0x100
            &&& data[8 * i + 2] == entries[i] / 0x1_0000 % 0x100
            &&& data[8 * i + 3] == entries[i] / 0x100_0000
        }
}

proof fn lemma_entries(data: Seq<u8>, entries: Seq<u32>)
    requires
        holds_entries(data, entries),
    ensures
        raw_entries(data) == entries,
{
    assert forall|i: int| 0 <= i < entries.len() implies raw_entries(data)[i] == #[trigger] entries[i] by {
        let e = entries[i] as int;
        assert(e % 0x100 + 0x100 * (e / 0x100 % 0x100) + 0x1_0000 * (e / 0x1_0000 % 0x100)
            + 0x100_0000 * (e / 0x100_0000) == e);
    }
    assert(raw_entries(data) =~= entries);
}

proof fn lemma_largest(s: Seq<u32>, m: int)
    requires
        0 <= m < s.len(),
        forall|i: int| 0 <= i < s.len() ==> #[trigger] s[i] <= s[m],
    ensures
        largest(s) == s[m],
    decreases s.len(),
{
    let w = s.drop_last();
    assert(forall|i: int| 0 <= i < w.len() ==> #[trigger] w[i] == s[i]);
    if m < w.len() {
        lemma_largest(w, m);
        assert(s[s.len() - 1] <= s[m]);
    } else {
        lemma_largest_bound(w, s[m]);
    }
}

proof fn lemma_largest_bound(s: Seq<u32>, bound: u32)
    requires
        forall|i: int| 0 <= i < s.len() ==> #[trigger] s[i] <= bound,
    ensures
        largest(s) <= bound,
    decreases s.len(),
{
    if s.len() > 0 {
        let w = s.drop_last();
        assert(forall|i: int| 0 <= i < w.len() ==> #[trigger] w[i] == s[i]);
        lemma_largest_bound(w, bound);
        assert(s[s.len() - 1] <= bound);
    }
}

/// Dropping what is too low after scaling is dropping it before.
proof fn lemma_scaled(s: Seq<u32>, d: u32, floor: u32)
    requires
        d > 0,
        floor == 100 * d,
    ensures
        s.map_values(|v: u32| (v / d) as u32).filter(|mhz: u32| mhz >= 100) == s.filter(
            |v: u32| v >= floor,
        ).map_values(|v: u32| (v / d) as u32),
    decreases s.len(),
{
    reveal(Seq::filter);
    let scale = |v: u32| (v / d) as u32;
    let keep = |mhz: u32| mhz >= 100;
    let high = |v: u32| v >= floor;
    if s.len() > 0 {
        let w = s.drop_last();
        lemma_scaled(w, d, floor);
        let x = s.last();
        assert(s.map_values(scale).drop_last() =~= w.map_values(scale));
        let (xi, di) = (x as int, d as int);
        assert(xi / di >= 100 <==> xi >= 100 * di) by (nonlinear_arith)
            requires
                di > 0,
                xi >= 0,
        ;
        assert(s.map_values(scale).last() == scale(x));
        if high(x) {
            assert(w.filter(high).push(x).map_values(scale) =~= w.filter(high).map_values(
                scale,
            ).push(scale(x)));
        }
    } else {
        assert(s.map_values(scale) =~= Seq::<u32>::empty());
        assert(s.filter(high).map_values(scale) =~= Seq::<u32>::empty());
    }
}

proof fn lemma_kept(s: Seq<u32>, m: int, floor: u32)
    requires
        0 <= m < s.len(),
        s[m] >= floor,
    ensures
        s.filter(|v: u32| v >= floor).len() > 0,
{
    let high = |v: u32| v >= floor;
    s.lemma_filter_contains(high, m);
    assert(s.filter(high).contains(s[m]));
}

/// A table comes out in MHz, in order, without what is below 100 MHz: it is in Hz where
/// its largest entry is above 100 000 000, in kHz where that is above 100 000, and in
/// MHz else. The largest entry is always there where it is 100 MHz or more.
pub proof fn tables_come_out_in_mhz(data: Seq<u8>, entries: Seq<u32>, m: int)
    requires
        holds_entries(data, entries),
        0 <= m < entries.len(),
        forall|i: int| 0 <= i < entries.len() ==> #[trigger] entries[i] <= entries[m],
    ensures
        entries[m] > 100_000_000 ==> voltage_state_freqs(data) == entries.filter(
            |e: u32| e >= 100_000_000,
        ).map_values(|e: u32| (e / 1_000_000) as u32),
        100_000 < entries[m] <= 100_000_000 ==> voltage_state_freqs(data) == entries.filter(
            |e: u32| e >= 100_000,
        ).map_values(|e: u32| (e / 1_000) as u32),
        entries[m] <= 100_000 ==> voltage_state_freqs(data) == entries.filter(|e: u32| e >= 100),
        entries[m] >= 100 ==> voltage_state_freqs(data).len() > 0,
{
    lemma_entries(data, entries);
    lemma_largest(entries, m);
    if entries[m] > 100_000_000 {
        lemma_scaled(entries, 1_000_000, 100_000_000);
        lemma_kept(entries, m, 100_000_000);
    } else if entries[m] > 100_000 {
        lemma_scaled(entries, 1_000, 100_000);
        lemma_kept(entries, m, 100_000);
    } else {
        lemma_scaled(entries, 1, 100);
        let kept = entries.filter(|e: u32| e >= 100);
        assert(kept.map_values(|v: u32| (v / 1u32) as u32) =~= kept);
        if entries[m] >= 100 {
            lemma_kept(entries, m, 100);
        }
    }
}

/// The frequency tables of one registry node, as raw properties; empty where
/// the node lacks one.
pub struct DvfsNode {
    /// Efficiency cluster.
    pub ecpu: Vec<u8>,
    /// Performance cluster.
    pub pcpu: Vec<u8>,
    /// Second performance cluster of the largest chips.
    pub pcpu_second: Vec<u8>,
    pub gpu: Vec<u8>,
}

/// Frequency tables in MHz.
pub struct DvfsTables {
    pub ecpu: Vec<u32>,
    pub pcpu: Vec<u32>,
    pub gpu: Vec<u32>,
}

/// A table as it stands after a node: the node's own, where it has the property.
pub open spec fn after_property(before: Seq<u32>, data: Seq<u8>) -> Seq<u32> {
    if data.len() > 0 {
        voltage_state_freqs(data)
    } else {
        before
    }
}

/// The performance table of a node: the first cluster's or else the second's.
pub open spec fn node_pcpu(node: DvfsNode) -> Seq<u8> {
    if node.pcpu@.len() > 0 {
        node.pcpu@
    } else {
        node.pcpu_second@
    }
}

/// The tables (efficiency, performance, GPU) after the nodes from index `k` on,
/// starting from the given ones; once all three are filled no further node is
/// looked at.
pub open spec fn tables_from(
    nodes: Seq<DvfsNode>,
    k: int,
    e: Seq<u32>,
    p: Seq<u32>,
    g: Seq<u32>,
) -> (Seq<u32>, Seq<u32>, Seq<u32>)
    decreases nodes.len() - k,
{
    if k >= nodes.len() {
        (e, p, g)
    } else {
        let e1 = after_property(e, nodes[k].ecpu@);
        let p1 = after_property(p, node_pcpu(nodes[k]));
        let g1 = after_property(g, nodes[k].gpu@);
        if e1.len() > 0 && p1.len() > 0 && g1.len() > 0 {
            (e1, p1, g1)
        } else {
            tables_from(nodes, k + 1, e1, p1, g1)
        }
    }
}

/// The tables that the nodes give: efficiency, performance, GPU.
pub open spec fn dvfs_tables(nodes: Seq<DvfsNode>) -> (Seq<u32>, Seq<u32>, Seq<u32>) {
    tables_from(nodes, 0, Seq::empty(), Seq::empty(), Seq::empty())
}

/// Frequency tables from the registry nodes, in the order in which they are met.
pub fn read_dvfs_frequencies(nodes: &Vec<DvfsNode>) -> (r: DvfsTables)
    ensures
        (r.ecpu@, r.pcpu@, r.gpu@) == dvfs_tables(nodes@),
{
    let mut ecpu: Vec<u32> = Vec::new();
    let mut pcpu: Vec<u32> = Vec::new();
    let mut gpu: Vec<u32> = Vec::new();
    let mut k: usize = 0;
    while k < nodes.len()
        invariant
            k <= nodes.len(),
            tables_from(nodes@, k as int, ecpu@, pcpu@, gpu@) == dvfs_tables(nodes@),
        ensures
            (ecpu@, pcpu@, gpu@) == dvfs_tables(nodes@),
        decreases nodes.len() - k,
    {
        let node: &DvfsNode = &nodes[k];
        if node.ecpu.len() > 0 {
            ecpu = parse_voltage_states(node.ecpu.as_slice());
        }
        if node.pcpu.len() > 0 {
            pcpu = parse_voltage_states(node.pcpu.as_slice());
        } else if node.pcpu_second.len() > 0 {
            pcpu = parse_voltage_states(node.pcpu_second.as_slice());
        }
        if node.gpu.len() > 0 {
            gpu = parse_voltage_states(node.gpu.as_slice());
        }
        if ecpu.len() > 0 && pcpu.len() > 0 && gpu.len() > 0 {
            break;
        }
        k += 1;
    }
    DvfsTables { ecpu, pcpu, gpu }
}

proof fn lemma_tables_shift(
    nodes: Seq<DvfsNode>,
    more: Seq<DvfsNode>,
    k: int,
    e: Seq<u32>,
    p: Seq<u32>,
    g: Seq<u32>,
)
    requires
        0 <= k <= more.len(),
    ensures
        tables_from(nodes + more, nodes.len() + k, e, p, g) == tables_from(more, k, e, p, g),
    decreases more.len() - k,
{
    let all = nodes + more;
    if k < more.len() {
        assert(all[nodes.len() + k] == more[k]);
        let e1 = after_property(e, more[k].ecpu@);
        let p1 = after_property(p, node_pcpu(more[k]));
        let g1 = after_property(g, more[k].gpu@);
        lemma_tables_shift(nodes, more, k + 1, e1, p1, g1);
    }
}

/// A node that has all three tables gives them, whatever nodes follow: the efficiency
/// table from the property of that cluster, the performance table from its own or, where
/// that is lacking, from that of the second cluster, and the table of the graphics unit
/// from its own.
pub proof fn a_complete_node_gives_the_tables(node: DvfsNode, rest: Seq<DvfsNode>)
    requires
        voltage_state_freqs(node.ecpu@).len() > 0,
        voltage_state_freqs(node.gpu@).len() > 0,
        node.pcpu@.len() == 0 ==> voltage_state_freqs(node.pcpu_second@).len() > 0,
        node.pcpu@.len() > 0 ==> voltage_state_freqs(node.pcpu@).len() > 0,
    ensures
        dvfs_tables(seq![node] + rest).0 == voltage_state_freqs(node.ecpu@),
        node.pcpu@.len() > 0 ==> dvfs_tables(seq![node] + rest).1 == voltage_state_freqs(node.pcpu@),
        node.pcpu@.len() == 0 ==> dvfs_tables(seq![node] + rest).1 == voltage_state_freqs(
            node.pcpu_second@,
        ),
        dvfs_tables(seq![node] + rest).2 == voltage_state_freqs(node.gpu@),
{
    let all = seq![node] + rest;
    assert(all[0] == node);
    lemma_no_bytes_no_table(node.ecpu@);
    lemma_no_bytes_no_table(node.pcpu_second@);
    lemma_no_bytes_no_table(node.gpu@);
}

proof fn lemma_no_bytes_no_table(data: Seq<u8>)
    ensures
        data.len() == 0 ==> voltage_state_freqs(data).len() == 0,
{
    if data.len() == 0 {
        reveal(Seq::filter);
        assert(raw_entries(data) =~= Seq::<u32>::empty());
    }
}

/// A node that lacks a table is filled up by the next: of two nodes the second gives each
/// table that it has, and the first the others.
pub proof fn an_incomplete_node_is_filled_up(a: DvfsNode, b: DvfsNode)
    requires
        voltage_state_freqs(a.ecpu@).len() == 0 || voltage_state_freqs(a.gpu@).len() == 0 || (
        a.pcpu@.len() == 0 && a.pcpu_second@.len() == 0),
    ensures
        ({
            let (e, p, g) = dvfs_tables(seq![a, b]);
            &&& b.ecpu@.len() > 0 ==> e == voltage_state_freqs(b.ecpu@)
            &&& b.ecpu@.len() == 0 && a.ecpu@.len() > 0 ==> e == voltage_state_freqs(a.ecpu@)
            &&& b.pcpu@.len() > 0 ==> p == voltage_state_freqs(b.pcpu@)
            &&& b.pcpu@.len() == 0 && b.pcpu_second@.len() > 0 ==> p == voltage_state_freqs(
                b.pcpu_second@,
            )
            &&& b.pcpu@.len() == 0 && b.pcpu_second@.len() == 0 && a.pcpu@.len() > 0 ==> p
                == voltage_state_freqs(a.pcpu@)
            &&& b.gpu@.len() > 0 ==> g == voltage_state_freqs(b.gpu@)
            &&& b.gpu@.len() == 0 && a.gpu@.len() > 0 ==> g == voltage_state_freqs(a.gpu@)
        }),
{
    let all = seq![a, b];
    let none = Seq::<u32>::empty();
    assert(all[0] == a && all[1] == b);
    let e1 = after_property(none, a.ecpu@);
    let p1 = after_property(none, node_pcpu(a));
    let g1 = after_property(none, a.gpu@);
    assert(dvfs_tables(all) == tables_from(all, 1, e1, p1, g1));
    let e2 = after_property(e1, b.ecpu@);
    let p2 = after_property(p1, node_pcpu(b));
    let g2 = after_property(g1, b.gpu@);
    assert(tables_from(all, 2, e2, p2, g2) == (e2, p2, g2));
}

/// A node without any table is passed over.
pub proof fn nodes_without_tables_are_passed_over(node: DvfsNode, rest: Seq<DvfsNode>)
    requires
        node.ecpu@.len() == 0,
        node.pcpu@.len() == 0,
        node.pcpu_second@.len() == 0,
        node.gpu@.len() == 0,
    ensures
        dvfs_tables(seq![node] + rest) == dvfs_tables(rest),
{
    let none = Seq::<u32>::empty();
    let all = seq![node] + rest;
    assert(all[0] == node);
    lemma_tables_shift(seq![node], rest, 0, none, none, none);
}

// ── Configuration ────────────────────────────────────────────────────────────

/// One CPU performance level (cluster tier).
#[derive(Debug, Clone)]
pub struct PerfLevel {
    /// Human-readable name: `"Performance"`, `"Efficiency"`, `"Standard"`, etc.
    pub name: String,
    /// Physical core count.
    pub cores: u32,
    /// Operating frequencies in MHz. Empty if unknown.
    pub freqs_mhz: Vec<u32>,
}

/// SoC configuration.
#[derive(Debug, Clone)]
pub struct SocInfo {
    /// Marketing name, e.g. `"Apple M5"`.
    pub chip_name: String,
    /// Performance levels ordered highest to lowest.
    pub perf_levels: Vec<PerfLevel>,
    /// Number of GPU shader cores. Zero if unavailable.
    pub gpu_cores: u32,
    /// GPU P-state frequencies in MHz; index `i` maps to the `i`-th active
    /// P-state. Empty if unknown.
    pub gpu_freqs_mhz: Vec<u32>,
}

/// What the system reports of one performance level.
pub struct LevelProbe {
    pub name: Option<String>,
    pub cores: Option<u32>,
    /// The frequency table read as 64-bit words.
    pub freqs64: Vec<u64>,
    /// The frequency table read as 32-bit words.
    pub freqs32: Vec<u32>,
}

/// What the system reports of the SoC.
pub struct SystemProbe {
    pub chip_name: Option<String>,
    /// One entry for each level of [`level_count`].
    pub levels: Vec<LevelProbe>,
    pub gpu_cores: Option<u32>,
    pub dvfs: Vec<DvfsNode>,
}

/// Number of performance levels: the reported number, or two.
pub fn level_count(reported: Option<u32>) -> (r: usize)
    ensures
        r == (match reported {
            Some(n) => n,
            None => 2,
        }),
{
    match reported {
        Some(n) => n as usize,
        None => 2,
    }
}

/// Whether a frequency table of 32-bit words is in MHz already.
pub open spec fn in_mhz(freqs: Seq<u32>) -> bool {
    forall|k: int| 0 <= k < freqs.len() ==> #[trigger] freqs[k] < 100_000
}

/// The reported frequencies of a level in MHz. Words whose first is above
/// 100 000 are in Hz.
pub open spec fn reported_freqs(l: LevelProbe) -> Seq<u32> {
    if l.freqs64@.len() > 0 {
        let scale: u64 = if l.freqs64@[0] > 100_000 {
            1_000_000
        } else {
            1
        };
        l.freqs64@.map_values(|v: u64| ((v / scale) % 0x1_0000_0000) as u32)
    } else if in_mhz(l.freqs32@) {
        l.freqs32@
    } else {
        l.freqs32@.map_values(|v: u32| (v / 1_000_000) as u32)
    }
}

/// A table of 64-bit words whose first is above 100 000 is in Hz and comes out in whole
/// MHz; else it is in MHz and comes out as it is.
pub proof fn wide_tables_come_out_in_mhz(l: LevelProbe, k: int)
    requires
        0 <= k < l.freqs64@.len(),
    ensures
        reported_freqs(l).len() == l.freqs64@.len(),
        l.freqs64@[0] > 100_000 && l.freqs64@[k] < 4_000_000_000_000_000 ==> reported_freqs(l)[k]
            * 1_000_000 <= l.freqs64@[k] < (reported_freqs(l)[k] + 1) * 1_000_000,
        l.freqs64@[0] <= 100_000 && l.freqs64@[k] <= u32::MAX ==> reported_freqs(l)[k]
            == l.freqs64@[k],
{
}

/// A table of 32-bit words is in MHz where none reaches 100 000, and comes out as it is;
/// else it is in Hz and comes out in whole MHz.
pub proof fn narrow_tables_come_out_in_mhz(l: LevelProbe, k: int, j: int)
    requires
        l.freqs64@.len() == 0,
        0 <= k < l.freqs32@.len(),
        0 <= j < l.freqs32@.len(),
    ensures
        reported_freqs(l).len() == l.freqs32@.len(),
        l.freqs32@[j] >= 100_000 ==> reported_freqs(l)[k] * 1_000_000 <= l.freqs32@[k] < (
        reported_freqs(l)[k] + 1) * 1_000_000,
        (forall|i: int| 0 <= i < l.freqs32@.len() ==> #[trigger] l.freqs32@[i] < 100_000)
            ==> reported_freqs(l) == l.freqs32@,
{
    if l.freqs32@[j] >= 100_000 {
        assert(!in_mhz(l.freqs32@));
    }
}

/// A level keeps what is reported of it; else the first takes the performance table, the
/// last the efficiency table, and a single level the one that there is.
pub proof fn levels_take_their_tables(
    i: int,
    n: int,
    reported: Seq<u32>,
    ecpu: Seq<u32>,
    pcpu: Seq<u32>,
)
    requires
        0 <= i < n,
    ensures
        reported.len() > 0 ==> level_freqs(i, n, reported, ecpu, pcpu) == reported,
        reported.len() == 0 && i == 0 && pcpu.len() > 0 ==> level_freqs(i, n, reported, ecpu, pcpu)
            == pcpu,
        reported.len() == 0 && 0 < i && i == n - 1 ==> level_freqs(i, n, reported, ecpu, pcpu)
            == ecpu,
        reported.len() == 0 && n == 1 && pcpu.len() == 0 ==> level_freqs(
            i,
            n,
            reported,
            ecpu,
            pcpu,
        ) == ecpu,
        reported.len() == 0 && 0 < i < n - 1 ==> level_freqs(i, n, reported, ecpu, pcpu).len() == 0,
{
}

/// The frequencies of the `i`th of `n` levels: the reported ones; where there
/// are none, the first level takes the performance table, and the last level,
/// where it is still empty, the efficiency table.
pub open spec fn level_freqs(i: int, n: int, reported: Seq<u32>, ecpu: Seq<u32>, pcpu: Seq<u32>) -> Seq<
    u32,
> {
    let first = if i == 0 && reported.len() == 0 {
        pcpu
    } else {
        reported
    };
    if i == n - 1 && first.len() == 0 {
        ecpu
    } else {
        first
    }
}

/// The reported text, or the given one.
pub open spec fn text_or(reported: Option<String>, otherwise: Seq<char>) -> Seq<char> {
    match reported {
        Some(s) => s@,
        None => otherwise,
    }
}

/// What was reported, 0 for nothing.
pub open spec fn number_or_zero(reported: Option<u32>) -> u32 {
    match reported {
        Some(n) => n,
        None => 0,
    }
}

/// Whether `level` is what the `i`th probed level of `probe` gives.
pub open spec fn is_level(level: PerfLevel, probe: SystemProbe, i: int) -> bool {
    let l = probe.levels@[i];
    &&& level.name@ == text_or(l.name, "Level"@ + dec(i as nat))
    &&& level.cores == number_or_zero(l.cores)
    &&& level.freqs_mhz@ == level_freqs(
        i,
        probe.levels@.len() as int,
        reported_freqs(l),
        dvfs_tables(probe.dvfs@).0,
        dvfs_tables(probe.dvfs@).1,
    )
}

fn convert_freqs(l: &LevelProbe) -> (r: Vec<u32>)
    ensures
        r@ == reported_freqs(*l),
{
    let mut out: Vec<u32> = Vec::new();
    if l.freqs64.len() > 0 {
        let scale: u64 = if l.freqs64[0] > 100_000 {
            1_000_000
        } else {
            1
        };
        let mut k: usize = 0;
        while k < l.freqs64.len()
            invariant
                scale > 0,
                k <= l.freqs64.len(),
                out.len() == k,
                forall|j: int|
                    0 <= j < k ==> #[trigger] out@[j] == (l.freqs64@[j] / scale) % 0x1_0000_0000,
            decreases l.freqs64.len() - k,
        {
            out.push(((l.freqs64[k] / scale) % 0x1_0000_0000) as u32);
            k += 1;
        }
        return out;
    }
    let mut mhz: bool = true;
    let mut k: usize = 0;
    while k < l.freqs32.len()
        invariant
            k <= l.freqs32.len(),
            mhz == in_mhz(l.freqs32@.take(k as int)),
        decreases l.freqs32.len() - k,
    {
        if l.freqs32[k] >= 100_000 {
            mhz = false;
        }
        k += 1;
        proof {
            assert(l.freqs32@.take(k as int)[k - 1] == l.freqs32@[k - 1]);
            assert(forall|j: int|
                0 <= j < k - 1 ==> l.freqs32@.take(k as int)[j] == #[trigger] l.freqs32@.take(k - 1)[j]);
            if in_mhz(l.freqs32@.take(k as int)) {
                assert forall|j: int| 0 <= j < k - 1 implies #[trigger] l.freqs32@.take(k - 1)[j]
                    < 100_000 by {
                    assert(l.freqs32@.take(k as int)[j] < 100_000);
                }
            }
        }
    }
    assert(l.freqs32@.take(k as int) == l.freqs32@);
    let scale: u32 = if mhz {
        1
    } else {
        1_000_000
    };
    let mut k: usize = 0;
    while k < l.freqs32.len()
        invariant
            scale > 0,
            k <= l.freqs32.len(),
            out.len() == k,
            forall|j: int| 0 <= j < k ==> #[trigger] out@[j] == l.freqs32@[j] / scale,
        decreases l.freqs32.len() - k,
    {
        out.push(l.freqs32[k] / scale);
        k += 1;
    }
    out
}

/// A copy of a frequency table.
pub fn copy_words(v: &Vec<u32>) -> (r: Vec<u32>)
    ensures
        r@ == v@,
{
    let mut out: Vec<u32> = Vec::new();
    let mut k: usize = 0;
    while k < v.len()
        invariant
            k <= v.len(),
            out@ == v@.take(k as int),
        decreases v.len() - k,
    {
        out.push(v[k]);
        k += 1;
        assert(v@.take(k as int) == v@.take(k - 1).push(v@[k - 1]));
    }
    assert(v@.take(k as int) == v@);
    out
}

impl SocInfo {
    /// The configuration that the system reports, with a default for all that
    /// it does not report.
    pub fn from_system(probe: &SystemProbe) -> (r: Self)
        ensures
            r.chip_name@ == text_or(probe.chip_name, "Apple Silicon"@),
            r.perf_levels@.len() == probe.levels@.len(),
            forall|i: int|
                0 <= i < r.perf_levels@.len() ==> is_level(#[trigger] r.perf_levels@[i], *probe, i),
            r.gpu_cores == number_or_zero(probe.gpu_cores),
            r.gpu_freqs_mhz@ == dvfs_tables(probe.dvfs@).2,
    {
        let chip_name: String = match &probe.chip_name {
            Some(s) => s.clone(),
            None => "Apple Silicon".to_string(),
        };
        let tables = read_dvfs_frequencies(&probe.dvfs);
        let n: usize = probe.levels.len();
        let mut levels: Vec<PerfLevel> = Vec::new();
        let mut i: usize = 0;
        while i < n
            invariant
                n == probe.levels.len(),
                i <= n,
                levels.len() == i,
                (tables.ecpu@, tables.pcpu@, tables.gpu@) == dvfs_tables(probe.dvfs@),
                forall|k: int| 0 <= k < i ==> is_level(#[trigger] levels@[k], *probe, k),
            decreases n - i,
        {
            let l: &LevelProbe = &probe.levels[i];
            let name: String = match &l.name {
                Some(s) => s.clone(),
                None => {
                    let mut s: String = "Level".to_string();
                    push_dec(&mut s, i as u64);
                    s
                },
            };
            let cores: u32 = match l.cores {
                Some(c) => c,
                None => 0,
            };
            let mut freqs_mhz: Vec<u32> = convert_freqs(l);
            if i == 0 && freqs_mhz.len() == 0 {
                freqs_mhz = copy_words(&tables.pcpu);
            }
            if i == n - 1 && freqs_mhz.len() == 0 {
                freqs_mhz = copy_words(&tables.ecpu);
            }
            levels.push(PerfLevel { name, cores, freqs_mhz });
            i += 1;
        }
        let gpu_cores: u32 = match probe.gpu_cores {
            Some(c) => c,
            None => 0,
        };
        SocInfo { chip_name, perf_levels: levels, gpu_cores, gpu_freqs_mhz: tables.gpu }
    }

    /// Highest-performance cluster.
    pub fn pcpu_level(&self) -> (r: Option<&PerfLevel>)
        ensures
            r == (if self.perf_levels@.len() > 0 { Some(&self.perf_levels@[0]) } else { None }),
    {
        if self.perf_levels.len() > 0 {
            Some(&self.perf_levels[0])
        } else {
            None
        }
    }

    /// Efficiency cluster (lowest tier).
    pub fn ecpu_level(&self) -> (r: Option<&PerfLevel>)
        ensures
            r == (if self.perf_levels@.len() > 0 { Some(&self.perf_levels@.last()) } else { None }),
    {
        if self.perf_levels.len() > 0 {
            Some(&self.perf_levels[self.perf_levels.len() - 1])
        } else {
            None
        }
    }

    /// Total CPU count across all clusters.
    pub fn total_cores(&self) -> (r: u32)
        requires
            core_sum(self.perf_levels@) <= u32::MAX,
        ensures
            r == core_sum(self.perf_levels@),
    {
        let mut sum: u32 = 0;
        let mut i: usize = 0;
        while i < self.perf_levels.len()
            invariant
                i <= self.perf_levels.len(),
                sum == core_sum(self.perf_levels@.take(i as int)),
                core_sum(self.perf_levels@) <= u32::MAX,
            decreases self.perf_levels.len() - i,
        {
            proof {
                lemma_core_sum_grows(self.perf_levels@, i + 1);
                assert(self.perf_levels@.take(i + 1).drop_last() == self.perf_levels@.take(i as int));
            }
            sum += self.perf_levels[i].cores;
            i += 1;
        }
        assert(self.perf_levels@.take(i as int) == self.perf_levels@);
        sum
    }
}

/// The cores of all levels together.
pub open spec fn core_sum(levels: Seq<PerfLevel>) -> nat
    decreases levels.len(),
{
    if levels.len() == 0 {
        0
    } else {
        core_sum(levels.drop_last()) + levels.last().cores as nat
    }
}

proof fn lemma_core_sum_grows(levels: Seq<PerfLevel>, i: int)
    requires
        0 <= i <= levels.len(),
    ensures
        core_sum(levels.take(i)) <= core_sum(levels),
    decreases levels.len() - i,
{
    if i < levels.len() {
        lemma_core_sum_grows(levels, i + 1);
        assert(levels.take(i + 1).drop_last() == levels.take(i));
    } else {
        assert(levels.take(i) == levels);
    }
}

// ── Probing unknown chips ────────────────────────────────────────────────────

/// Number of properties that are tried on each node.
pub const CANDIDATES: usize = 30;

/// The `k`th property that may hold a frequency table.
pub open spec fn candidate_name(k: int) -> Seq<char> {
    if k % 2 == 0 {
        "voltage-states"@ + dec((k / 2 + 1) as nat) + "-sram"@
    } else {
        "voltage-states"@ + dec((k / 2 + 1) as nat)
    }
}

/// The properties that may hold a frequency table, in the order in which they
/// are tried.
pub fn candidate_properties() -> (r: Vec<String>)
    ensures
        r@.len() == CANDIDATES,
        forall|k: int| 0 <= k < CANDIDATES ==> (#[trigger] r@[k])@ == candidate_name(k),
{
    let mut r: Vec<String> = Vec::new();
    let mut k: usize = 0;
    while k < CANDIDATES
        invariant
            k <= CANDIDATES,
            r.len() == k,
            forall|j: int| 0 <= j < k ==> (#[trigger] r@[j])@ == candidate_name(j),
        decreases CANDIDATES - k,
    {
        let mut s: String = "voltage-states".to_string();
        push_dec(&mut s, (k / 2 + 1) as u64);
        if k % 2 == 0 {
            s.append("-sram");
        }
        r.push(s);
        k += 1;
    }
    r
}

/// The numbers with commas between them.
pub open spec fn comma_list(v: Seq<u32>) -> Seq<char>
    decreases v.len(),
{
    if v.len() == 0 {
        Seq::empty()
    } else if v.len() == 1 {
        dec(v[0] as nat)
    } else {
        comma_list(v.drop_last()) + ", "@ + dec(v.last() as nat)
    }
}

fn push_comma_list(out: &mut String, v: &Vec<u32>)
    ensures
        final(out)@ == old(out)@ + comma_list(v@),
{
    let ghost before = out@;
    let mut i: usize = 0;
    assert(before + Seq::<char>::empty() == before);
    while i < v.len()
        invariant
            i <= v.len(),
            out@ == before + comma_list(v@.take(i as int)),
        decreases v.len() - i,
    {
        broadcast use concat_assoc;

        proof {
            assert(v@.take(i + 1).drop_last() == v@.take(i as int));
            if i == 0 {
                assert(before + Seq::<char>::empty() == before);
            }
        }
        if i > 0 {
            out.append(", ");
        }
        push_dec(out, v[i] as u64);
        i += 1;
    }
    assert(v@.take(i as int) == v@);
}

/// What is reported of a property that a node has: its size and, where it is
/// one, the frequency table that it holds.
pub open spec fn property_line(node: nat, name: Seq<char>, data: Seq<u8>) -> Seq<char> {
    let freqs = voltage_state_freqs(data);
    let head = "  node "@ + dec(node) + ": "@ + name + " ("@ + dec(data.len());
    if freqs.len() > 0 {
        head + " bytes, "@ + dec(freqs.len()) + " freqs): ["@ + comma_list(freqs) + "]"@
    } else {
        head + " bytes, could not parse as freq table)"@
    }
}

/// The lines on the first `k` properties of a node.
pub open spec fn node_report(node: nat, data: Seq<Vec<u8>>, k: int) -> Seq<Seq<char>>
    decreases k,
{
    if k <= 0 {
        Seq::empty()
    } else if data[k - 1]@.len() == 0 {
        node_report(node, data, k - 1)
    } else {
        node_report(node, data, k - 1).push(property_line(node, candidate_name(k - 1), data[k - 1]@))
    }
}

/// One line for each property of a node that is present, given the contents of
/// all [`candidate_properties`] of that node.
pub fn probe_voltage_state_properties(node: u64, data: &Vec<Vec<u8>>) -> (r: Vec<String>)
    requires
        data@.len() == CANDIDATES,
    ensures
        texts(r@) == node_report(node as nat, data@, CANDIDATES as int),
{
    let names = candidate_properties();
    let mut r: Vec<String> = Vec::new();
    let mut k: usize = 0;
    while k < CANDIDATES
        invariant
            k <= CANDIDATES,
            data@.len() == CANDIDATES,
            names@.len() == CANDIDATES,
            forall|j: int| 0 <= j < CANDIDATES ==> (#[trigger] names@[j])@ == candidate_name(j),
            texts(r@) == node_report(node as nat, data@, k as int),
        decreases CANDIDATES - k,
    {
        let d: &Vec<u8> = &data[k];
        if d.len() > 0 {
            let freqs = parse_voltage_states(d.as_slice());
            let mut line: String = "  node ".to_string();
            push_dec(&mut line, node);
            line.append(": ");
            line.append(&names[k]);
            line.append(" (");
            push_dec(&mut line, d.len() as u64);
            if freqs.len() > 0 {
                line.append(" bytes, ");
                push_dec(&mut line, freqs.len() as u64);
                line.append(" freqs): [");
                push_comma_list(&mut line, &freqs);
                line.append("]");
            } else {
                line.append(" bytes, could not parse as freq table)");
            }
            let ghost before = texts(r@);
            let ghost text = line@;
            r.push(line);
            assert(texts(r@) == before.push(text));
        }
        k += 1;
    }
    r
}

/// The cores of a machine are those of its levels together.
pub proof fn cores_add_up(levels: Seq<PerfLevel>, level: PerfLevel)
    ensures
        core_sum(levels.push(level)) == core_sum(levels) + level.cores,
        core_sum(Seq::empty()) == 0,
{
    assert(levels.push(level).drop_last() =~= levels);
}

/// The tables that are tried are numbered from one, each with its variant for memory
/// before it.
pub proof fn candidates_come_in_pairs(n: nat)
    ensures
        candidate_name(2 * n as int) == "voltage-states"@ + dec(n + 1) + "-sram"@,
        candidate_name(2 * n as int + 1) == "voltage-states"@ + dec(n + 1),
{
}

/// Numbers are listed in their order, with a comma and a space between two of them.
pub proof fn numbers_are_listed_in_order(v: Seq<u32>, n: u32)
    ensures
        v.len() > 0 ==> comma_list(v.push(n)) == comma_list(v) + ", "@ + dec(n as nat),
        comma_list(seq![n]) == dec(n as nat),
        comma_list(Seq::empty()).len() == 0,
{
    assert(v.push(n).drop_last() =~= v);
}

} // verus!
