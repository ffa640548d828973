//! What a collector reads from an agent's snapshot.
use vstd::prelude::*;

use crate::calendar::{every_day_has_a_date, is_date_of, utc_text};
use crate::json::walk_flat_object;
use crate::json::{
    ends_value, escaped, field_pairs, lemma_escaped_no_quote, object_text, objects_are_read_back,
    pair_texts, readable, text_or_null, walked, Field,
};
use crate::sampler::{ClusterMetrics, Metrics};
use crate::serialize::AgentInfo;
use crate::serialize::metrics_fields;
use crate::memory::{MemoryInfo, SwapInfo};
use crate::text::{parse_uint, same};
use crate::text::{dec, dec_parses_back, is_digit, lemma_dec, pad_left, parsed_uint};

verus! {

// ── Fields by name ───────────────────────────────────────────────────────────

/// The value of the last field named `key`.
pub open spec fn last_value(pairs: Seq<(Seq<char>, Seq<char>)>, key: Seq<char>) -> Option<Seq<char>>
    decreases pairs.len(),
{
    if pairs.len() == 0 {
        None
    } else if pairs.last().0 == key {
        Some(pairs.last().1)
    } else {
        last_value(pairs.drop_last(), key)
    }
}

/// The text of a field; empty if it is missing.
pub open spec fn text_in(pairs: Seq<(Seq<char>, Seq<char>)>, key: Seq<char>) -> Seq<char> {
    match last_value(pairs, key) {
        Some(v) => v,
        None => Seq::empty(),
    }
}

/// The number of a field; zero if it is missing or holds no number up to `max`.
pub open spec fn number_in(pairs: Seq<(Seq<char>, Seq<char>)>, key: Seq<char>, max: nat) -> nat {
    match last_value(pairs, key) {
        Some(v) => match parsed_uint(v, max) {
            Ok(n) => n,
            Err(_) => 0,
        },
        None => 0,
    }
}

fn find_last<'a>(pairs: &'a Vec<(String, String)>, key: &str) -> (r: Option<&'a String>)
    ensures
        match r {
            Some(v) => last_value(pair_texts(pairs@), key@) == Some(v@),
            None => last_value(pair_texts(pairs@), key@) is None,
        },
{
    let ghost texts = pair_texts(pairs@);
    let mut i: usize = pairs.len();
    assert(texts.take(i as int) == texts);
    while i > 0
        invariant
            i <= pairs.len(),
            texts == pair_texts(pairs@),
            last_value(texts.take(i as int), key@) == last_value(texts, key@),
        decreases i,
    {
        proof {
            assert(texts.take(i as int).drop_last() == texts.take(i - 1));
            assert(texts.take(i as int).last() == (pairs@[i - 1].0@, pairs@[i - 1].1@));
        }
        if same(&pairs[i - 1].0, key) {
            return Some(&pairs[i - 1].1);
        }
        i -= 1;
    }
    assert(texts.take(0).len() == 0);
    None
}

fn text_value(pairs: &Vec<(String, String)>, key: &str) -> (r: String)
    ensures
        r@ == text_in(pair_texts(pairs@), key@),
{
    match find_last(pairs, key) {
        Some(v) => v.clone(),
        None => String::new(),
    }
}

fn number_of(pairs: &Vec<(String, String)>, key: &str, max: u64) -> (r: u64)
    ensures
        r == number_in(pair_texts(pairs@), key@, max as nat),
        r <= max,
{
    match find_last(pairs, key) {
        Some(v) => match parse_uint(v, max) {
            Ok(n) => n,
            Err(_) => 0,
        },
        None => 0,
    }
}

// ── Samples ──────────────────────────────────────────────────────────────────

/// Typed view of one agent snapshot. `F` is the type of measured quantities and
/// `T` that of temperatures, which may be absent.
#[derive(Debug, Clone)]
pub struct ParsedSample<F, T> {
    pub chip: String,
    pub hostname: String,
    pub sys_power: F,
    pub cpu_power: F,
    pub gpu_power: F,
    pub ane_power: F,
    pub dram_power: F,
    pub ecpu_util: F,
    pub pcpu_util: F,
    pub gpu_util: F,
    pub ecpu_freq_mhz: u32,
    pub pcpu_freq_mhz: u32,
    pub gpu_freq_mhz: u32,
    pub cpu_temp_c: T,
    pub gpu_temp_c: T,
    pub fan_rpm: u32,
    pub fan_max_rpm: u32,
    pub memory_used_bytes: u64,
    pub memory_total_bytes: u64,
    pub swap_used_bytes: u64,
    pub swap_total_bytes: u64,
}

/// Reads an agent's snapshot. Whole numbers are parsed, and are zero if missing or
/// malformed; measured quantities are handed on as they are written, empty if
/// missing.
pub fn parse_sample(json: &str) -> (r: ParsedSample<String, String>)
    ensures
        r.chip@ == text_in(walked(json@, 0), "chip"@),
        r.hostname@ == text_in(walked(json@, 0), "hostname"@),
        r.sys_power@ == text_in(walked(json@, 0), "sys_power"@),
        r.cpu_power@ == text_in(walked(json@, 0), "cpu_power"@),
        r.gpu_power@ == text_in(walked(json@, 0), "gpu_power"@),
        r.ane_power@ == text_in(walked(json@, 0), "ane_power"@),
        r.dram_power@ == text_in(walked(json@, 0), "dram_power"@),
        r.ecpu_util@ == text_in(walked(json@, 0), "ecpu_util"@),
        r.pcpu_util@ == text_in(walked(json@, 0), "pcpu_util"@),
        r.gpu_util@ == text_in(walked(json@, 0), "gpu_util"@),
        r.ecpu_freq_mhz == number_in(walked(json@, 0), "ecpu_freq_mhz"@, u32::MAX as nat),
        r.pcpu_freq_mhz == number_in(walked(json@, 0), "pcpu_freq_mhz"@, u32::MAX as nat),
        r.gpu_freq_mhz == number_in(walked(json@, 0), "gpu_freq_mhz"@, u32::MAX as nat),
        r.cpu_temp_c@ == text_in(walked(json@, 0), "cpu_temp_c"@),
        r.gpu_temp_c@ == text_in(walked(json@, 0), "gpu_temp_c"@),
        r.fan_rpm == number_in(walked(json@, 0), "fan_rpm"@, u32::MAX as nat),
        r.fan_max_rpm == number_in(walked(json@, 0), "fan_max_rpm"@, u32::MAX as nat),
        r.memory_used_bytes == number_in(walked(json@, 0), "memory_used_bytes"@, u64::MAX as nat),
        r.memory_total_bytes == number_in(walked(json@, 0), "memory_total_bytes"@, u64::MAX as nat),
        r.swap_used_bytes == number_in(walked(json@, 0), "swap_used_bytes"@, u64::MAX as nat),
        r.swap_total_bytes == number_in(walked(json@, 0), "swap_total_bytes"@, u64::MAX as nat),
{
    let pairs = walk_flat_object(json);
    ParsedSample {
        chip: text_value(&pairs, "chip"),
        hostname: text_value(&pairs, "hostname"),
        sys_power: text_value(&pairs, "sys_power"),
        cpu_power: text_value(&pairs, "cpu_power"),
        gpu_power: text_value(&pairs, "gpu_power"),
        ane_power: text_value(&pairs, "ane_power"),
        dram_power: text_value(&pairs, "dram_power"),
        ecpu_util: text_value(&pairs, "ecpu_util"),
        pcpu_util: text_value(&pairs, "pcpu_util"),
        gpu_util: text_value(&pairs, "gpu_util"),
        ecpu_freq_mhz: number_of(&pairs, "ecpu_freq_mhz", 0xffff_ffff) as u32,
        pcpu_freq_mhz: number_of(&pairs, "pcpu_freq_mhz", 0xffff_ffff) as u32,
        gpu_freq_mhz: number_of(&pairs, "gpu_freq_mhz", 0xffff_ffff) as u32,
        cpu_temp_c: text_value(&pairs, "cpu_temp_c"),
        gpu_temp_c: text_value(&pairs, "gpu_temp_c"),
        fan_rpm: number_of(&pairs, "fan_rpm", 0xffff_ffff) as u32,
        fan_max_rpm: number_of(&pairs, "fan_max_rpm", 0xffff_ffff) as u32,
        memory_used_bytes: number_of(&pairs, "memory_used_bytes", 0xffff_ffff_ffff_ffff),
        memory_total_bytes: number_of(&pairs, "memory_total_bytes", 0xffff_ffff_ffff_ffff),
        swap_used_bytes: number_of(&pairs, "swap_used_bytes", 0xffff_ffff_ffff_ffff),
        swap_total_bytes: number_of(&pairs, "swap_total_bytes", 0xffff_ffff_ffff_ffff),
    }
}

/// A sample as metrics. What an agent does not publish is `zero`.
pub fn parsed_to_metrics<F: Copy>(p: &ParsedSample<F, Option<F>>, zero: F) -> (r: Metrics<F>)
    ensures
        r.sys_power == p.sys_power,
        r.cpu_power == p.cpu_power,
        r.gpu_power == p.gpu_power,
        r.ane_power == p.ane_power,
        r.dram_power == p.dram_power,
        r.all_power == zero,
        r.ecpu == (ClusterMetrics { freq_mhz: p.ecpu_freq_mhz, utilization: p.ecpu_util }),
        r.pcpu == (ClusterMetrics { freq_mhz: p.pcpu_freq_mhz, utilization: p.pcpu_util }),
        r.gpu_util == p.gpu_util,
        r.gpu_freq_mhz == p.gpu_freq_mhz,
        r.cpu_temp == p.cpu_temp_c,
        r.gpu_temp == p.gpu_temp_c,
        r.fan_rpm == p.fan_rpm,
        r.fan_max_rpm == p.fan_max_rpm,
        r.memory == (MemoryInfo {
            total: p.memory_total_bytes,
            used: p.memory_used_bytes,
            available: 0,
            wired: 0,
            compressed: 0,
        }),
        r.swap == (SwapInfo { total: p.swap_total_bytes, used: p.swap_used_bytes, free: 0 }),
        r.interval_ms == zero,
{
    Metrics {
        ecpu: ClusterMetrics { freq_mhz: p.ecpu_freq_mhz, utilization: p.ecpu_util },
        pcpu: ClusterMetrics { freq_mhz: p.pcpu_freq_mhz, utilization: p.pcpu_util },
        gpu_util: p.gpu_util,
        gpu_freq_mhz: p.gpu_freq_mhz,
        cpu_power: p.cpu_power,
        gpu_power: p.gpu_power,
        ane_power: p.ane_power,
        dram_power: p.dram_power,
        all_power: zero,
        sys_power: p.sys_power,
        memory: MemoryInfo {
            total: p.memory_total_bytes,
            used: p.memory_used_bytes,
            available: 0,
            wired: 0,
            compressed: 0,
        },
        swap: SwapInfo { total: p.swap_total_bytes, used: p.swap_used_bytes, free: 0 },
        cpu_temp: p.cpu_temp_c,
        gpu_temp: p.gpu_temp_c,
        fan_rpm: p.fan_rpm,
        fan_max_rpm: p.fan_max_rpm,
        interval_ms: zero,
    }
}

// ── What an agent writes, a collector reads ──────────────────────────────────

/// The snapshot that an agent writes.
pub open spec fn written(m: Metrics<String>, info: AgentInfo, secs: u64) -> Seq<char> {
    object_text(metrics_fields(m, info, secs))
}

/// Whether a text can stand as a number does: not empty, without a quote in front,
/// and without what ends a value.
pub open spec fn numeral(s: Seq<char>) -> bool {
    s.len() > 0 && s[0] != '"' && forall|k: int| 0 <= k < s.len() ==> !ends_value(#[trigger] s[k])
}

/// Whether all measured quantities are written as numbers.
pub open spec fn numerals(m: Metrics<String>) -> bool {
    &&& numeral(m.sys_power@) && numeral(m.cpu_power@) && numeral(m.gpu_power@)
    &&& numeral(m.ane_power@) && numeral(m.dram_power@) && numeral(m.all_power@)
    &&& numeral(m.ecpu.utilization@) && numeral(m.pcpu.utilization@) && numeral(m.gpu_util@)
    &&& m.cpu_temp matches Some(t) ==> numeral(t@)
    &&& m.gpu_temp matches Some(t) ==> numeral(t@)
}

proof fn lemma_unique_key(pairs: Seq<(Seq<char>, Seq<char>)>, i: int)
    requires
        0 <= i < pairs.len(),
        forall|a: int, b: int|
            #![trigger pairs[a], pairs[b]]
            0 <= a < b < pairs.len() ==> pairs[a].0 != pairs[b].0,
    ensures
        last_value(pairs, pairs[i].0) == Some(pairs[i].1),
    decreases pairs.len(),
{
    if i < pairs.len() - 1 {
        assert(pairs[i].0 != pairs[pairs.len() - 1].0);
        let rest = pairs.drop_last();
        assert forall|a: int, b: int|
            #![trigger rest[a], rest[b]]
            0 <= a < b < rest.len() implies rest[a].0 != rest[b].0 by {
            assert(rest[a] == pairs[a] && rest[b] == pairs[b]);
        }
        lemma_unique_key(rest, i);
    }
}

proof fn lemma_keys_distinct(pairs: Seq<(Seq<char>, Seq<char>)>)
    requires
        pairs.len() == 28,
        pairs[0].0 == "timestamp"@,
        pairs[1].0 == "version"@,
        pairs[2].0 == "hostname"@,
        pairs[3].0 == "chip"@,
        pairs[4].0 == "pcpu_cores"@,
        pairs[5].0 == "ecpu_cores"@,
        pairs[6].0 == "gpu_cores"@,
        pairs[7].0 == "interval_ms"@,
        pairs[8].0 == "sys_power"@,
        pairs[9].0 == "cpu_power"@,
        pairs[10].0 == "gpu_power"@,
        pairs[11].0 == "ane_power"@,
        pairs[12].0 == "dram_power"@,
        pairs[13].0 == "all_power"@,
        pairs[14].0 == "ecpu_util"@,
        pairs[15].0 == "ecpu_freq_mhz"@,
        pairs[16].0 == "pcpu_util"@,
        pairs[17].0 == "pcpu_freq_mhz"@,
        pairs[18].0 == "gpu_util"@,
        pairs[19].0 == "gpu_freq_mhz"@,
        pairs[20].0 == "cpu_temp_c"@,
        pairs[21].0 == "gpu_temp_c"@,
        pairs[22].0 == "fan_rpm"@,
        pairs[23].0 == "fan_max_rpm"@,
        pairs[24].0 == "memory_used_bytes"@,
        pairs[25].0 == "memory_total_bytes"@,
        pairs[26].0 == "swap_used_bytes"@,
        pairs[27].0 == "swap_total_bytes"@,
    ensures
        forall|a: int, b: int|
            #![trigger pairs[a], pairs[b]]
            0 <= a < b < pairs.len() ==> pairs[a].0 != pairs[b].0,
{
    reveal_strlit("timestamp");
    reveal_strlit("version");
    reveal_strlit("hostname");
    reveal_strlit("chip");
    reveal_strlit("pcpu_cores");
    reveal_strlit("ecpu_cores");
    reveal_strlit("gpu_cores");
    reveal_strlit("interval_ms");
    reveal_strlit("sys_power");
    reveal_strlit("cpu_power");
    reveal_strlit("gpu_power");
    reveal_strlit("ane_power");
    reveal_strlit("dram_power");
    reveal_strlit("all_power");
    reveal_strlit("ecpu_util");
    reveal_strlit("ecpu_freq_mhz");
    reveal_strlit("pcpu_util");
    reveal_strlit("pcpu_freq_mhz");
    reveal_strlit("gpu_util");
    reveal_strlit("gpu_freq_mhz");
    reveal_strlit("cpu_temp_c");
    reveal_strlit("gpu_temp_c");
    reveal_strlit("fan_rpm");
    reveal_strlit("fan_max_rpm");
    reveal_strlit("memory_used_bytes");
    reveal_strlit("memory_total_bytes");
    reveal_strlit("swap_used_bytes");
    reveal_strlit("swap_total_bytes");
    assert("timestamp"@[0] != "gpu_cores"@[0]);
    assert("timestamp"@[0] != "sys_power"@[0]);
    assert("timestamp"@[0] != "cpu_power"@[0]);
    assert("timestamp"@[0] != "gpu_power"@[0]);
    assert("timestamp"@[0] != "ane_power"@[0]);
    assert("timestamp"@[0] != "all_power"@[0]);
    assert("timestamp"@[0] != "ecpu_util"@[0]);
    assert("timestamp"@[0] != "pcpu_util"@[0]);
    assert("version"@[0] != "fan_rpm"@[0]);
    assert("hostname"@[0] != "gpu_util"@[0]);
    assert("pcpu_cores"@[0] != "ecpu_cores"@[0]);
    assert("pcpu_cores"@[0] != "dram_power"@[0]);
    assert("pcpu_cores"@[0] != "cpu_temp_c"@[0]);
    assert("pcpu_cores"@[0] != "gpu_temp_c"@[0]);
    assert("ecpu_cores"@[0] != "dram_power"@[0]);
    assert("ecpu_cores"@[0] != "cpu_temp_c"@[0]);
    assert("ecpu_cores"@[0] != "gpu_temp_c"@[0]);
    assert("gpu_cores"@[0] != "sys_power"@[0]);
    assert("gpu_cores"@[0] != "cpu_power"@[0]);
    assert("gpu_cores"@[4] != "gpu_power"@[4]);
    assert("gpu_cores"@[0] != "ane_power"@[0]);
    assert("gpu_cores"@[0] != "all_power"@[0]);
    assert("gpu_cores"@[0] != "ecpu_util"@[0]);
    assert("gpu_cores"@[0] != "pcpu_util"@[0]);
    assert("interval_ms"@[0] != "fan_max_rpm"@[0]);
    assert("sys_power"@[0] != "cpu_power"@[0]);
    assert("sys_power"@[0] != "gpu_power"@[0]);
    assert("sys_power"@[0] != "ane_power"@[0]);
    assert("sys_power"@[0] != "all_power"@[0]);
    assert("sys_power"@[0] != "ecpu_util"@[0]);
    assert("sys_power"@[0] != "pcpu_util"@[0]);
    assert("cpu_power"@[0] != "gpu_power"@[0]);
    assert("cpu_power"@[0] != "ane_power"@[0]);
    assert("cpu_power"@[0] != "all_power"@[0]);
    assert("cpu_power"@[0] != "ecpu_util"@[0]);
    assert("cpu_power"@[0] != "pcpu_util"@[0]);
    assert("gpu_power"@[0] != "ane_power"@[0]);
    assert("gpu_power"@[0] != "all_power"@[0]);
    assert("gpu_power"@[0] != "ecpu_util"@[0]);
    assert("gpu_power"@[0] != "pcpu_util"@[0]);
    assert("ane_power"@[1] != "all_power"@[1]);
    assert("ane_power"@[0] != "ecpu_util"@[0]);
    assert("ane_power"@[0] != "pcpu_util"@[0]);
    assert("dram_power"@[0] != "cpu_temp_c"@[0]);
    assert("dram_power"@[0] != "gpu_temp_c"@[0]);
    assert("all_power"@[0] != "ecpu_util"@[0]);
    assert("all_power"@[0] != "pcpu_util"@[0]);
    assert("ecpu_util"@[0] != "pcpu_util"@[0]);
    assert("ecpu_freq_mhz"@[0] != "pcpu_freq_mhz"@[0]);
    assert("cpu_temp_c"@[0] != "gpu_temp_c"@[0]);
    assert("timestamp"@.len() == 9);
    assert("version"@.len() == 7);
    assert("hostname"@.len() == 8);
    assert("chip"@.len() == 4);
    assert("pcpu_cores"@.len() == 10);
    assert("ecpu_cores"@.len() == 10);
    assert("gpu_cores"@.len() == 9);
    assert("interval_ms"@.len() == 11);
    assert("sys_power"@.len() == 9);
    assert("cpu_power"@.len() == 9);
    assert("gpu_power"@.len() == 9);
    assert("ane_power"@.len() == 9);
    assert("dram_power"@.len() == 10);
    assert("all_power"@.len() == 9);
    assert("ecpu_util"@.len() == 9);
    assert("ecpu_freq_mhz"@.len() == 13);
    assert("pcpu_util"@.len() == 9);
    assert("pcpu_freq_mhz"@.len() == 13);
    assert("gpu_util"@.len() == 8);
    assert("gpu_freq_mhz"@.len() == 12);
    assert("cpu_temp_c"@.len() == 10);
    assert("gpu_temp_c"@.len() == 10);
    assert("fan_rpm"@.len() == 7);
    assert("fan_max_rpm"@.len() == 11);
    assert("memory_used_bytes"@.len() == 17);
    assert("memory_total_bytes"@.len() == 18);
    assert("swap_used_bytes"@.len() == 15);
    assert("swap_total_bytes"@.len() == 16);
    assert forall|a: int, b: int|
        #![trigger pairs[a], pairs[b]]
        0 <= a < b < pairs.len() implies pairs[a].0 != pairs[b].0 by {
        assert(a == 0 || a == 1 || a == 2 || a == 3 || a == 4 || a == 5 || a == 6 || a == 7
            || a == 8 || a == 9 || a == 10 || a == 11 || a == 12 || a == 13 || a == 14
            || a == 15 || a == 16 || a == 17 || a == 18 || a == 19 || a == 20 || a == 21
            || a == 22 || a == 23 || a == 24 || a == 25 || a == 26);
        assert(b == 1 || b == 2 || b == 3 || b == 4 || b == 5 || b == 6 || b == 7 || b == 8
            || b == 9 || b == 10 || b == 11 || b == 12 || b == 13 || b == 14 || b == 15
            || b == 16 || b == 17 || b == 18 || b == 19 || b == 20 || b == 21 || b == 22
            || b == 23 || b == 24 || b == 25 || b == 26 || b == 27);
    }
}

proof fn lemma_dec_numeral(n: nat)
    ensures
        numeral(dec(n)),
{
    lemma_dec(n);
    assert(is_digit(dec(n)[0]));
    assert forall|k: int| 0 <= k < dec(n).len() implies !ends_value(#[trigger] dec(n)[k]) by {
        assert(is_digit(dec(n)[k]));
    }
}

/// Digits and the marks of a timestamp are no quotes.
proof fn lemma_time_has_no_quote(secs: u64)
    ensures
        !utc_text(secs).contains('"'),
{
    every_day_has_a_date((secs / 86400) as int);
    reveal(is_date_of);
    let t = crate::calendar::date_of((secs / 86400) as int);
    let y = (t.0 % 0x1_0000_0000) as nat;
    let d = (secs % 86400) as nat;
    lemma_dec(y);
    lemma_dec(t.1 as nat);
    lemma_dec(t.2 as nat);
    lemma_dec(d / 3600);
    lemma_dec(d % 3600 / 60);
    lemma_dec(d % 60);
    lemma_padded_no_quote(y, 4);
    lemma_padded_no_quote(t.1 as nat, 2);
    lemma_padded_no_quote(t.2 as nat, 2);
    lemma_padded_no_quote(d / 3600, 2);
    lemma_padded_no_quote(d % 3600 / 60, 2);
    lemma_padded_no_quote(d % 60, 2);
    reveal_strlit("-");
    reveal_strlit("T");
    reveal_strlit(":");
    reveal_strlit("Z");
    let a1 = pad_left(dec(y), '0', 4) + "-"@;
    let a2 = a1 + pad_left(dec(t.1 as nat), '0', 2);
    let a3 = a2 + "-"@;
    let a4 = a3 + pad_left(dec(t.2 as nat), '0', 2);
    let a5 = a4 + "T"@;
    let a6 = a5 + pad_left(dec(d / 3600), '0', 2);
    let a7 = a6 + ":"@;
    let a8 = a7 + pad_left(dec(d % 3600 / 60), '0', 2);
    let a9 = a8 + ":"@;
    let a10 = a9 + pad_left(dec(d % 60), '0', 2);
    lemma_concat_no_quote(pad_left(dec(y), '0', 4), "-"@);
    lemma_concat_no_quote(a1, pad_left(dec(t.1 as nat), '0', 2));
    lemma_concat_no_quote(a2, "-"@);
    lemma_concat_no_quote(a3, pad_left(dec(t.2 as nat), '0', 2));
    lemma_concat_no_quote(a4, "T"@);
    lemma_concat_no_quote(a5, pad_left(dec(d / 3600), '0', 2));
    lemma_concat_no_quote(a6, ":"@);
    lemma_concat_no_quote(a7, pad_left(dec(d % 3600 / 60), '0', 2));
    lemma_concat_no_quote(a8, ":"@);
    lemma_concat_no_quote(a9, pad_left(dec(d % 60), '0', 2));
    lemma_concat_no_quote(a10, "Z"@);
}

proof fn lemma_concat_no_quote(a: Seq<char>, b: Seq<char>)
    requires
        !a.contains('"'),
        !b.contains('"'),
    ensures
        !(a + b).contains('"'),
{
    assert forall|k: int| 0 <= k < (a + b).len() implies (a + b)[k] != '"' by {
        if k < a.len() {
            assert((a + b)[k] == a[k]);
        } else {
            assert((a + b)[k] == b[k - a.len()]);
        }
    }
}

proof fn lemma_padded_no_quote(n: nat, width: int)
    ensures
        !pad_left(dec(n), '0', width).contains('"'),
{
    lemma_dec(n);
    let s = pad_left(dec(n), '0', width);
    let lead = s.len() - dec(n).len();
    assert forall|k: int| 0 <= k < s.len() implies s[k] != '"' by {
        if k >= lead {
            assert(s[k] == dec(n)[k - lead]);
            assert(is_digit(dec(n)[k - lead]));
        }
    }
}

proof fn lemma_fields_readable(m: Metrics<String>, info: AgentInfo, secs: u64)
    requires
        numerals(m),
        !info.version@.contains('"'),
        !info.hostname@.contains('"'),
        !info.chip@.contains('"'),
    ensures
        forall|k: int| 0 <= k < 28 ==> readable(#[trigger] metrics_fields(m, info, secs)[k]),
{
    reveal_strlit("timestamp");
    reveal_strlit("version");
    reveal_strlit("hostname");
    reveal_strlit("chip");
    reveal_strlit("pcpu_cores");
    reveal_strlit("ecpu_cores");
    reveal_strlit("gpu_cores");
    reveal_strlit("interval_ms");
    reveal_strlit("sys_power");
    reveal_strlit("cpu_power");
    reveal_strlit("gpu_power");
    reveal_strlit("ane_power");
    reveal_strlit("dram_power");
    reveal_strlit("all_power");
    reveal_strlit("ecpu_util");
    reveal_strlit("ecpu_freq_mhz");
    reveal_strlit("pcpu_util");
    reveal_strlit("pcpu_freq_mhz");
    reveal_strlit("gpu_util");
    reveal_strlit("gpu_freq_mhz");
    reveal_strlit("cpu_temp_c");
    reveal_strlit("gpu_temp_c");
    reveal_strlit("fan_rpm");
    reveal_strlit("fan_max_rpm");
    reveal_strlit("memory_used_bytes");
    reveal_strlit("memory_total_bytes");
    reveal_strlit("swap_used_bytes");
    reveal_strlit("swap_total_bytes");
    reveal_strlit("null");
    lemma_time_has_no_quote(secs);
    lemma_escaped_no_quote(info.version@);
    lemma_escaped_no_quote(info.hostname@);
    lemma_escaped_no_quote(info.chip@);
    lemma_dec_numeral(info.pcpu_cores as nat);
    lemma_dec_numeral(info.ecpu_cores as nat);
    lemma_dec_numeral(info.gpu_cores as nat);
    lemma_dec_numeral(info.interval_ms as nat);
    lemma_dec_numeral(m.ecpu.freq_mhz as nat);
    lemma_dec_numeral(m.pcpu.freq_mhz as nat);
    lemma_dec_numeral(m.gpu_freq_mhz as nat);
    lemma_dec_numeral(m.fan_rpm as nat);
    lemma_dec_numeral(m.fan_max_rpm as nat);
    lemma_dec_numeral(m.memory.used as nat);
    lemma_dec_numeral(m.memory.total as nat);
    lemma_dec_numeral(m.swap.used as nat);
    lemma_dec_numeral(m.swap.total as nat);
    assert(numeral("null"@));
}

/// What an agent writes, a collector reads: every field of a snapshot comes back
/// as it stands in it, whole numbers in full precision, and an absent temperature
/// as `null`. A text that needs no escaping comes back as it was (see
/// [`crate::json::plain_text_is_not_escaped`]).
pub proof fn snapshots_are_read_back(m: Metrics<String>, info: AgentInfo, secs: u64)
    requires
        numerals(m),
        !info.version@.contains('"'),
        !info.hostname@.contains('"'),
        !info.chip@.contains('"'),
    ensures
        text_in(walked(written(m, info, secs), 0), "chip"@) == escaped(info.chip@),
        text_in(walked(written(m, info, secs), 0), "hostname"@) == escaped(info.hostname@),
        text_in(walked(written(m, info, secs), 0), "sys_power"@) == m.sys_power@,
        text_in(walked(written(m, info, secs), 0), "cpu_power"@) == m.cpu_power@,
        text_in(walked(written(m, info, secs), 0), "gpu_power"@) == m.gpu_power@,
        text_in(walked(written(m, info, secs), 0), "ane_power"@) == m.ane_power@,
        text_in(walked(written(m, info, secs), 0), "dram_power"@) == m.dram_power@,
        text_in(walked(written(m, info, secs), 0), "ecpu_util"@) == m.ecpu.utilization@,
        text_in(walked(written(m, info, secs), 0), "pcpu_util"@) == m.pcpu.utilization@,
        text_in(walked(written(m, info, secs), 0), "gpu_util"@) == m.gpu_util@,
        number_in(walked(written(m, info, secs), 0), "ecpu_freq_mhz"@, u32::MAX as nat) == m.ecpu.freq_mhz,
        number_in(walked(written(m, info, secs), 0), "pcpu_freq_mhz"@, u32::MAX as nat) == m.pcpu.freq_mhz,
        number_in(walked(written(m, info, secs), 0), "gpu_freq_mhz"@, u32::MAX as nat) == m.gpu_freq_mhz,
        text_in(walked(written(m, info, secs), 0), "cpu_temp_c"@) == text_or_null(m.cpu_temp),
        text_in(walked(written(m, info, secs), 0), "gpu_temp_c"@) == text_or_null(m.gpu_temp),
        number_in(walked(written(m, info, secs), 0), "fan_rpm"@, u32::MAX as nat) == m.fan_rpm,
        number_in(walked(written(m, info, secs), 0), "fan_max_rpm"@, u32::MAX as nat) == m.fan_max_rpm,
        number_in(walked(written(m, info, secs), 0), "memory_used_bytes"@, u64::MAX as nat) == m.memory.used,
        number_in(walked(written(m, info, secs), 0), "memory_total_bytes"@, u64::MAX as nat) == m.memory.total,
        number_in(walked(written(m, info, secs), 0), "swap_used_bytes"@, u64::MAX as nat) == m.swap.used,
        number_in(walked(written(m, info, secs), 0), "swap_total_bytes"@, u64::MAX as nat) == m.swap.total,
{
    let fs = metrics_fields(m, info, secs);
    lemma_fields_readable(m, info, secs);
    objects_are_read_back(fs);
    let pairs = field_pairs(fs);
    lemma_keys_distinct(pairs);
    lemma_unique_key(pairs, 3);
    lemma_unique_key(pairs, 2);
    lemma_unique_key(pairs, 8);
    lemma_unique_key(pairs, 9);
    lemma_unique_key(pairs, 10);
    lemma_unique_key(pairs, 11);
    lemma_unique_key(pairs, 12);
    lemma_unique_key(pairs, 14);
    lemma_unique_key(pairs, 16);
    lemma_unique_key(pairs, 18);
    lemma_unique_key(pairs, 15);
    dec_parses_back(m.ecpu.freq_mhz as nat, u32::MAX as nat);
    lemma_unique_key(pairs, 17);
    dec_parses_back(m.pcpu.freq_mhz as nat, u32::MAX as nat);
    lemma_unique_key(pairs, 19);
    dec_parses_back(m.gpu_freq_mhz as nat, u32::MAX as nat);
    lemma_unique_key(pairs, 20);
    lemma_unique_key(pairs, 21);
    lemma_unique_key(pairs, 22);
    dec_parses_back(m.fan_rpm as nat, u32::MAX as nat);
    lemma_unique_key(pairs, 23);
    dec_parses_back(m.fan_max_rpm as nat, u32::MAX as nat);
    lemma_unique_key(pairs, 24);
    dec_parses_back(m.memory.used as nat, u64::MAX as nat);
    lemma_unique_key(pairs, 25);
    dec_parses_back(m.memory.total as nat, u64::MAX as nat);
    lemma_unique_key(pairs, 26);
    dec_parses_back(m.swap.used as nat, u64::MAX as nat);
    lemma_unique_key(pairs, 27);
    dec_parses_back(m.swap.total as nat, u64::MAX as nat);
}

/// What else a snapshot tells stands under its name: when it was taken, by what version,
/// the cores of the machine, the interval, and the power of all parts together.
pub proof fn snapshots_tell_the_machine(m: Metrics<String>, info: AgentInfo, secs: u64)
    requires
        numerals(m),
        !info.version@.contains('"'),
        !info.hostname@.contains('"'),
        !info.chip@.contains('"'),
    ensures
        text_in(walked(written(m, info, secs), 0), "timestamp"@) == utc_text(secs),
        text_in(walked(written(m, info, secs), 0), "version"@) == escaped(info.version@),
        number_in(walked(written(m, info, secs), 0), "pcpu_cores"@, u32::MAX as nat)
            == info.pcpu_cores,
        number_in(walked(written(m, info, secs), 0), "ecpu_cores"@, u32::MAX as nat)
            == info.ecpu_cores,
        number_in(walked(written(m, info, secs), 0), "gpu_cores"@, u32::MAX as nat)
            == info.gpu_cores,
        number_in(walked(written(m, info, secs), 0), "interval_ms"@, u64::MAX as nat)
            == info.interval_ms,
        text_in(walked(written(m, info, secs), 0), "all_power"@) == m.all_power@,
{
    let fs = metrics_fields(m, info, secs);
    lemma_fields_readable(m, info, secs);
    objects_are_read_back(fs);
    let pairs = field_pairs(fs);
    lemma_keys_distinct(pairs);
    lemma_unique_key(pairs, 0);
    lemma_unique_key(pairs, 1);
    lemma_unique_key(pairs, 4);
    dec_parses_back(info.pcpu_cores as nat, u32::MAX as nat);
    lemma_unique_key(pairs, 5);
    dec_parses_back(info.ecpu_cores as nat, u32::MAX as nat);
    lemma_unique_key(pairs, 6);
    dec_parses_back(info.gpu_cores as nat, u32::MAX as nat);
    lemma_unique_key(pairs, 7);
    dec_parses_back(info.interval_ms as nat, u64::MAX as nat);
    lemma_unique_key(pairs, 13);
}

/// Of several values under one name the last counts; a name that does not occur has an
/// empty text and the number 0.
pub proof fn the_last_value_counts(
    pairs: Seq<(Seq<char>, Seq<char>)>,
    key: Seq<char>,
    value: Seq<char>,
    other: Seq<char>,
    max: nat,
)
    requires
        other != key,
    ensures
        text_in(pairs.push((key, value)), key) == value,
        text_in(pairs.push((other, value)), key) == text_in(pairs, key),
        number_in(pairs.push((other, value)), key, max) == number_in(pairs, key, max),
        parsed_uint(value, max) matches Ok(n) ==> number_in(pairs.push((key, value)), key, max) == n,
        parsed_uint(value, max) is Err ==> number_in(pairs.push((key, value)), key, max) == 0,
        text_in(Seq::empty(), key).len() == 0,
        number_in(Seq::empty(), key, max) == 0,
{
    assert(pairs.push((key, value)).drop_last() =~= pairs);
    assert(pairs.push((other, value)).drop_last() =~= pairs);
}

} // verus!
