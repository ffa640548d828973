//! The terminal dashboard: colors, rows, and the box around them.
use vstd::prelude::*;

use vstd::arithmetic::power2::{lemma2_to64, lemma_pow2_adds, lemma_pow2_pos, pow2};

use crate::text::{
    chars_of, decimal, push_dec, push_padded, push_padded_right, push_repeated, same,
};
use crate::text::{
    concat_assoc, dec, is_digit, lemma_dec, lemma_dec_len, pad_left, pad_right, repeated, ten_to,
};
use crate::values::forms_agree_on_one;
use crate::values::Value;

verus! {

/// Width of a bar in columns.
pub const BAR_W: usize = 24;

/// Columns between the borders of the box. Every row must fit; the widest is one
/// with a temperature of three digits.
pub const INNER: usize = 56;

// ── Colors ───────────────────────────────────────────────────────────────────

/// Escape sequences, each empty where the terminal is not to be controlled or
/// colored.
#[derive(Clone, Copy, Debug)]
pub struct Palette {
    pub hide_cursor: &'static str,
    pub show_cursor: &'static str,
    pub clear: &'static str,
    pub home: &'static str,
    pub erase_line: &'static str,
    pub reset: &'static str,
    pub bold: &'static str,
    pub dim: &'static str,
    pub green: &'static str,
    pub yellow: &'static str,
    pub red: &'static str,
    pub cyan: &'static str,
}

/// `s` if `on`, else nothing.
pub open spec fn if_on(on: bool, s: Seq<char>) -> Seq<char> {
    if on {
        s
    } else {
        Seq::empty()
    }
}

fn when(on: bool, s: &'static str) -> (r: &'static str)
    ensures
        r@ == if_on(on, s@),
{
    if on {
        s
    } else {
        proof {
            reveal_strlit("");
            assert(""@ =~= Seq::<char>::empty());
        }
        ""
    }
}

/// Whether the sequences that stand inside a line take no columns.
pub open spec fn invisible(p: Palette) -> bool {
    &&& measured(p.erase_line@, 0) == Some(0nat)
    &&& measured(p.reset@, 0) == Some(0nat)
    &&& measured(p.bold@, 0) == Some(0nat)
    &&& measured(p.dim@, 0) == Some(0nat)
    &&& measured(p.green@, 0) == Some(0nat)
    &&& measured(p.yellow@, 0) == Some(0nat)
    &&& measured(p.red@, 0) == Some(0nat)
    &&& measured(p.cyan@, 0) == Some(0nat)
}

/// The palette of a terminal: control sequences need a terminal, and color
/// sequences need color to be allowed.
pub fn palette(tty: bool, color: bool) -> (r: Palette)
    ensures
        r.hide_cursor@ == if_on(tty, "\x1b[?25l"@),
        r.show_cursor@ == if_on(tty, "\x1b[?25h"@),
        r.clear@ == if_on(tty, "\x1b[2J"@),
        r.home@ == if_on(tty, "\x1b[H"@),
        r.erase_line@ == if_on(tty, "\x1b[2K"@),
        r.reset@ == if_on(color, "\x1b[0m"@),
        r.bold@ == if_on(color, "\x1b[1m"@),
        r.dim@ == if_on(color, "\x1b[2m"@),
        r.green@ == if_on(color, "\x1b[32m"@),
        r.yellow@ == if_on(color, "\x1b[33m"@),
        r.red@ == if_on(color, "\x1b[31m"@),
        r.cyan@ == if_on(color, "\x1b[36m"@),
        invisible(r),
{
    let r = Palette {
        hide_cursor: when(tty, "\x1b[?25l"),
        show_cursor: when(tty, "\x1b[?25h"),
        clear: when(tty, "\x1b[2J"),
        home: when(tty, "\x1b[H"),
        erase_line: when(tty, "\x1b[2K"),
        reset: when(color, "\x1b[0m"),
        bold: when(color, "\x1b[1m"),
        dim: when(color, "\x1b[2m"),
        green: when(color, "\x1b[32m"),
        yellow: when(color, "\x1b[33m"),
        red: when(color, "\x1b[31m"),
        cyan: when(color, "\x1b[36m"),
    };
    proof {
        reveal_strlit("\x1b[2K");
        reveal_strlit("\x1b[0m");
        reveal_strlit("\x1b[1m");
        reveal_strlit("\x1b[2m");
        reveal_strlit("\x1b[32m");
        reveal_strlit("\x1b[33m");
        reveal_strlit("\x1b[31m");
        reveal_strlit("\x1b[36m");
        reveal_with_fuel(measured, 2);
        reveal_with_fuel(csi_end, 4);
        assert(measured("\x1b[2K"@, 0) == Some(0nat));
        assert(measured("\x1b[0m"@, 0) == Some(0nat));
        assert(measured("\x1b[1m"@, 0) == Some(0nat));
        assert(measured("\x1b[2m"@, 0) == Some(0nat));
        assert(measured("\x1b[32m"@, 0) == Some(0nat));
        assert(measured("\x1b[33m"@, 0) == Some(0nat));
        assert(measured("\x1b[31m"@, 0) == Some(0nat));
        assert(measured("\x1b[36m"@, 0) == Some(0nat));
        assert(measured(Seq::<char>::empty(), 0) == Some(0nat));
    }
    r
}

/// Whether color is used: not if a flag or the environment forbids it, nor on a
/// terminal that cannot show it, nor without a terminal.
pub fn color_enabled(tty: bool, no_color_flag: bool, no_color: Option<&str>, term: Option<&str>) -> (r:
    bool)
    ensures
        r == (!no_color_flag && !(no_color matches Some(v) && v@.len() > 0) && !(term matches Some(t)
            && t@ == "dumb"@) && tty),
{
    if no_color_flag {
        return false;
    }
    match no_color {
        Some(v) => {
            if !v.is_empty() {
                return false;
            }
        },
        None => {},
    }
    match term {
        Some(t) => {
            if same(t, "dumb") {
                return false;
            }
        },
        None => {},
    }
    tty
}

// ── Widths ───────────────────────────────────────────────────────────────────

/// Whether a character is an ASCII letter.
pub open spec fn is_letter(c: char) -> bool {
    ('A' <= c <= 'Z') || ('a' <= c <= 'z')
}

/// The first index at or after `i` that holds a letter, which ends a control
/// sequence; or the length.
pub open spec fn csi_end(s: Seq<char>, i: int) -> int
    decreases s.len() - i,
{
    if i >= s.len() {
        s.len() as int
    } else if is_letter(s[i]) {
        i
    } else {
        csi_end(s, i + 1)
    }
}

/// Columns that `s` takes from index `i` on: one for each character outside a
/// control sequence.
pub open spec fn columns(s: Seq<char>, i: int) -> nat
    decreases s.len() - i,
{
    if !(0 <= i < s.len()) {
        0
    } else if s[i] == '\x1b' && i + 1 < s.len() && s[i + 1] == '[' {
        proof {
            lemma_csi_end(s, i + 2);
        }
        if csi_end(s, i + 2) < s.len() {
            columns(s, csi_end(s, i + 2) + 1)
        } else {
            0
        }
    } else {
        1 + columns(s, i + 1)
    }
}

/// Columns that `s` takes from index `i` on, if every control sequence in it is
/// complete.
pub open spec fn measured(s: Seq<char>, i: int) -> Option<nat>
    decreases s.len() - i,
{
    if !(0 <= i < s.len()) {
        Some(0)
    } else if s[i] == '\x1b' {
        if i + 1 < s.len() && s[i + 1] == '[' && csi_end(s, i + 2) < s.len() {
            proof {
                lemma_csi_end(s, i + 2);
            }
            measured(s, csi_end(s, i + 2) + 1)
        } else {
            None
        }
    } else {
        match measured(s, i + 1) {
            Some(n) => Some(n + 1),
            None => None,
        }
    }
}

/// An escape sequence ends within the text.
pub proof fn lemma_csi_end(s: Seq<char>, i: int)
    requires
        0 <= i,
    ensures
        i <= s.len() ==> i <= csi_end(s, i) <= s.len(),
    decreases s.len() - i,
{
    if i < s.len() && !is_letter(s[i]) {
        lemma_csi_end(s, i + 1);
    }
}

/// Columns that a text takes in a terminal; control sequences take none.
pub fn visual_len(s: &str) -> (r: usize)
    ensures
        r == columns(s@, 0),
{
    let v = chars_of(s);
    let mut len: usize = 0;
    let mut i: usize = 0;
    while i < v.len()
        invariant
            v@ == s@,
            i <= v.len(),
            len <= i,
            len + columns(s@, i as int) == columns(s@, 0),
        decreases v.len() - i,
    {
        if v[i] == '\x1b' && i + 1 < v.len() && v[i + 1] == '[' {
            let ghost start = i + 2;
            let mut j: usize = i + 2;
            while j < v.len() && !(('A' <= v[j] && v[j] <= 'Z') || ('a' <= v[j] && v[j] <= 'z'))
                invariant
                    v@ == s@,
                    i + 2 <= j <= v.len(),
                    csi_end(s@, start) == csi_end(s@, j as int),
                decreases v.len() - j,
            {
                j += 1;
            }
            if j == v.len() {
                i = j;
            } else {
                i = j + 1;
            }
        } else {
            len += 1;
            i += 1;
        }
    }
    len
}

/// Where every control sequence is complete, both measures agree.
pub proof fn lemma_measured_columns(s: Seq<char>, i: int)
    requires
        0 <= i,
        measured(s, i) is Some,
    ensures
        measured(s, i) == Some(columns(s, i)),
    decreases s.len() - i,
{
    if i < s.len() {
        if s[i] == '\x1b' {
            lemma_csi_end(s, i + 2);
            lemma_measured_columns(s, csi_end(s, i + 2) + 1);
        } else {
            lemma_measured_columns(s, i + 1);
        }
    }
}

proof fn lemma_csi_end_left(a: Seq<char>, b: Seq<char>, i: int)
    requires
        0 <= i <= a.len(),
        csi_end(a, i) < a.len(),
    ensures
        csi_end(a + b, i) == csi_end(a, i),
    decreases a.len() - i,
{
    assert((a + b)[i] == a[i]);
    if !is_letter(a[i]) {
        lemma_csi_end_left(a, b, i + 1);
    }
}

proof fn lemma_csi_end_right(a: Seq<char>, b: Seq<char>, j: int)
    requires
        0 <= j <= b.len(),
    ensures
        csi_end(a + b, a.len() + j) == a.len() + csi_end(b, j),
    decreases b.len() - j,
{
    if j < b.len() {
        assert((a + b)[a.len() + j] == b[j]);
        if !is_letter(b[j]) {
            lemma_csi_end_right(a, b, j + 1);
        }
    }
}

proof fn lemma_measured_right(a: Seq<char>, b: Seq<char>, j: int)
    requires
        0 <= j <= b.len(),
    ensures
        measured(a + b, a.len() + j) == measured(b, j),
    decreases b.len() - j,
{
    if j < b.len() {
        assert((a + b)[a.len() + j] == b[j]);
        if b[j] == '\x1b' {
            if j + 1 < b.len() {
                assert((a + b)[a.len() + j + 1] == b[j + 1]);
                if b[j + 1] == '[' {
                    lemma_csi_end_right(a, b, j + 2);
                    lemma_csi_end(b, j + 2);
                    if csi_end(b, j + 2) < b.len() {
                        lemma_measured_right(a, b, csi_end(b, j + 2) + 1);
                    }
                }
            }
        } else {
            lemma_measured_right(a, b, j + 1);
        }
    }
}

proof fn lemma_measured_left(a: Seq<char>, b: Seq<char>, i: int)
    requires
        0 <= i <= a.len(),
        measured(a, i) is Some,
        measured(b, 0) is Some,
    ensures
        measured(a + b, i) == Some((measured(a, i)->0 + measured(b, 0)->0) as nat),
    decreases a.len() - i,
{
    if i == a.len() {
        lemma_measured_right(a, b, 0);
    } else {
        assert((a + b)[i] == a[i]);
        if a[i] == '\x1b' {
            assert((a + b)[i + 1] == a[i + 1]);
            lemma_csi_end(a, i + 2);
            lemma_csi_end_left(a, b, i + 2);
            lemma_measured_left(a, b, csi_end(a, i + 2) + 1);
        } else {
            lemma_measured_left(a, b, i + 1);
        }
    }
}

/// Whether `s` is complete and takes `w` columns.
pub open spec fn takes(s: Seq<char>, w: int) -> bool {
    measured(s, 0) matches Some(n) && n == w
}

/// Texts one behind the other take the columns of both.
pub proof fn widths_add_up(a: Seq<char>, v: int, b: Seq<char>, w: int)
    requires
        takes(a, v),
        takes(b, w),
    ensures
        takes(a + b, v + w),
        columns(a + b, 0) == v + w,
{
    lemma_measured_left(a, b, 0);
    lemma_measured_columns(a + b, 0);
}

/// Whether no control sequence stands in `s`.
pub open spec fn plain(s: Seq<char>) -> bool {
    !s.contains('\x1b')
}

proof fn lemma_plain_from(s: Seq<char>, i: int)
    requires
        plain(s),
        0 <= i <= s.len(),
    ensures
        measured(s, i) == Some((s.len() - i) as nat),
    decreases s.len() - i,
{
    if i < s.len() {
        assert(s.contains(s[i]));
        lemma_plain_from(s, i + 1);
    }
}

/// Text without control sequences takes a column for each character.
pub proof fn plain_text_is_as_wide_as_long(s: Seq<char>)
    requires
        plain(s),
    ensures
        takes(s, s.len() as int),
{
    lemma_plain_from(s, 0);
}

// ── Rows ─────────────────────────────────────────────────────────────────────

/// How high a value stands in its range.
#[derive(Debug, Clone, Copy, PartialEq, Eq, Structural)]
pub enum Heat {
    Low,
    Middle,
    High,
}

/// The temperature from which on a chip is warm, in degrees Celsius.
pub const WARM: i64 = 70;

/// The temperature from which on a chip is hot, in degrees Celsius.
pub const HOT: i64 = 85;

/// The part from which on a gauge is no longer low: two fifths, by the bits of the
/// nearest floating-point number.
pub const MIDDLE_PART: u32 = 0x3ecc_cccd;

/// The part from which on a gauge is high: three quarters, by the bits of the
/// floating-point number.
pub const HIGH_PART: u32 = 0x3f40_0000;

impl Heat {
    /// How high a value stands, by where the middle and the high values begin.
    pub open spec fn between(v: Value, middle: Value, high: Value) -> Heat {
        if v.below(middle) {
            Heat::Low
        } else if v.below(high) {
            Heat::Middle
        } else {
            Heat::High
        }
    }

    fn measured(v: &Value, middle: &Value, high: &Value) -> (r: Heat)
        ensures
            r == Heat::between(*v, *middle, *high),
    {
        if v.is_below(middle) {
            Heat::Low
        } else if v.is_below(high) {
            Heat::Middle
        } else {
            Heat::High
        }
    }

    /// The heat of a temperature in degrees Celsius.
    pub open spec fn temp_heat(t: Value) -> Heat {
        Heat::between(
            t,
            Value::Fixed { mantissa: WARM, fraction: 0 },
            Value::Fixed { mantissa: HOT, fraction: 0 },
        )
    }

    /// The heat of a gauge that is filled to a part.
    pub open spec fn part_heat(part: Value) -> Heat {
        Heat::between(part, Value::Float(MIDDLE_PART), Value::Float(HIGH_PART))
    }

    /// The heat of a temperature in degrees Celsius.
    pub fn of_temp(t: &Value) -> (r: Heat)
        ensures
            r == Heat::temp_heat(*t),
            r == Heat::between(
                *t,
                (Value::Fixed { mantissa: WARM, fraction: 0 }),
                (Value::Fixed { mantissa: HOT, fraction: 0 }),
            ),
    {
        let warm = Value::Fixed { mantissa: WARM, fraction: 0 };
        let hot = Value::Fixed { mantissa: HOT, fraction: 0 };
        Heat::measured(t, &warm, &hot)
    }

    /// The heat of a gauge that is filled to a part.
    pub fn of_part(part: &Value) -> (r: Heat)
        ensures
            r == Heat::part_heat(*part),
            r == Heat::between(*part, Value::Float(MIDDLE_PART), Value::Float(HIGH_PART)),
    {
        Heat::measured(part, &Value::Float(MIDDLE_PART), &Value::Float(HIGH_PART))
    }
}

/// The color of a level.
pub open spec fn heat_text(p: Palette, h: Heat) -> Seq<char> {
    match h {
        Heat::Low => p.green@,
        Heat::Middle => p.yellow@,
        Heat::High => p.red@,
    }
}

/// The color of a level.
pub fn heat(p: &Palette, h: Heat) -> (r: &'static str)
    ensures
        r@ == heat_text(*p, h),
{
    match h {
        Heat::Low => p.green,
        Heat::Middle => p.yellow,
        Heat::High => p.red,
    }
}

/// A gauge: how many columns of its bar are filled, its color, and its percentage
/// in words.
pub struct Level {
    pub filled: usize,
    pub heat: Heat,
    pub percent: String,
}

impl Level {
    /// Whether the filled part is within the bar and the percentage is a number of
    /// up to three digits.
    pub open spec fn wf(&self) -> bool {
        &&& self.filled <= BAR_W
        &&& self.percent@.len() <= 3
        &&& plain(self.percent@)
    }
}

/// A bar: filled and empty parts together are as wide as the bar.
pub open spec fn bar_text(p: Palette, l: Level) -> Seq<char> {
    heat_text(p, l.heat) + repeated('█', l.filled as int) + p.dim@ + repeated('░', BAR_W - l.filled)
        + p.reset@
}

/// The left column of a row: label and percentage, of fixed width.
pub open spec fn left_text(p: Palette, label: Seq<char>, percent: Seq<char>) -> Seq<char> {
    "  "@ + p.bold@ + pad_right(label, 5) + p.reset@ + " "@ + p.dim@ + pad_left(percent, ' ', 3) + "%"@
        + p.reset@ + "  "@
}

fn push_bar(out: &mut String, p: &Palette, l: &Level)
    requires
        l.filled <= BAR_W,
    ensures
        final(out)@ == old(out)@ + bar_text(*p, *l),
{
    broadcast use concat_assoc;

    out.append(heat(p, l.heat));
    push_repeated(out, '█', l.filled);
    out.append(p.dim);
    push_repeated(out, '░', BAR_W - l.filled);
    out.append(p.reset);
}

/// A bar.
pub fn bar(p: &Palette, l: &Level) -> (r: String)
    requires
        l.filled <= BAR_W,
    ensures
        r@ == bar_text(*p, *l),
{
    let mut out: String = String::new();
    push_bar(&mut out, p, l);
    assert(Seq::<char>::empty() + bar_text(*p, *l) == bar_text(*p, *l));
    out
}

fn push_left(out: &mut String, p: &Palette, label: &str, percent: &str)
    ensures
        final(out)@ == old(out)@ + left_text(*p, label@, percent@),
{
    broadcast use concat_assoc;

    out.append("  ");
    out.append(p.bold);
    push_padded_right(out, label, 5);
    out.append(p.reset);
    out.append(" ");
    out.append(p.dim);
    push_padded(out, percent, ' ', 3);
    out.append("%");
    out.append(p.reset);
    out.append("  ");
}

/// The left column of a row.
pub fn left_col(p: &Palette, label: &str, percent: &str) -> (r: String)
    ensures
        r@ == left_text(*p, label@, percent@),
{
    let mut out: String = String::new();
    push_left(&mut out, p, label, percent);
    assert(Seq::<char>::empty() + left_text(*p, label@, percent@) == left_text(
        *p,
        label@,
        percent@,
    ));
    out
}

/// A row of left column, bar and a value.
pub open spec fn gauge_row(p: Palette, label: Seq<char>, l: Level, value: Seq<char>) -> Seq<char> {
    left_text(p, label, l.percent@) + bar_text(p, l) + "  "@ + value
}

/// Power in watts; `watts` is in words.
pub open spec fn watts_text(p: Palette, watts: Seq<char>) -> Seq<char> {
    p.cyan@ + pad_left(watts, ' ', 5) + " W"@ + p.reset@
}

/// Row of a power gauge.
pub fn power_row(p: &Palette, label: &str, watts: &str, l: &Level) -> (r: String)
    requires
        l.filled <= BAR_W,
    ensures
        r@ == gauge_row(*p, label@, *l, watts_text(*p, watts@)),
{
    let mut out = left_col(p, label, &l.percent);
    push_bar(&mut out, p, l);
    out.append("  ");
    push_watts(&mut out, p, watts);
    out
}

fn push_watts(out: &mut String, p: &Palette, watts: &str)
    ensures
        final(out)@ == old(out)@ + watts_text(*p, watts@),
{
    broadcast use concat_assoc;

    out.append(p.cyan);
    push_padded(out, watts, ' ', 5);
    out.append(" W");
    out.append(p.reset);
}

/// A temperature: in its color, dimmed if it is not of this window, and dashes if
/// there is none.
pub open spec fn temp_text(p: Palette, temp: Option<Seq<char>>, live: bool, h: Heat) -> Seq<char> {
    match temp {
        None => p.dim@ + "--°C"@ + p.reset@,
        Some(t) => (if live {
            heat_text(p, h)
        } else {
            p.dim@
        }) + t + "°C"@ + p.reset@,
    }
}

/// A temperature. `temp` is in words.
pub fn temp_str(p: &Palette, temp: Option<&str>, live: bool, h: Heat) -> (r: String)
    ensures
        r@ == temp_text(*p, crate::args::token_text(temp), live, h),
{
    match temp {
        None => {
            let mut out: String = p.dim.to_string();
            out.append("--°C");
            out.append(p.reset);
            out
        },
        Some(t) => {
            let mut out: String = if live {
                heat(p, h).to_string()
            } else {
                p.dim.to_string()
            };
            out.append(t);
            out.append("°C");
            out.append(p.reset);
            out
        },
    }
}

/// A value with a temperature in brackets behind it.
pub open spec fn badge_text(p: Palette, value: Seq<char>, temp: Seq<char>) -> Seq<char> {
    value + "  "@ + p.dim@ + "("@ + p.reset@ + temp + p.dim@ + ")"@ + p.reset@
}

/// Row of a power gauge with a temperature.
pub fn power_row_temp(
    p: &Palette,
    label: &str,
    watts: &str,
    l: &Level,
    temp: Option<&str>,
    live: bool,
    h: Heat,
) -> (r: String)
    requires
        l.filled <= BAR_W,
    ensures
        r@ == gauge_row(
            *p,
            label@,
            *l,
            badge_text(
                *p,
                watts_text(*p, watts@),
                temp_text(*p, crate::args::token_text(temp), live, h),
            ),
        ),
{
    broadcast use concat_assoc;

    let mut out = power_row(p, label, watts, l);
    out.append("  ");
    out.append(p.dim);
    out.append("(");
    out.append(p.reset);
    out.append(&temp_str(p, temp, live, h));
    out.append(p.dim);
    out.append(")");
    out.append(p.reset);
    out
}

/// A frequency.
pub open spec fn freq_text(p: Palette, freq_mhz: nat) -> Seq<char> {
    p.cyan@ + pad_left(dec(freq_mhz), ' ', 4) + " MHz"@ + p.reset@
}

/// Row of a utilization gauge.
pub fn util_row(p: &Palette, label: &str, l: &Level, freq_mhz: u32) -> (r: String)
    requires
        l.filled <= BAR_W,
    ensures
        r@ == gauge_row(*p, label@, *l, freq_text(*p, freq_mhz as nat)),
{
    broadcast use concat_assoc;

    let mut out = left_col(p, label, &l.percent);
    push_bar(&mut out, p, l);
    out.append("  ");
    out.append(p.cyan);
    push_padded(&mut out, &decimal(freq_mhz as u64), ' ', 4);
    out.append(" MHz");
    out.append(p.reset);
    out
}

/// Row of the fan; a line of its own where there is none.
pub open spec fn fan_text(p: Palette, l: Level, rpm: nat, max_rpm: nat) -> Seq<char> {
    if max_rpm == 0 {
        "  "@ + p.bold@ + "FAN"@ + p.reset@ + "    "@ + p.dim@ + "—  "@ + repeated('─', BAR_W as int)
            + "  fanless"@ + p.reset@
    } else {
        gauge_row(p, "FAN"@, l, p.cyan@ + pad_left(dec(rpm), ' ', 4) + " RPM"@ + p.reset@)
    }
}

/// Row of the fan.
pub fn fan_row(p: &Palette, l: &Level, rpm: u32, max_rpm: u32) -> (r: String)
    requires
        l.filled <= BAR_W,
    ensures
        r@ == fan_text(*p, *l, rpm as nat, max_rpm as nat),
{
    if max_rpm == 0 {
        let mut out: String = "  ".to_string();
        out.append(p.bold);
        out.append("FAN");
        out.append(p.reset);
        out.append("    ");
        out.append(p.dim);
        out.append("—  ");
        push_repeated(&mut out, '─', BAR_W);
        out.append("  fanless");
        out.append(p.reset);
        return out;
    }
    let mut out = left_col(p, "FAN", &l.percent);
    push_bar(&mut out, p, l);
    out.append("  ");
    let ghost head = out@;
    out.append(p.cyan);
    push_padded(&mut out, &decimal(rpm as u64), ' ', 4);
    out.append(" RPM");
    out.append(p.reset);
    proof {
        broadcast use concat_assoc;

        assert(out@ == head + (p.cyan@ + pad_left(dec(rpm as nat), ' ', 4) + " RPM"@ + p.reset@));
    }
    out
}

/// Tenths of a gigabyte, to the nearest; where two are as near, the even one.
pub open spec fn tenths(bytes: nat) -> nat {
    let q = bytes * 10 / 0x4000_0000;
    let rest = bytes * 10 % 0x4000_0000;
    if rest > 0x2000_0000 || (rest == 0x2000_0000 && q % 2 == 1) {
        q + 1
    } else {
        q
    }
}

/// An amount of memory in gigabytes, with one decimal.
pub open spec fn gb_text(bytes: nat) -> Seq<char> {
    dec(tenths(bytes) / 10) + "."@ + dec(tenths(bytes) % 10)
}

/// An amount of memory in gigabytes, with one decimal, on four columns at least.
pub fn fmt_gb(bytes: u64) -> (r: String)
    ensures
        r@ == pad_left(gb_text(bytes as nat), ' ', 4),
{
    let whole: u64 = bytes / 0x4000_0000;
    let part: u64 = (bytes % 0x4000_0000) * 10;
    let q: u64 = whole * 10 + part / 0x4000_0000;
    let rest: u64 = part % 0x4000_0000;
    proof {
        assert(bytes * 10 == whole * 10 * 0x4000_0000 + part);
        assert(bytes as nat * 10 / 0x4000_0000 == q);
        assert(bytes as nat * 10 % 0x4000_0000 == rest);
    }
    let t: u64 = if rest > 0x2000_0000 || (rest == 0x2000_0000 && q % 2 == 1) {
        q + 1
    } else {
        q
    };
    let mut text: String = String::new();
    push_dec(&mut text, t / 10);
    text.append(".");
    push_dec(&mut text, t % 10);
    assert(text@ == gb_text(bytes as nat));
    let mut out: String = String::new();
    push_padded(&mut out, &text, ' ', 4);
    assert(out@ =~= pad_left(gb_text(bytes as nat), ' ', 4));
    out
}

/// An amount of memory in whole gigabytes, to the nearest; a half counts up.
pub open spec fn nearest_gb(bytes: nat) -> nat {
    (bytes + 0x2000_0000) / 0x4000_0000
}

/// An amount of memory in whole gigabytes, within what a `u32` can hold.
pub fn whole_gb(bytes: u64) -> (r: u32)
    ensures
        r == if nearest_gb(bytes as nat) <= u32::MAX {
            nearest_gb(bytes as nat)
        } else {
            u32::MAX as nat
        },
{
    let whole: u64 = bytes / 0x4000_0000;
    let n: u64 = if bytes % 0x4000_0000 >= 0x2000_0000 {
        whole + 1
    } else {
        whole
    };
    assert(n == nearest_gb(bytes as nat));
    if n <= 0xffff_ffff {
        n as u32
    } else {
        u32::MAX
    }
}

/// Memory in gigabytes, used and in all.
pub open spec fn memory_text(p: Palette, used: nat, total: nat) -> Seq<char> {
    p.cyan@ + pad_left(gb_text(used), ' ', 4) + p.reset@ + " "@ + p.dim@ + "/ "@ + pad_left(
        gb_text(total),
        ' ',
        4,
    ) + " GB"@ + p.reset@
}

/// Row of a memory gauge.
pub fn mem_row(p: &Palette, label: &str, l: &Level, used: u64, total: u64) -> (r: String)
    requires
        l.filled <= BAR_W,
    ensures
        r@ == gauge_row(*p, label@, *l, memory_text(*p, used as nat, total as nat)),
{
    broadcast use concat_assoc;

    let mut out = left_col(p, label, &l.percent);
    push_bar(&mut out, p, l);
    out.append("  ");
    out.append(p.cyan);
    out.append(&fmt_gb(used));
    out.append(p.reset);
    out.append(" ");
    out.append(p.dim);
    out.append("/ ");
    out.append(&fmt_gb(total));
    out.append(" GB");
    out.append(p.reset);
    out
}

/// The temperature that is shown, and whether it is of this window: a window
/// without one shows the last that was known.
pub fn display_temp<F: Copy>(current: Option<F>, last: &mut Option<F>) -> (r: (Option<F>, bool))
    ensures
        r.1 == current is Some,
        *final(last) == (if current is Some { current } else { *old(last) }),
        r.0 == *final(last),
{
    match current {
        Some(_) => {
            *last = current;
            (current, true)
        },
        None => (*last, false),
    }
}

// ── Box ──────────────────────────────────────────────────────────────────────

/// A line of the box around `content`.
pub open spec fn row_text(p: Palette, content: Seq<char>, inner: int) -> Seq<char> {
    p.erase_line@ + p.dim@ + "│"@ + p.reset@ + content + repeated(' ', inner - columns(content, 0))
        + p.dim@ + "│"@ + p.reset@
}

/// A rule across the box.
pub open spec fn rule_text(p: Palette, inner: int) -> Seq<char> {
    p.erase_line@ + p.dim@ + "│"@ + repeated('─', inner) + "│"@ + p.reset@
}

/// Appends a line of the box, with spaces behind the content up to the border.
pub fn box_row(out: &mut String, p: &Palette, content: &str, inner: usize)
    ensures
        final(out)@ == old(out)@ + row_text(*p, content@, inner as int) + "\n"@,
{
    broadcast use concat_assoc;

    let width: usize = visual_len(content);
    out.append(p.erase_line);
    out.append(p.dim);
    out.append("│");
    out.append(p.reset);
    out.append(content);
    if width < inner {
        push_repeated(out, ' ', inner - width);
    } else {
        assert(repeated(' ', inner - columns(content@, 0)) == Seq::<char>::empty());
        assert(out@ + Seq::<char>::empty() == out@);
    }
    out.append(p.dim);
    out.append("│");
    out.append(p.reset);
    out.append("\n");
}

/// Appends an empty line of the box.
pub fn box_empty(out: &mut String, p: &Palette, inner: usize)
    ensures
        final(out)@ == old(out)@ + row_text(*p, Seq::empty(), inner as int) + "\n"@,
{
    proof {
        reveal_strlit("");
        assert(""@ =~= Seq::<char>::empty());
    }
    box_row(out, p, "", inner);
}

/// Appends a rule across the box.
pub fn box_rule(out: &mut String, p: &Palette, inner: usize)
    ensures
        final(out)@ == old(out)@ + rule_text(*p, inner as int) + "\n"@,
{
    broadcast use concat_assoc;

    out.append(p.erase_line);
    out.append(p.dim);
    out.append("│");
    push_repeated(out, '─', inner);
    out.append("│");
    out.append(p.reset);
    out.append("\n");
}

// ── The box holds its rows ───────────────────────────────────────────────────

proof fn lemma_repeated_takes(c: char, n: int)
    requires
        c != '\x1b',
    ensures
        takes(repeated(c, n), if n < 0 { 0 } else { n }),
{
    assert(plain(repeated(c, n)));
    plain_text_is_as_wide_as_long(repeated(c, n));
}

proof fn lemma_pad_left_takes(s: Seq<char>, width: int)
    requires
        plain(s),
    ensures
        takes(pad_left(s, ' ', width), if s.len() < width { width } else { s.len() as int }),
{
    lemma_repeated_takes(' ', width - s.len());
    plain_text_is_as_wide_as_long(s);
    widths_add_up(
        repeated(' ', width - s.len()),
        if width < s.len() { 0 } else { width - s.len() },
        s,
        s.len() as int,
    );
}

proof fn lemma_pad_right_takes(s: Seq<char>, width: int)
    requires
        plain(s),
    ensures
        takes(pad_right(s, width), if s.len() < width { width } else { s.len() as int }),
{
    lemma_repeated_takes(' ', width - s.len());
    plain_text_is_as_wide_as_long(s);
    widths_add_up(
        s,
        s.len() as int,
        repeated(' ', width - s.len()),
        if width < s.len() { 0 } else { width - s.len() },
    );
}

proof fn lemma_left_takes(p: Palette, label: Seq<char>, percent: Seq<char>)
    requires
        invisible(p),
        plain(label),
        label.len() <= 5,
        plain(percent),
        percent.len() <= 3,
    ensures
        takes(left_text(p, label, percent), 14),
{
    reveal_strlit("  ");
    reveal_strlit(" ");
    reveal_strlit("%");
    plain_text_is_as_wide_as_long("  "@);
    plain_text_is_as_wide_as_long(" "@);
    plain_text_is_as_wide_as_long("%"@);
    lemma_pad_right_takes(label, 5);
    lemma_pad_left_takes(percent, 3);
    let a1 = "  "@ + p.bold@;
    widths_add_up("  "@, 2, p.bold@, 0);
    let a2 = a1 + pad_right(label, 5);
    widths_add_up(a1, 2, pad_right(label, 5), 5);
    let a3 = a2 + p.reset@;
    widths_add_up(a2, 7, p.reset@, 0);
    let a4 = a3 + " "@;
    widths_add_up(a3, 7, " "@, 1);
    let a5 = a4 + p.dim@;
    widths_add_up(a4, 8, p.dim@, 0);
    let a6 = a5 + pad_left(percent, ' ', 3);
    widths_add_up(a5, 8, pad_left(percent, ' ', 3), 3);
    let a7 = a6 + "%"@;
    widths_add_up(a6, 11, "%"@, 1);
    let a8 = a7 + p.reset@;
    widths_add_up(a7, 12, p.reset@, 0);
    widths_add_up(a8, 12, "  "@, 2);
}

proof fn lemma_bar_takes(p: Palette, l: Level)
    requires
        invisible(p),
        l.filled <= BAR_W,
    ensures
        takes(bar_text(p, l), BAR_W as int),
{
    let n = l.filled as int;
    lemma_repeated_takes('█', n);
    lemma_repeated_takes('░', BAR_W - n);
    let a0 = heat_text(p, l.heat);
    let a1 = a0 + repeated('█', n);
    widths_add_up(a0, 0, repeated('█', n), n);
    let a2 = a1 + p.dim@;
    widths_add_up(a1, n, p.dim@, 0);
    let a3 = a2 + repeated('░', BAR_W - n);
    widths_add_up(a2, n, repeated('░', BAR_W - n), BAR_W - n);
    widths_add_up(a3, BAR_W as int, p.reset@, 0);
}

/// A row takes forty columns and those of its value.
pub proof fn rows_take_forty_and_their_value(p: Palette, label: Seq<char>, l: Level, value: Seq<char>, w: int)
    requires
        invisible(p),
        plain(label),
        label.len() <= 5,
        l.wf(),
        takes(value, w),
    ensures
        takes(gauge_row(p, label, l, value), 40 + w),
{
    lemma_left_takes(p, label, l.percent@);
    lemma_bar_takes(p, l);
    reveal_strlit("  ");
    plain_text_is_as_wide_as_long("  "@);
    let a1 = left_text(p, label, l.percent@) + bar_text(p, l);
    widths_add_up(left_text(p, label, l.percent@), 14, bar_text(p, l), BAR_W as int);
    let a2 = a1 + "  "@;
    widths_add_up(a1, 38, "  "@, 2);
    widths_add_up(a2, 40, value, w);
}

/// The columns of a number of digits set to at least `least`.
pub open spec fn at_least(n: int, least: int) -> int {
    if n < least {
        least
    } else {
        n
    }
}

proof fn lemma_watts_take(p: Palette, watts: Seq<char>)
    requires
        invisible(p),
        plain(watts),
    ensures
        takes(watts_text(p, watts), at_least(watts.len() as int, 5) + 2),
{
    reveal_strlit(" W");
    plain_text_is_as_wide_as_long(" W"@);
    lemma_pad_left_takes(watts, 5);
    let n = at_least(watts.len() as int, 5);
    let a1 = p.cyan@ + pad_left(watts, ' ', 5);
    widths_add_up(p.cyan@, 0, pad_left(watts, ' ', 5), n);
    let a2 = a1 + " W"@;
    widths_add_up(a1, n, " W"@, 2);
    widths_add_up(a2, n + 2, p.reset@, 0);
}

proof fn lemma_temp_takes(p: Palette, temp: Option<Seq<char>>, live: bool, h: Heat)
    requires
        invisible(p),
        temp matches Some(t) ==> plain(t),
    ensures
        takes(
            temp_text(p, temp, live, h),
            match temp {
                Some(t) => t.len() as int + 2,
                None => 4,
            },
        ),
{
    reveal_strlit("--°C");
    reveal_strlit("°C");
    plain_text_is_as_wide_as_long("--°C"@);
    plain_text_is_as_wide_as_long("°C"@);
    match temp {
        None => {
            widths_add_up(p.dim@, 0, "--°C"@, 4);
            widths_add_up(p.dim@ + "--°C"@, 4, p.reset@, 0);
        },
        Some(t) => {
            let c = if live {
                heat_text(p, h)
            } else {
                p.dim@
            };
            let n = t.len() as int;
            plain_text_is_as_wide_as_long(t);
            widths_add_up(c, 0, t, n);
            widths_add_up(c + t, n, "°C"@, 2);
            widths_add_up(c + t + "°C"@, n + 2, p.reset@, 0);
        },
    }
}

/// A power row with a temperature fits the box, for power of up to five characters
/// and temperatures of up to three digits, live, cached or absent.
pub proof fn temperature_rows_fit_the_box(
    p: Palette,
    label: Seq<char>,
    watts: Seq<char>,
    l: Level,
    temp: Option<Seq<char>>,
    live: bool,
    h: Heat,
)
    requires
        invisible(p),
        plain(label),
        label.len() <= 5,
        plain(watts),
        watts.len() <= 5,
        l.wf(),
        temp matches Some(t) ==> plain(t) && t.len() <= 3,
    ensures
        columns(
            gauge_row(
                p,
                label,
                l,
                badge_text(p, watts_text(p, watts), temp_text(p, temp, live, h)),
            ),
            0,
        ) <= INNER,
{
    lemma_watts_take(p, watts);
    lemma_temp_takes(p, temp, live, h);
    let t = temp_text(p, temp, live, h);
    let n: int = match temp {
        Some(x) => x.len() as int + 2,
        None => 4,
    };
    reveal_strlit("  ");
    reveal_strlit("(");
    reveal_strlit(")");
    plain_text_is_as_wide_as_long("  "@);
    plain_text_is_as_wide_as_long("("@);
    plain_text_is_as_wide_as_long(")"@);
    let a0 = watts_text(p, watts);
    let a1 = a0 + "  "@;
    widths_add_up(a0, 7, "  "@, 2);
    let a2 = a1 + p.dim@;
    widths_add_up(a1, 9, p.dim@, 0);
    let a3 = a2 + "("@;
    widths_add_up(a2, 9, "("@, 1);
    let a4 = a3 + p.reset@;
    widths_add_up(a3, 10, p.reset@, 0);
    let a5 = a4 + t;
    widths_add_up(a4, 10, t, n);
    let a6 = a5 + p.dim@;
    widths_add_up(a5, 10 + n, p.dim@, 0);
    let a7 = a6 + ")"@;
    widths_add_up(a6, 10 + n, ")"@, 1);
    widths_add_up(a7, 11 + n, p.reset@, 0);
    let v = badge_text(p, a0, t);
    rows_take_forty_and_their_value(p, label, l, v, 11 + n);
    lemma_measured_columns(gauge_row(p, label, l, v), 0);
}

/// A power row fits the box, for power of up to fourteen characters.
pub proof fn power_rows_fit_the_box(p: Palette, label: Seq<char>, watts: Seq<char>, l: Level)
    requires
        invisible(p),
        plain(label),
        label.len() <= 5,
        plain(watts),
        watts.len() <= 14,
        l.wf(),
    ensures
        columns(gauge_row(p, label, l, watts_text(p, watts)), 0) <= INNER,
{
    lemma_watts_take(p, watts);
    let w = at_least(watts.len() as int, 5) + 2;
    rows_take_forty_and_their_value(p, label, l, watts_text(p, watts), w);
    lemma_measured_columns(gauge_row(p, label, l, watts_text(p, watts)), 0);
}

proof fn lemma_dec_plain(n: nat)
    ensures
        plain(dec(n)),
{
    lemma_dec(n);
    assert forall|k: int| 0 <= k < dec(n).len() implies dec(n)[k] != '\x1b' by {
        assert(is_digit(dec(n)[k]));
    }
}

/// A utilization row fits the box, whatever the frequency.
pub proof fn utilization_rows_fit_the_box(p: Palette, label: Seq<char>, l: Level, freq_mhz: u32)
    requires
        invisible(p),
        plain(label),
        label.len() <= 5,
        l.wf(),
    ensures
        columns(gauge_row(p, label, l, freq_text(p, freq_mhz as nat)), 0) <= INNER,
{
    let digits = dec(freq_mhz as nat);
    reveal_with_fuel(ten_to, 11);
    lemma_dec_len(freq_mhz as nat, 10);
    lemma_dec_plain(freq_mhz as nat);
    lemma_pad_left_takes(digits, 4);
    let n = at_least(digits.len() as int, 4);
    reveal_strlit(" MHz");
    plain_text_is_as_wide_as_long(" MHz"@);
    let a1 = p.cyan@ + pad_left(digits, ' ', 4);
    widths_add_up(p.cyan@, 0, pad_left(digits, ' ', 4), n);
    let a2 = a1 + " MHz"@;
    widths_add_up(a1, n, " MHz"@, 4);
    widths_add_up(a2, n + 4, p.reset@, 0);
    let v = freq_text(p, freq_mhz as nat);
    rows_take_forty_and_their_value(p, label, l, v, n + 4);
    lemma_measured_columns(gauge_row(p, label, l, v), 0);
}

proof fn lemma_gb_text(bytes: nat)
    requires
        tenths(bytes) < 10_000,
    ensures
        plain(gb_text(bytes)),
        gb_text(bytes).len() <= 5,
{
    let t = tenths(bytes);
    reveal_with_fuel(ten_to, 4);
    lemma_dec_len(t / 10, 3);
    lemma_dec_len(t % 10, 1);
    lemma_dec_plain(t / 10);
    lemma_dec_plain(t % 10);
    reveal_strlit(".");
    let s = gb_text(bytes);
    assert forall|k: int| 0 <= k < s.len() implies s[k] != '\x1b' by {
        let a = dec(t / 10);
        if k < a.len() {
            assert(a.contains(a[k]));
        } else if k > a.len() {
            let b = dec(t % 10);
            assert(b.contains(b[k - a.len() - 1]));
        }
    }
}

/// The fan gauge never overflows the box, with a fan or without.
pub proof fn fan_rows_fit_the_box(p: Palette, l: Level, rpm: u32, max_rpm: u32)
    requires
        invisible(p),
        l.wf(),
    ensures
        columns(fan_text(p, l, rpm as nat, max_rpm as nat), 0) <= INNER,
{
    reveal_strlit("FAN");
    if max_rpm == 0 {
        reveal_strlit("  ");
        reveal_strlit("    ");
        reveal_strlit("—  ");
        reveal_strlit("  fanless");
        plain_text_is_as_wide_as_long("  "@);
        plain_text_is_as_wide_as_long("FAN"@);
        plain_text_is_as_wide_as_long("    "@);
        plain_text_is_as_wide_as_long("—  "@);
        plain_text_is_as_wide_as_long("  fanless"@);
        let dash = repeated('─', BAR_W as int);
        lemma_repeated_takes('─', BAR_W as int);
        let a1 = "  "@ + p.bold@;
        widths_add_up("  "@, 2, p.bold@, 0);
        let a2 = a1 + "FAN"@;
        widths_add_up(a1, 2, "FAN"@, 3);
        let a3 = a2 + p.reset@;
        widths_add_up(a2, 5, p.reset@, 0);
        let a4 = a3 + "    "@;
        widths_add_up(a3, 5, "    "@, 4);
        let a5 = a4 + p.dim@;
        widths_add_up(a4, 9, p.dim@, 0);
        let a6 = a5 + "—  "@;
        widths_add_up(a5, 9, "—  "@, 3);
        let a7 = a6 + dash;
        widths_add_up(a6, 12, dash, BAR_W as int);
        let a8 = a7 + "  fanless"@;
        widths_add_up(a7, 36, "  fanless"@, 9);
        widths_add_up(a8, 45, p.reset@, 0);
    } else {
        let digits = dec(rpm as nat);
        reveal_with_fuel(ten_to, 11);
        lemma_dec_len(rpm as nat, 10);
        lemma_dec_plain(rpm as nat);
        lemma_pad_left_takes(digits, 4);
        let n = at_least(digits.len() as int, 4);
        reveal_strlit(" RPM");
        plain_text_is_as_wide_as_long(" RPM"@);
        let a1 = p.cyan@ + pad_left(digits, ' ', 4);
        widths_add_up(p.cyan@, 0, pad_left(digits, ' ', 4), n);
        let a2 = a1 + " RPM"@;
        widths_add_up(a1, n, " RPM"@, 4);
        let v = a2 + p.reset@;
        widths_add_up(a2, n + 4, p.reset@, 0);
        rows_take_forty_and_their_value(p, "FAN"@, l, v, n + 4);
        lemma_measured_columns(gauge_row(p, "FAN"@, l, v), 0);
    }
}

/// A memory gauge never overflows the box, up to less than a thousand gigabytes.
pub proof fn memory_rows_fit_the_box(p: Palette, label: Seq<char>, l: Level, used: nat, total: nat)
    requires
        invisible(p),
        plain(label),
        label.len() <= 5,
        l.wf(),
        tenths(used) < 10_000,
        tenths(total) < 10_000,
    ensures
        columns(gauge_row(p, label, l, memory_text(p, used, total)), 0) <= INNER,
{
    let (x, y) = (gb_text(used), gb_text(total));
    lemma_gb_text(used);
    lemma_gb_text(total);
    lemma_pad_left_takes(x, 4);
    lemma_pad_left_takes(y, 4);
    let m = at_least(x.len() as int, 4);
    let n = at_least(y.len() as int, 4);
    reveal_strlit(" ");
    reveal_strlit("/ ");
    reveal_strlit(" GB");
    plain_text_is_as_wide_as_long(" "@);
    plain_text_is_as_wide_as_long("/ "@);
    plain_text_is_as_wide_as_long(" GB"@);
    let a1 = p.cyan@ + pad_left(x, ' ', 4);
    widths_add_up(p.cyan@, 0, pad_left(x, ' ', 4), m);
    let a2 = a1 + p.reset@;
    widths_add_up(a1, m, p.reset@, 0);
    let a3 = a2 + " "@;
    widths_add_up(a2, m, " "@, 1);
    let a4 = a3 + p.dim@;
    widths_add_up(a3, m + 1, p.dim@, 0);
    let a5 = a4 + "/ "@;
    widths_add_up(a4, m + 1, "/ "@, 2);
    let a6 = a5 + pad_left(y, ' ', 4);
    widths_add_up(a5, m + 3, pad_left(y, ' ', 4), n);
    let a7 = a6 + " GB"@;
    widths_add_up(a6, m + n + 3, " GB"@, 3);
    widths_add_up(a7, m + n + 6, p.reset@, 0);
    let v = memory_text(p, used, total);
    rows_take_forty_and_their_value(p, label, l, v, m + n + 6);
    lemma_measured_columns(gauge_row(p, label, l, v), 0);
}

/// A line whose content fits is exactly as wide as the box with its borders, so
/// that the right border stands in one column.
pub proof fn box_lines_are_of_one_width(p: Palette, content: Seq<char>, w: int, inner: int)
    requires
        invisible(p),
        takes(content, w),
        w <= inner,
    ensures
        takes(row_text(p, content, inner), inner + 2),
        takes(rule_text(p, inner), inner + 2),
{
    reveal_strlit("│");
    plain_text_is_as_wide_as_long("│"@);
    lemma_measured_columns(content, 0);
    lemma_repeated_takes(' ', inner - w);
    lemma_repeated_takes('─', inner);
    let a1 = p.erase_line@ + p.dim@;
    widths_add_up(p.erase_line@, 0, p.dim@, 0);
    let a2 = a1 + "│"@;
    widths_add_up(a1, 0, "│"@, 1);
    let a3 = a2 + p.reset@;
    widths_add_up(a2, 1, p.reset@, 0);
    let a4 = a3 + content;
    widths_add_up(a3, 1, content, w);
    let a5 = a4 + repeated(' ', inner - w);
    widths_add_up(a4, 1 + w, repeated(' ', inner - w), inner - w);
    let a6 = a5 + p.dim@;
    widths_add_up(a5, 1 + inner, p.dim@, 0);
    let a7 = a6 + "│"@;
    widths_add_up(a6, 1 + inner, "│"@, 1);
    widths_add_up(a7, 2 + inner, p.reset@, 0);
    let b3 = a2 + repeated('─', inner);
    widths_add_up(a2, 1, repeated('─', inner), inner);
    let b4 = b3 + "│"@;
    widths_add_up(b3, 1 + inner, "│"@, 1);
    widths_add_up(b4, 2 + inner, p.reset@, 0);
}

// ── Frames ───────────────────────────────────────────────────────────────────

/// The title of the box.
pub open spec fn title_text(
    version: Seq<char>,
    chip: Seq<char>,
    pcpu: nat,
    ecpu: nat,
    gpu: nat,
    total_gb: nat,
) -> Seq<char> {
    " v"@ + version + " · "@ + chip + " · "@ + dec(pcpu) + "P + "@ + dec(ecpu) + "E · "@ + (if gpu > 0 {
        dec(gpu) + " GPU · "@
    } else {
        Seq::empty()
    }) + dec(total_gb) + "GB "@
}

/// The title of the box.
pub fn title(version: &str, chip: &str, pcpu: u32, ecpu: u32, gpu: u32, total_gb: u32) -> (r: String)
    ensures
        r@ == title_text(
            version@,
            chip@,
            pcpu as nat,
            ecpu as nat,
            gpu as nat,
            total_gb as nat,
        ),
{
    broadcast use concat_assoc;

    let mut out: String = " v".to_string();
    out.append(version);
    out.append(" · ");
    out.append(chip);
    out.append(" · ");
    push_dec(&mut out, pcpu as u64);
    out.append("P + ");
    push_dec(&mut out, ecpu as u64);
    out.append("E · ");
    if gpu > 0 {
        push_dec(&mut out, gpu as u64);
        out.append(" GPU · ");
    } else {
        assert(out@ + Seq::<char>::empty() == out@);
    }
    push_dec(&mut out, total_gb as u64);
    out.append("GB ");
    out
}

/// The upper border, with the title in it.
pub open spec fn top_text(p: Palette, title: Seq<char>) -> Seq<char> {
    p.erase_line@ + p.dim@ + "╭─"@ + p.reset@ + p.bold@ + title + p.reset@ + p.dim@ + repeated(
        '─',
        INNER - 1 - columns(title, 0),
    ) + "╮"@ + p.reset@
}

/// Appends the upper border.
pub fn box_top(out: &mut String, p: &Palette, title: &str)
    ensures
        final(out)@ == old(out)@ + top_text(*p, title@) + "\n"@,
{
    broadcast use concat_assoc;

    let width: usize = visual_len(title);
    out.append(p.erase_line);
    out.append(p.dim);
    out.append("╭─");
    out.append(p.reset);
    out.append(p.bold);
    out.append(title);
    out.append(p.reset);
    out.append(p.dim);
    if width < INNER - 1 {
        push_repeated(out, '─', INNER - 1 - width);
    } else {
        assert(repeated('─', INNER - 1 - columns(title@, 0)) == Seq::<char>::empty());
        assert(out@ + Seq::<char>::empty() == out@);
    }
    out.append("╮");
    out.append(p.reset);
    out.append("\n");
}

/// The upper border is as wide as the lines below it, for a title that fits.
pub proof fn top_border_is_as_wide_as_the_box(p: Palette, title: Seq<char>, w: int)
    requires
        invisible(p),
        takes(title, w),
        w <= INNER - 1,
    ensures
        takes(top_text(p, title), INNER + 2),
{
    reveal_strlit("╭─");
    reveal_strlit("╮");
    plain_text_is_as_wide_as_long("╭─"@);
    plain_text_is_as_wide_as_long("╮"@);
    lemma_measured_columns(title, 0);
    let dash = repeated('─', INNER - 1 - w);
    lemma_repeated_takes('─', INNER - 1 - w);
    let a1 = p.erase_line@ + p.dim@;
    widths_add_up(p.erase_line@, 0, p.dim@, 0);
    let a2 = a1 + "╭─"@;
    widths_add_up(a1, 0, "╭─"@, 2);
    let a3 = a2 + p.reset@;
    widths_add_up(a2, 2, p.reset@, 0);
    let a4 = a3 + p.bold@;
    widths_add_up(a3, 2, p.bold@, 0);
    let a5 = a4 + title;
    widths_add_up(a4, 2, title, w);
    let a6 = a5 + p.reset@;
    widths_add_up(a5, 2 + w, p.reset@, 0);
    let a7 = a6 + p.dim@;
    widths_add_up(a6, 2 + w, p.dim@, 0);
    let a8 = a7 + dash;
    widths_add_up(a7, 2 + w, dash, INNER - 1 - w);
    let a9 = a8 + "╮"@;
    widths_add_up(a8, INNER + 1, "╮"@, 1);
    widths_add_up(a9, INNER + 2, p.reset@, 0);
}

/// The lower border, with the host and the time on the left and the window on the
/// right; `host` and `window` stand in it as they are.
pub open spec fn bottom_text(p: Palette, host: Seq<char>, window: Seq<char>) -> Seq<char> {
    p.erase_line@ + p.dim@ + "╰"@ + host + repeated(
        '─',
        INNER - vstd::utf8::encode_utf8(host).len() - vstd::utf8::encode_utf8(window).len(),
    ) + window + "╯"@ + p.reset@
}

/// Appends the lower border. The dashes are counted by the bytes of the texts in it.
pub fn box_bottom(out: &mut String, p: &Palette, host: &str, window: &str)
    ensures
        final(out)@ == old(out)@ + bottom_text(*p, host@, window@) + "\n"@,
{
    broadcast use concat_assoc;

    let a: usize = host.as_bytes().len();
    let b: usize = window.as_bytes().len();
    out.append(p.erase_line);
    out.append(p.dim);
    out.append("╰");
    out.append(host);
    if a <= INNER && b <= INNER - a {
        push_repeated(out, '─', INNER - a - b);
    } else {
        assert(repeated('─', INNER - a - b) == Seq::<char>::empty());
        assert(out@ + Seq::<char>::empty() == out@);
    }
    out.append(window);
    out.append("╯");
    out.append(p.reset);
    out.append("\n");
}

/// The bottom border is as wide as the box, for ASCII texts that fit into it.
pub proof fn bottom_border_is_as_wide_as_the_box(p: Palette, host: Seq<char>, window: Seq<char>)
    requires
        invisible(p),
        plain(host),
        plain(window),
        vstd::utf8::is_ascii_chars(host),
        vstd::utf8::is_ascii_chars(window),
        host.len() + window.len() <= INNER,
    ensures
        takes(bottom_text(p, host, window), INNER + 2),
{
    let (m, n) = (host.len() as int, window.len() as int);
    vstd::utf8::is_ascii_chars_encode_utf8(host);
    vstd::utf8::is_ascii_chars_encode_utf8(window);
    reveal_strlit("╰");
    reveal_strlit("╯");
    plain_text_is_as_wide_as_long("╰"@);
    plain_text_is_as_wide_as_long("╯"@);
    plain_text_is_as_wide_as_long(host);
    plain_text_is_as_wide_as_long(window);
    let dash = repeated('─', INNER - m - n);
    lemma_repeated_takes('─', INNER - m - n);
    let a1 = p.erase_line@ + p.dim@;
    widths_add_up(p.erase_line@, 0, p.dim@, 0);
    let a2 = a1 + "╰"@;
    widths_add_up(a1, 0, "╰"@, 1);
    let a3 = a2 + host;
    widths_add_up(a2, 1, host, m);
    let a4 = a3 + dash;
    widths_add_up(a3, 1 + m, dash, INNER - m - n);
    let a5 = a4 + window;
    widths_add_up(a4, 1 + INNER - n, window, n);
    let a6 = a5 + "╯"@;
    widths_add_up(a5, 1 + INNER, "╯"@, 1);
    widths_add_up(a6, 2 + INNER, p.reset@, 0);
}

/// The name of a month from 0 to 11.
pub open spec fn month_name(m: int) -> Seq<char> {
    if m == 0 {
        "Jan"@
    } else if m == 1 {
        "Feb"@
    } else if m == 2 {
        "Mar"@
    } else if m == 3 {
        "Apr"@
    } else if m == 4 {
        "May"@
    } else if m == 5 {
        "Jun"@
    } else if m == 6 {
        "Jul"@
    } else if m == 7 {
        "Aug"@
    } else if m == 8 {
        "Sep"@
    } else if m == 9 {
        "Oct"@
    } else if m == 10 {
        "Nov"@
    } else if m == 11 {
        "Dec"@
    } else {
        "???"@
    }
}

fn month(m: u32) -> (r: &'static str)
    ensures
        r@ == month_name(m as int),
{
    if m == 0 {
        "Jan"
    } else if m == 1 {
        "Feb"
    } else if m == 2 {
        "Mar"
    } else if m == 3 {
        "Apr"
    } else if m == 4 {
        "May"
    } else if m == 5 {
        "Jun"
    } else if m == 6 {
        "Jul"
    } else if m == 7 {
        "Aug"
    } else if m == 8 {
        "Sep"
    } else if m == 9 {
        "Oct"
    } else if m == 10 {
        "Nov"
    } else if m == 11 {
        "Dec"
    } else {
        "???"
    }
}

/// Local time in the form `12:34 09-Apr`; months are counted from 0.
pub fn now_str(hour: u32, minute: u32, day: u32, month_index: u32) -> (r: String)
    ensures
        r@ == pad_left(dec(hour as nat), '0', 2) + ":"@ + pad_left(dec(minute as nat), '0', 2) + " "@
            + pad_left(dec(day as nat), '0', 2) + "-"@ + month_name(month_index as int),
{
    let mut out: String = String::new();
    push_padded(&mut out, &decimal(hour as u64), '0', 2);
    assert(out@ == pad_left(dec(hour as nat), '0', 2));
    out.append(":");
    push_padded(&mut out, &decimal(minute as u64), '0', 2);
    out.append(" ");
    push_padded(&mut out, &decimal(day as u64), '0', 2);
    out.append("-");
    out.append(month(month_index));
    out
}

/// The rows of a frame.
pub struct Rows {
    pub sys: String,
    pub fan: String,
    pub gpu: String,
    pub cpu: String,
    pub ane: String,
    pub dram: String,
    pub pcpu_util: String,
    pub ecpu_util: String,
    pub gpu_util: String,
    pub memory: String,
    pub swap: String,
}

/// A frame: the box with power, utilization and memory in sections of their own.
pub open spec fn frame_text(p: Palette, title: Seq<char>, rows: Rows, host: Seq<char>, window: Seq<char>) -> Seq<
    char,
> {
    let n = INNER as int;
    let gap = row_text(p, Seq::empty(), n) + "\n"@;
    p.home@ + (top_text(p, title) + "\n"@) + gap + (row_text(p, rows.sys@, n) + "\n"@) + (row_text(
        p,
        rows.fan@,
        n,
    ) + "\n"@) + (rule_text(p, n) + "\n"@) + (row_text(p, rows.gpu@, n) + "\n"@) + (row_text(
        p,
        rows.cpu@,
        n,
    ) + "\n"@) + (row_text(p, rows.ane@, n) + "\n"@) + (row_text(p, rows.dram@, n) + "\n"@) + gap + (
    row_text(p, rows.pcpu_util@, n) + "\n"@) + (row_text(p, rows.ecpu_util@, n) + "\n"@) + (row_text(
        p,
        rows.gpu_util@,
        n,
    ) + "\n"@) + gap + (row_text(p, rows.memory@, n) + "\n"@) + (row_text(p, rows.swap@, n) + "\n"@)
        + gap + (bottom_text(p, host, window) + "\n"@)
}

/// A frame.
pub fn frame(p: &Palette, title: &str, rows: &Rows, host: &str, window: &str) -> (r: String)
    ensures
        r@ == frame_text(*p, title@, *rows, host@, window@),
{
    let mut out: String = p.home.to_string();
    box_top(&mut out, p, title);
    box_empty(&mut out, p, INNER);
    box_row(&mut out, p, &rows.sys, INNER);
    box_row(&mut out, p, &rows.fan, INNER);
    box_rule(&mut out, p, INNER);
    box_row(&mut out, p, &rows.gpu, INNER);
    box_row(&mut out, p, &rows.cpu, INNER);
    box_row(&mut out, p, &rows.ane, INNER);
    box_row(&mut out, p, &rows.dram, INNER);
    box_empty(&mut out, p, INNER);
    box_row(&mut out, p, &rows.pcpu_util, INNER);
    box_row(&mut out, p, &rows.ecpu_util, INNER);
    box_row(&mut out, p, &rows.gpu_util, INNER);
    box_empty(&mut out, p, INNER);
    box_row(&mut out, p, &rows.memory, INNER);
    box_row(&mut out, p, &rows.swap, INNER);
    box_empty(&mut out, p, INNER);
    box_bottom(&mut out, p, host, window);
    proof {
        broadcast use concat_assoc;

    }
    out
}

// ── What the figures say ─────────────────────────────────────────────────────

/// A chip is cool below 70 degrees and hot from 85 degrees on; between them it is warm.
pub proof fn chips_are_warm_from_seventy_degrees(t: Value, degree: int)
    requires
        t.rank() is Some,
        (Value::Fixed { mantissa: 1, fraction: 0 }).rank() == Some(degree),
    ensures
        Heat::temp_heat(t) == Heat::Low <==> t.rank()->0 < 70 * degree,
        Heat::temp_heat(t) == Heat::High <==> t.rank()->0 >= 85 * degree,
{
    forms_agree_on_one(0);
    lemma_pow2_pos(255);
    assert(70 * degree < 85 * degree);
}

/// A gauge is low up to two fifths and high from three quarters on; between them, but for
/// what rounding adds to the two fifths, it is in the middle.
pub proof fn gauges_are_high_from_three_quarters(part: Value, all: int)
    requires
        part.rank() is Some,
        (Value::Fixed { mantissa: 1, fraction: 0 }).rank() == Some(all),
    ensures
        5 * part.rank()->0 <= 2 * all ==> Heat::part_heat(part) == Heat::Low,
        4 * part.rank()->0 >= 3 * all <==> Heat::part_heat(part) == Heat::High,
        10_000_000 * part.rank()->0 >= 4_000_001 * all && 4 * part.rank()->0 < 3 * all
            ==> Heat::part_heat(part) == Heat::Middle,
{
    forms_agree_on_one(0);
    let p = pow2(230) as int;
    lemma_pow2_pos(230);
    lemma2_to64();
    lemma_pow2_adds(25, 230);
    lemma_pow2_adds(1, 230);
    assert(all == 0x200_0000 * p);
    assert(Value::exponent(MIDDLE_PART) == 125 && Value::significand(MIDDLE_PART) == 13421773);
    assert(Value::Float(MIDDLE_PART).rank() == Some(13421773 * p));
    assert(Value::exponent(HIGH_PART) == 126 && Value::significand(HIGH_PART) == 12582912);
    assert(Value::Float(HIGH_PART).rank() == Some(12582912 * (2 * p)));
}

/// Memory in tenths of a gigabyte is off by half a tenth at most, and where it is off by
/// that much the tenths are even.
pub proof fn tenths_are_nearest(bytes: nat)
    ensures
        -0x2000_0000 <= tenths(bytes) * 0x4000_0000 - bytes * 10 <= 0x2000_0000,
        (tenths(bytes) * 0x4000_0000 - bytes * 10 == 0x2000_0000 || tenths(bytes) * 0x4000_0000 - bytes
            * 10 == -0x2000_0000) ==> tenths(bytes) % 2 == 0,
{
}

/// Memory in whole gigabytes is off by half a gigabyte at most, and a half counts up.
pub proof fn gigabytes_are_nearest(bytes: nat)
    ensures
        -0x2000_0000 < nearest_gb(bytes) * 0x4000_0000 - bytes <= 0x2000_0000,
{
}

/// The months go by the three letters that their names begin with.
pub proof fn months_have_three_letters(m: int)
    requires
        0 <= m < 12,
    ensures
        month_name(m) == "JanFebMarAprMayJunJulAugSepOctNovDec"@.subrange(3 * m, 3 * m + 3),
{
    reveal_strlit("JanFebMarAprMayJunJulAugSepOctNovDec");
    reveal_strlit("Jan");
    reveal_strlit("Feb");
    reveal_strlit("Mar");
    reveal_strlit("Apr");
    reveal_strlit("May");
    reveal_strlit("Jun");
    reveal_strlit("Jul");
    reveal_strlit("Aug");
    reveal_strlit("Sep");
    reveal_strlit("Oct");
    reveal_strlit("Nov");
    reveal_strlit("Dec");
    assert(month_name(m) =~= "JanFebMarAprMayJunJulAugSepOctNovDec"@.subrange(3 * m, 3 * m + 3));
}

/// Without colors a bar is twenty-four blocks, full ones as far as it is filled and then
/// light ones.
pub proof fn bars_are_filled_from_the_left(p: Palette, l: Level, k: int)
    requires
        l.filled <= 24,
        p.green@.len() == 0 && p.yellow@.len() == 0 && p.red@.len() == 0,
        p.dim@.len() == 0 && p.reset@.len() == 0,
        0 <= k < 24,
    ensures
        bar_text(p, l).len() == 24,
        bar_text(p, l)[k] == if k < l.filled {
            '█'
        } else {
            '░'
        },
{
}

/// The first `n` lines behind `start`, each with a line feed behind it.
pub open spec fn stacked(start: Seq<char>, ls: Seq<Seq<char>>, n: int) -> Seq<char>
    decreases n,
{
    if n <= 0 {
        start
    } else {
        stacked(start, ls, n - 1) + (ls[n - 1] + "\n"@)
    }
}

proof fn lemma_stacked_step(start: Seq<char>, ls: Seq<Seq<char>>, n: int)
    requires
        n > 0,
    ensures
        stacked(start, ls, n) == stacked(start, ls, n - 1) + (ls[n - 1] + "\n"@),
        stacked(start, ls, 0) == start,
{
}

/// A frame is eighteen lines from the top of the screen: the border with the title;
/// power of the whole and the fan; the power of the parts; utilization; memory; and the
/// border with the host and the window. Gaps and a rule part the sections.
#[verifier::spinoff_prover]
#[verifier::rlimit(40)]
pub proof fn frames_have_eighteen_lines(
    p: Palette,
    title: Seq<char>,
    rows: Rows,
    host: Seq<char>,
    window: Seq<char>,
)
    ensures
        ({
            let gap = row_text(p, Seq::empty(), 56);
            let ls = seq![
                top_text(p, title),
                gap,
                row_text(p, rows.sys@, 56),
                row_text(p, rows.fan@, 56),
                rule_text(p, 56),
                row_text(p, rows.gpu@, 56),
                row_text(p, rows.cpu@, 56),
                row_text(p, rows.ane@, 56),
                row_text(p, rows.dram@, 56),
                gap,
                row_text(p, rows.pcpu_util@, 56),
                row_text(p, rows.ecpu_util@, 56),
                row_text(p, rows.gpu_util@, 56),
                gap,
                row_text(p, rows.memory@, 56),
                row_text(p, rows.swap@, 56),
                gap,
                bottom_text(p, host, window),
            ];
            frame_text(p, title, rows, host, window) == stacked(p.home@, ls, 18)
        }),
{
    let gap = row_text(p, Seq::empty(), 56);
    let ls = seq![
        top_text(p, title),
        gap,
        row_text(p, rows.sys@, 56),
        row_text(p, rows.fan@, 56),
        rule_text(p, 56),
        row_text(p, rows.gpu@, 56),
        row_text(p, rows.cpu@, 56),
        row_text(p, rows.ane@, 56),
        row_text(p, rows.dram@, 56),
        gap,
        row_text(p, rows.pcpu_util@, 56),
        row_text(p, rows.ecpu_util@, 56),
        row_text(p, rows.gpu_util@, 56),
        gap,
        row_text(p, rows.memory@, 56),
        row_text(p, rows.swap@, 56),
        gap,
        bottom_text(p, host, window),
    ];
    lemma_stacked_step(p.home@, ls, 1);
    lemma_stacked_step(p.home@, ls, 2);
    lemma_stacked_step(p.home@, ls, 3);
    lemma_stacked_step(p.home@, ls, 4);
    lemma_stacked_step(p.home@, ls, 5);
    lemma_stacked_step(p.home@, ls, 6);
    lemma_stacked_step(p.home@, ls, 7);
    lemma_stacked_step(p.home@, ls, 8);
    lemma_stacked_step(p.home@, ls, 9);
    lemma_stacked_step(p.home@, ls, 10);
    lemma_stacked_step(p.home@, ls, 11);
    lemma_stacked_step(p.home@, ls, 12);
    lemma_stacked_step(p.home@, ls, 13);
    lemma_stacked_step(p.home@, ls, 14);
    lemma_stacked_step(p.home@, ls, 15);
    lemma_stacked_step(p.home@, ls, 16);
    lemma_stacked_step(p.home@, ls, 17);
    lemma_stacked_step(p.home@, ls, 18);
}

} // verus!
