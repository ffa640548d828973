//! Numbers as the controller holds them: floating point by its bits, or fixed point.
//! Their whole parts and their order are computed on integers, and are exact.
use vstd::arithmetic::power2::lemma2_to64;
use vstd::arithmetic::power2::lemma_pow2_adds;
use vstd::arithmetic::power2::lemma_pow2_pos;
use vstd::arithmetic::power2::lemma_pow2_strictly_increases;
use vstd::arithmetic::power2::pow2;
use vstd::prelude::*;

verus! {

/// A number as the controller holds it.
#[derive(Debug, Clone, Copy, PartialEq, Eq)]
pub enum Value {
    /// The bits of a single-precision floating-point number.
    Float(u32),
    /// `mantissa` divided by two to the power of `fraction`.
    Fixed { mantissa: i64, fraction: u8 },
}

impl Value {
    /// The biased exponent of a floating-point number.
    pub open spec fn exponent(bits: u32) -> int {
        bits as int / 0x80_0000 % 0x100
    }

    /// The significand of a floating-point number, as an integer.
    pub open spec fn significand(bits: u32) -> int {
        let m = bits as int % 0x80_0000;
        if Value::exponent(bits) == 0 {
            m
        } else {
            m + 0x80_0000
        }
    }

    /// Whether the value is a number, and not an infinite one.
    pub open spec fn finite(self) -> bool {
        match self {
            Value::Float(bits) => Value::exponent(bits) != 0xff,
            Value::Fixed { .. } => true,
        }
    }

    /// The whole part of a value, not less than 0 and not more than a `u32` can
    /// hold; 0 for what is no number.
    pub open spec fn whole_part(self) -> int {
        match self {
            Value::Float(bits) => {
                let e = Value::exponent(bits);
                if bits >= 0x8000_0000 || (e == 0xff && bits as int % 0x80_0000 != 0) {
                    0
                } else if e == 0xff {
                    u32::MAX as int
                } else {
                    at_most_u32(
                        if e >= 150 {
                            Value::significand(bits) * pow2((e - 150) as nat)
                        } else {
                            Value::significand(bits) / pow2((150 - e) as nat) as int
                        },
                    )
                }
            },
            Value::Fixed { mantissa, fraction } => if mantissa < 0 {
                0
            } else {
                at_most_u32(mantissa as int / pow2(fraction as nat) as int)
            },
        }
    }

    /// Whether the value is a number, and not an infinite one.
    pub fn is_finite(&self) -> (r: bool)
        ensures
            r == self.finite(),
    {
        match self {
            Value::Float(bits) => *bits / 0x80_0000 % 0x100 != 0xff,
            Value::Fixed { .. } => true,
        }
    }

    /// The whole part of a value, within what a `u32` can hold.
    pub fn whole(&self) -> (r: u32)
        ensures
            r == self.whole_part(),
    {
        match self {
            Value::Float(bits) => {
                let e: u32 = *bits / 0x80_0000 % 0x100;
                let m: u32 = *bits % 0x80_0000;
                if *bits >= 0x8000_0000 || (e == 0xff && m != 0) {
                    0
                } else if e >= 159 {
                    proof {
                        if e < 0xff {
                            lemma_large(Value::significand(*bits), e as int);
                        }
                    }
                    u32::MAX
                } else if e < 127 {
                    proof {
                        lemma_small(Value::significand(*bits), e as int);
                    }
                    0
                } else {
                    let s: u64 = m as u64 + 0x80_0000;
                    proof {
                        lemma2_to64();
                        lemma_scaled(s, e as u64);
                    }
                    if e >= 150 {
                        (s << (e as u64 - 150)) as u32
                    } else {
                        (s >> (150 - e as u64)) as u32
                    }
                }
            },
            Value::Fixed { mantissa, fraction } => {
                if *mantissa < 0 {
                    0
                } else {
                    let m: u64 = *mantissa as u64;
                    let n: u64 = if *fraction < 64 {
                        proof {
                            vstd::bits::lemma_u64_shr_is_div(m, *fraction as u64);
                        }
                        m >> (*fraction as u64)
                    } else {
                        proof {
                            lemma_far(m as int, *fraction as nat);
                        }
                        0
                    };
                    if n < 0xffff_ffff {
                        n as u32
                    } else {
                        u32::MAX
                    }
                }
            },
        }
    }
}

/// A number, or the largest that a `u32` can hold where that is less.
pub open spec fn at_most_u32(n: int) -> int {
    if n < u32::MAX {
        n
    } else {
        u32::MAX as int
    }
}

proof fn lemma_large(s: int, e: int)
    requires
        s >= 0x80_0000,
        e >= 159,
    ensures
        s * pow2((e - 150) as nat) > u32::MAX,
{
    lemma2_to64();
    if e > 159 {
        lemma_pow2_strictly_increases(9, (e - 150) as nat);
    }
    let p = pow2((e - 150) as nat) as int;
    assert(p >= 512);
    assert(s * p >= 0x80_0000 * 512) by (nonlinear_arith)
        requires
            s >= 0x80_0000,
            p >= 512,
    ;
}

proof fn lemma_small(s: int, e: int)
    requires
        0 <= s < 0x100_0000,
        0 <= e < 127,
    ensures
        s / pow2((150 - e) as nat) as int == 0,
{
    lemma2_to64();
    if e < 126 {
        lemma_pow2_strictly_increases(24, (150 - e) as nat);
    }
    vstd::arithmetic::div_mod::lemma_basic_div(s, pow2((150 - e) as nat) as int);
}

proof fn lemma_far(m: int, f: nat)
    requires
        0 <= m <= i64::MAX,
        f >= 64,
    ensures
        m / pow2(f) as int == 0,
{
    lemma2_to64();
    if f > 64 {
        lemma_pow2_strictly_increases(64, f);
    }
    vstd::arithmetic::div_mod::lemma_basic_div(m, pow2(f) as int);
}

proof fn lemma_scaled(s: u64, e: u64)
    requires
        0x80_0000 <= s < 0x100_0000,
        127 <= e < 159,
    ensures
        e >= 150 ==> (s << ((e - 150) as u64)) == s * pow2((e - 150) as nat) && s * pow2(
            (e - 150) as nat,
        ) < u32::MAX,
        e < 150 ==> (s >> ((150 - e) as u64)) == s as int / pow2((150 - e) as nat) as int,
        e < 150 ==> s as int / pow2((150 - e) as nat) as int <= s,
{
    lemma2_to64();
    if e >= 150 {
        let p = pow2((e - 150) as nat) as int;
        if e < 158 {
            lemma_pow2_strictly_increases((e - 150) as nat, 8);
        }
        lemma_pow2_pos((e - 150) as nat);
        assert(0 <= s * p <= 0xff_ffff * 256) by (nonlinear_arith)
            requires
                0 <= s <= 0xff_ffff,
                0 < p <= 256,
        ;
        vstd::bits::lemma_u64_shl_is_mul(s, (e - 150) as u64);
    } else {
        vstd::bits::lemma_u64_shr_is_div(s, (150 - e) as u64);
        lemma_pow2_pos((150 - e) as nat);
        let p = pow2((150 - e) as nat) as int;
        assert(s as int / p <= s) by (nonlinear_arith)
            requires
                s >= 0,
                p > 0,
        ;
    }
}

// ── Order ────────────────────────────────────────────────────────────────────

/// The sign of a number and its magnitude: `mantissa` times two to the power of
/// `shift`, in units of two to the power of minus 255.
#[derive(Debug, Clone, Copy, PartialEq, Eq)]
pub struct Magnitude {
    pub negative: bool,
    pub mantissa: u64,
    pub shift: u32,
}

impl Magnitude {
    /// The number without its sign.
    pub open spec fn size(self) -> int {
        self.mantissa * pow2(self.shift as nat)
    }

    /// The number.
    pub open spec fn signed(self) -> int {
        if self.negative {
            -self.size()
        } else {
            self.size()
        }
    }

    /// Whether this number, without its sign, is at most the other.
    fn fits_in(&self, other: &Magnitude) -> (r: bool)
        ensures
            r == (self.size() <= other.size()),
    {
        let (m, n) = (self.mantissa, other.mantissa);
        if self.shift >= other.shift {
            let d: u32 = self.shift - other.shift;
            proof {
                lemma_shifted(m as int, self.shift as nat, n as int, other.shift as nat);
                lemma_beyond_words(m as int, d as nat, n as int);
            }
            if m == 0 {
                true
            } else if d >= 64 {
                false
            } else {
                proof {
                    vstd::bits::lemma_u64_shr_is_div(n, d as u64);
                    lemma_pow2_pos(d as nat);
                    lemma_times_fits(m as int, pow2(d as nat) as int, n as int);
                }
                m <= n >> (d as u64)
            }
        } else {
            let d: u32 = other.shift - self.shift;
            proof {
                lemma_shifted(n as int, other.shift as nat, m as int, self.shift as nat);
                lemma_beyond_words(n as int, d as nat, m as int);
            }
            if m == 0 {
                proof {
                    lemma_pow2_pos(d as nat);
                    assert(n * pow2(d as nat) >= 0) by (nonlinear_arith)
                        requires
                            n >= 0,
                            pow2(d as nat) > 0,
                    ;
                }
                true
            } else if n == 0 {
                false
            } else if d >= 64 {
                true
            } else {
                proof {
                    vstd::bits::lemma_u64_shr_is_div((m - 1) as u64, d as u64);
                    lemma_pow2_pos(d as nat);
                    lemma_times_fits(n as int, pow2(d as nat) as int, m - 1);
                }
                ((m - 1) >> (d as u64)) < n
            }
        }
    }
}

/// `m` times `p` is at most `n` if and only if `m` is at most the quotient of `n` by `p`.
proof fn lemma_times_fits(m: int, p: int, n: int)
    requires
        p > 0,
        n >= 0,
    ensures
        m * p <= n <==> m <= n / p,
{
    vstd::arithmetic::div_mod::lemma_fundamental_div_mod(n, p);
    let q = n / p;
    assert(0 <= n - p * q < p);
    if m <= q {
        assert(m * p <= p * q) by (nonlinear_arith)
            requires
                m <= q,
                p > 0,
        ;
    } else {
        assert(m * p >= p * q + p) by (nonlinear_arith)
            requires
                m >= q + 1,
                p > 0,
        ;
    }
}

/// Comparing at a common power of two is comparing what is left.
proof fn lemma_shifted(m: int, s: nat, n: int, t: nat)
    requires
        s >= t,
    ensures
        m * pow2(s) <= n * pow2(t) <==> m * pow2((s - t) as nat) <= n,
        n * pow2(t) <= m * pow2(s) <==> n <= m * pow2((s - t) as nat),
{
    let d = (s - t) as nat;
    lemma_pow2_adds(d, t);
    lemma_pow2_pos(t);
    let (p, q) = (pow2(d) as int, pow2(t) as int);
    let x = m * p;
    assert(m * (p * q) == x * q) by (nonlinear_arith)
        requires
            x == m * p,
    ;
    assert(x * q <= n * q <==> x <= n) by (nonlinear_arith)
        requires
            q > 0,
    ;
    assert(n * q <= x * q <==> n <= x) by (nonlinear_arith)
        requires
            q > 0,
    ;
}

/// What is shifted by 64 is zero or more than a word holds.
proof fn lemma_beyond_words(m: int, d: nat, n: int)
    requires
        m >= 0,
        0 <= n <= u64::MAX,
    ensures
        m > 0 && d >= 64 ==> m * pow2(d) > n,
        m == 0 ==> m * pow2(d) == 0,
{
    lemma2_to64();
    if d > 64 {
        lemma_pow2_strictly_increases(64, d);
    }
    let p = pow2(d) as int;
    if m > 0 && d >= 64 {
        assert(m * p >= p) by (nonlinear_arith)
            requires
                m >= 1,
                p > 0,
        ;
    }
}

impl Value {
    /// The value of an infinite number: beyond all others.
    pub open spec fn beyond() -> int {
        pow2(400) as int
    }

    /// The number, in units of two to the power of minus 255; nothing for what is no
    /// number.
    pub open spec fn rank(self) -> Option<int> {
        match self {
            Value::Fixed { mantissa, fraction } => Some(
                mantissa * pow2((255 - fraction) as nat),
            ),
            Value::Float(bits) => {
                let e = Value::exponent(bits);
                if e == 0xff && bits as int % 0x80_0000 != 0 {
                    None
                } else {
                    let size = if e == 0xff {
                        Value::beyond()
                    } else if e == 0 {
                        Value::significand(bits) * pow2(106)
                    } else {
                        Value::significand(bits) * pow2((e + 105) as nat)
                    };
                    Some(
                        if bits >= 0x8000_0000 {
                            -size
                        } else {
                            size
                        },
                    )
                }
            },
        }
    }

    fn magnitude(&self) -> (r: Option<Magnitude>)
        ensures
            match r {
                Some(m) => self.rank() == Some(m.signed()),
                None => self.rank() is None,
            },
    {
        match self {
            Value::Fixed { mantissa, fraction } => {
                let negative: bool = *mantissa < 0;
                let size: u64 = if negative {
                    (-(*mantissa as i128)) as u64
                } else {
                    *mantissa as u64
                };
                let shift: u32 = 255 - *fraction as u32;
                proof {
                    let p = pow2(shift as nat) as int;
                    assert(-(size * p) == (-size) * p) by (nonlinear_arith);
                }
                Some(Magnitude { negative, mantissa: size, shift })
            },
            Value::Float(bits) => {
                let e: u32 = *bits / 0x80_0000 % 0x100;
                let m: u32 = *bits % 0x80_0000;
                let negative: bool = *bits >= 0x8000_0000;
                if e == 0xff {
                    if m != 0 {
                        None
                    } else {
                        Some(Magnitude { negative, mantissa: 1, shift: 400 })
                    }
                } else if e == 0 {
                    Some(Magnitude { negative, mantissa: m as u64, shift: 106 })
                } else {
                    Some(Magnitude { negative, mantissa: m as u64 + 0x80_0000, shift: e + 105 })
                }
            },
        }
    }

    /// Whether a number is at most another; neither is so of what is no number.
    pub open spec fn at_most(self, other: Value) -> bool {
        self.rank() matches Some(a) && other.rank() matches Some(b) && a <= b
    }

    /// Whether a number is at most another.
    pub fn is_at_most(&self, other: &Value) -> (r: bool)
        ensures
            r == self.at_most(*other),
    {
        match (self.magnitude(), other.magnitude()) {
            (Some(a), Some(b)) => {
                proof {
                    lemma_size(a);
                    lemma_size(b);
                }
                if a.negative && b.negative {
                    b.fits_in(&a)
                } else if a.negative {
                    true
                } else if b.negative {
                    a.mantissa == 0 && b.mantissa == 0
                } else {
                    a.fits_in(&b)
                }
            },
            _ => false,
        }
    }

    /// Whether a number is less than another; neither is so of what is no number.
    pub open spec fn below(self, other: Value) -> bool {
        self.rank() matches Some(a) && other.rank() matches Some(b) && a < b
    }

    /// Whether a number is less than another.
    pub fn is_below(&self, other: &Value) -> (r: bool)
        ensures
            r == self.below(*other),
    {
        self.is_at_most(other) && !other.is_at_most(self)
    }

    /// Whether a number is above zero.
    pub open spec fn positive(self) -> bool {
        self.rank() matches Some(a) && a > 0
    }

    /// Whether a number is below zero.
    pub open spec fn negative(self) -> bool {
        self.rank() matches Some(a) && a < 0
    }

    /// Whether a number is above zero.
    pub fn is_positive(&self) -> (r: bool)
        ensures
            r == self.positive(),
    {
        match self.magnitude() {
            Some(a) => {
                proof {
                    lemma_size(a);
                }
                !a.negative && a.mantissa != 0
            },
            None => false,
        }
    }

    /// Whether a number is below zero.
    pub fn is_negative(&self) -> (r: bool)
        ensures
            r == self.negative(),
    {
        match self.magnitude() {
            Some(a) => {
                proof {
                    lemma_size(a);
                }
                a.negative && a.mantissa != 0
            },
            None => false,
        }
    }
}

impl Value {
    /// Whether the value is a number, be it an infinite one.
    pub fn is_number(&self) -> (r: bool)
        ensures
            r == self.rank() is Some,
    {
        self.magnitude().is_some()
    }
}

proof fn lemma_size(m: Magnitude)
    ensures
        m.size() >= 0,
        m.size() == 0 <==> m.mantissa == 0,
{
    lemma_pow2_pos(m.shift as nat);
    let p = pow2(m.shift as nat) as int;
    assert(m.mantissa * p >= 0 && (m.mantissa * p == 0 <==> m.mantissa == 0)) by (nonlinear_arith)
        requires
            p > 0,
            m.mantissa >= 0,
    ;
}

/// The order is total on numbers: of any two, one is at most the other.
pub proof fn numbers_are_ordered(a: Value, b: Value)
    requires
        a.rank() is Some,
        b.rank() is Some,
    ensures
        a.at_most(b) || b.at_most(a),
        a.at_most(b) && b.at_most(a) <==> a.rank() == b.rank(),
{
}

/// An infinite number lies beyond every finite one.
pub proof fn infinities_lie_beyond(v: Value)
    requires
        v.rank() is Some,
        v.finite(),
    ensures
        -Value::beyond() < v.rank()->0 < Value::beyond(),
{
    lemma2_to64();
    match v {
        Value::Fixed { mantissa, fraction } => {
            lemma_within(mantissa as int, (255 - fraction) as nat);
        },
        Value::Float(bits) => {
            let e = Value::exponent(bits);
            let s = Value::significand(bits);
            lemma_within(
                s,
                if e == 0 {
                    106
                } else {
                    (e + 105) as nat
                },
            );
        },
    }
}

proof fn lemma_within(m: int, k: nat)
    requires
        -0x8000_0000_0000_0000 <= m < 0x8000_0000_0000_0000,
        k < 360,
        k >= 256 ==> -0x100_0000 < m < 0x100_0000,
    ensures
        -pow2(400) < m * pow2(k) < pow2(400),
{
    lemma2_to64();
    lemma_pow2_pos(k);
    let p = pow2(k) as int;
    let (w, bound): (nat, int) = if k >= 256 {
        (24nat, 0x100_0000int)
    } else {
        (63nat, 0x8000_0000_0000_0000int)
    };
    assert(pow2(w) == bound) by {
        vstd::arithmetic::power2::lemma_pow2_adds(63, 1);
        assert(pow2(64) == 0x1_0000_0000_0000_0000);
        assert(pow2(1) == 2);
    }
    lemma_pow2_adds(w, k);
    lemma_pow2_strictly_increases(w + k, 400);
    assert(-(bound * p) <= m * p <= bound * p) by (nonlinear_arith)
        requires
            p > 0,
            -bound <= m <= bound,
    ;
}

/// The numbers among readings of which some are missing.
pub open spec fn present_number(read: Option<Value>) -> bool {
    read matches Some(v) && v.rank() is Some
}

/// The greatest of the readings that are present; nothing where none is, or where
/// none is a number.
pub fn max_present(reads: &Vec<Option<Value>>) -> (r: Option<Value>)
    ensures
        r is Some <==> exists|i: int| 0 <= i < reads@.len() && present_number(#[trigger] reads@[i]),
        r matches Some(v) ==> reads@.contains(Some(v)) && v.rank() is Some,
        r matches Some(v) ==> forall|i: int|
            0 <= i < reads@.len() && present_number(#[trigger] reads@[i]) ==> reads@[i]->0.at_most(v),
{
    let mut best: Option<Value> = None;
    let mut i: usize = 0;
    while i < reads.len()
        invariant
            i <= reads@.len(),
            best is Some <==> exists|k: int| 0 <= k < i && present_number(#[trigger] reads@[k]),
            best matches Some(v) ==> reads@.contains(Some(v)) && v.rank() is Some,
            best matches Some(v) ==> forall|k: int|
                0 <= k < i && present_number(#[trigger] reads@[k]) ==> reads@[k]->0.at_most(v),
        decreases reads@.len() - i,
    {
        if let Some(v) = reads[i] {
            assert(reads@[i as int] == Some(v));
            match best {
                Some(b) => {
                    if b.is_at_most(&v) {
                        best = Some(v);
                    } else {
                        assert(present_number(reads@[i as int]) ==> v.at_most(b));
                    }
                },
                None => {
                    if v.is_at_most(&v) {
                        best = Some(v);
                        assert(present_number(reads@[i as int]));
                    }
                },
            }
        }
        i += 1;
    }
    best
}

/// A quotient, rounded down, measured against the number that was divided.
proof fn lemma_floor(m: int, p: int, q: int)
    requires
        m >= 0,
        p > 0,
        q > 0,
    ensures
        (m / p) * (p * q) <= m * q < (m / p + 1) * (p * q),
{
    vstd::arithmetic::div_mod::lemma_fundamental_div_mod(m, p);
    let k = m / p;
    assert(p * k <= m < p * k + p);
    assert(k * (p * q) == (p * k) * q) by (nonlinear_arith);
    assert((k + 1) * (p * q) == (p * k + p) * q) by (nonlinear_arith);
    assert((p * k) * q <= m * q) by (nonlinear_arith)
        requires
            p * k <= m,
            q > 0,
    ;
    assert(m * q < (p * k + p) * q) by (nonlinear_arith)
        requires
            m < p * k + p,
            q > 0,
    ;
}

/// The whole part is the number rounded down, not less than 0 and cut off at what a `u32`
/// can hold.
pub proof fn whole_parts_round_down(v: Value)
    requires
        v.rank() is Some,
    ensures
        v.rank()->0 < 0 ==> v.whole_part() == 0,
        0 <= v.rank()->0 && v.whole_part() < u32::MAX ==> v.whole_part() * pow2(255) <= v.rank()->0
            < (v.whole_part() + 1) * pow2(255),
        v.whole_part() >= u32::MAX ==> v.rank()->0 >= u32::MAX * pow2(255),
        0 <= v.whole_part() <= u32::MAX,
{
    let unit = pow2(255) as int;
    lemma_pow2_pos(255);
    match v {
        Value::Fixed { mantissa, fraction } => {
            let (p, q) = (pow2(fraction as nat) as int, pow2((255 - fraction) as nat) as int);
            lemma_pow2_pos(fraction as nat);
            lemma_pow2_pos((255 - fraction) as nat);
            lemma_pow2_adds(fraction as nat, (255 - fraction) as nat);
            let m = mantissa as int;
            assert(unit == p * q);
            assert(v.rank() == Some(m * q));
            if m >= 0 {
                lemma_floor(m, p, q);
                let w = m / p;
                assert(w * unit <= m * q < (w + 1) * unit);
                assert(w >= 0) by (nonlinear_arith)
                    requires
                        w == m / p,
                        m >= 0,
                        p > 0,
                ;
                assert(v.whole_part() == at_most_u32(w));
                if v.whole_part() < u32::MAX {
                    assert(v.whole_part() == w);
                    assert(v.whole_part() * pow2(255) <= v.rank()->0);
                    assert(v.rank()->0 < (v.whole_part() + 1) * pow2(255));
                }
                lemma_cut(m / p, m * q, unit);
            } else {
                assert(m * q < 0) by (nonlinear_arith)
                    requires
                        m < 0,
                        q > 0,
                ;
            }
        },
        Value::Float(bits) => {
            let e = Value::exponent(bits);
            let m = Value::significand(bits);
            if e == 0xff {
                lemma_pow2_strictly_increases(287, 400);
                lemma_pow2_adds(32, 255);
                lemma2_to64();
                assert(0xffff_ffff * unit <= pow2(32) * unit) by (nonlinear_arith)
                    requires
                        unit > 0,
                        pow2(32) == 0x1_0000_0000,
                ;
                if bits >= 0x8000_0000 {
                    lemma_pow2_pos(400);
                }
            } else {
                let k: nat = if e == 0 {
                    106
                } else {
                    (e + 105) as nat
                };
                let q = pow2(k) as int;
                lemma_pow2_pos(k);
                let r = m * q;
                assert(r >= 0 && (m > 0 ==> r > 0)) by (nonlinear_arith)
                    requires
                        r == m * q,
                        m >= 0,
                        q > 0,
                ;
                if bits < 0x8000_0000 || m == 0 {
                    if e >= 150 {
                        lemma_pow2_adds((e - 150) as nat, 255);
                        let p = pow2((e - 150) as nat) as int;
                        let w = m * p;
                        assert(w * unit == r) by (nonlinear_arith)
                            requires
                                w == m * p,
                                r == m * q,
                                q == p * unit,
                        ;
                        assert(w >= 0) by (nonlinear_arith)
                            requires
                                w == m * p,
                                m >= 0,
                                p >= 0,
                        ;
                        assert((w + 1) * unit == w * unit + unit) by (nonlinear_arith);
                        lemma_cut(w, r, unit);
                    } else if e == 0 {
                        lemma2_to64();
                        let p = pow2(150) as int;
                        lemma_pow2_strictly_increases(64, 150);
                        assert(m / p == 0) by (nonlinear_arith)
                            requires
                                0 <= m < p,
                        ;
                        lemma_pow2_adds(149, 106);
                        let h = pow2(149) as int;
                        lemma_pow2_strictly_increases(64, 149);
                        assert(r < unit) by (nonlinear_arith)
                            requires
                                r == m * q,
                                unit == h * q,
                                0 <= m < h,
                                q > 0,
                        ;
                    } else {
                        let p = pow2((150 - e) as nat) as int;
                        lemma_pow2_pos((150 - e) as nat);
                        lemma_pow2_adds((150 - e) as nat, (e + 105) as nat);
                        lemma_floor(m, p, q);
                        lemma_cut(m / p, r, unit);
                    }
                }
            }
        },
    }
}

proof fn lemma_cut(w: int, r: int, unit: int)
    requires
        w * unit <= r,
        unit > 0,
    ensures
        w >= 0xffff_ffff ==> r >= 0xffff_ffff * unit,
{
    if w >= 0xffff_ffff {
        assert(w * unit >= 0xffff_ffff * unit) by (nonlinear_arith)
            requires
                w >= 0xffff_ffff,
                unit > 0,
        ;
    }
}

/// One is one in either form, and turning the sign bit turns the sign.
pub proof fn forms_agree_on_one(bits: u32)
    ensures
        (Value::Fixed { mantissa: 1, fraction: 0 }).rank() == Some(pow2(255) as int),
        Value::Float(0x3f80_0000).rank() == Some(pow2(255) as int),
        bits < 0x8000_0000 ==> match Value::Float(bits).rank() {
            Some(r) => Value::Float((bits + 0x8000_0000) as u32).rank() == Some(-r),
            None => Value::Float((bits + 0x8000_0000) as u32).rank() is None,
        },
{
    lemma2_to64();
    lemma_pow2_adds(23, 232);
    assert(0x80_0000 * pow2(232) == pow2(255));
    if bits < 0x8000_0000 {
        let other = (bits + 0x8000_0000) as u32;
        assert(Value::exponent(other) == Value::exponent(bits));
        assert(other as int % 0x80_0000 == bits as int % 0x80_0000);
    }
}

/// Raising the exponent of a normal number by one doubles it, and between two powers of
/// two a number lies as far as its lower bits tell.
pub proof fn exponents_double(bits: u32)
    requires
        bits < 0x7f80_0000,
        1 <= Value::exponent(bits),
    ensures
        Value::exponent(bits) < 0xfe ==> Value::Float((bits + 0x80_0000) as u32).rank() == Some(
            2 * Value::Float(bits).rank()->0,
        ),
        ({
            let low = bits as int % 0x80_0000;
            let floor = Value::Float((bits - low) as u32).rank()->0;
            (Value::Float(bits).rank()->0 - floor) * 0x80_0000 == low * floor
        }),
{
    let e = Value::exponent(bits);
    let m = Value::significand(bits);
    let low = bits as int % 0x80_0000;
    let q = pow2((e + 105) as nat) as int;
    if e < 0xfe {
        let next = (bits + 0x80_0000) as u32;
        assert(Value::exponent(next) == e + 1);
        assert(Value::significand(next) == m);
        lemma_pow2_adds(1, (e + 105) as nat);
        lemma2_to64();
        assert(m * (2 * q) == 2 * (m * q)) by (nonlinear_arith);
    }
    let floor = (bits - low) as u32;
    assert(Value::exponent(floor) == e);
    assert(Value::significand(floor) == 0x80_0000);
    assert((m * q - 0x80_0000 * q) * 0x80_0000 == low * (0x80_0000 * q)) by (nonlinear_arith)
        requires
            m == low + 0x80_0000,
    ;
}

/// Numbers that are not negative are ordered as their bits are.
pub proof fn floats_are_ordered_as_their_bits(a: u32, b: u32)
    requires
        a < b <= 0x7f80_0000,
    ensures
        Value::Float(a).below(Value::Float(b)),
{
    let (ea, eb) = (Value::exponent(a), Value::exponent(b));
    let (ma, mb) = (Value::significand(a), Value::significand(b));
    assert(ea <= eb);
    if eb == 0xff {
        assert(b == 0x7f80_0000);
        infinities_lie_beyond(Value::Float(a));
    } else {
        let ka: nat = if ea == 0 {
            106
        } else {
            (ea + 105) as nat
        };
        let kb: nat = if eb == 0 {
            106
        } else {
            (eb + 105) as nat
        };
        let (p, q) = (pow2(ka) as int, pow2(kb) as int);
        lemma_pow2_pos(ka);
        lemma_pow2_pos(kb);
        if ka == kb {
            assert(ma < mb);
            assert(ma * p < mb * p) by (nonlinear_arith)
                requires
                    ma < mb,
                    p > 0,
            ;
        } else {
            let d = (kb - ka) as nat;
            lemma_pow2_adds(d, ka);
            lemma2_to64();
            if d > 1 {
                lemma_pow2_strictly_increases(1, d);
            }
            let t = pow2(d) as int;
            assert(ma * p < mb * q) by (nonlinear_arith)
                requires
                    q == t * p,
                    t >= 2,
                    p > 0,
                    0 <= ma < 0x100_0000,
                    mb >= 0x80_0000,
            ;
        }
    }
}

} // verus!
