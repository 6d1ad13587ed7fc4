use vstd::prelude::*;

verus! {

// IEEE-754 binary32 results are produced as bit patterns: sign * 2^31 + biased exponent * 2^23
// + fraction, computed with integer arithmetic only.

/// Shifts a non-zero value left until it reaches `[lo, 2 * lo)`: the normalized significand
/// and the number of doublings.
pub open spec fn normalize_up(a: nat, lo: nat) -> (nat, nat)
    decreases (if a < lo { (lo - a) as nat } else { 0nat }),
{
    if a == 0 || a >= lo {
        (a, 0)
    } else {
        let (m, k) = normalize_up(a * 2, lo);
        (m, k + 1)
    }
}

pub proof fn lemma_normalize_up(a: nat, lo: nat)
    requires
        0 < a < 2 * lo,
    ensures
        lo <= normalize_up(a, lo).0 < 2 * lo,
    decreases (if a < lo { (lo - a) as nat } else { 0nat }),
{
    if a < lo {
        lemma_normalize_up(a * 2, lo);
    }
}

/// Two to the `k`.
pub open spec fn p2(k: nat) -> nat
    decreases k,
{
    if k == 0 { 1 } else { 2 * p2((k - 1) as nat) }
}

pub proof fn lemma_p2_big(k: nat)
    requires
        k >= 10,
    ensures
        p2(k) >= 1024,
    decreases k,
{
    if k > 10 {
        lemma_p2_big((k - 1) as nat);
    } else {
        reveal_with_fuel(p2, 11);
    }
}

/// The binary32 bits of an IEEE binary16 value: sign copied; normal exponents rebased from
/// bias 15 to 127 with the fraction widened; subnormals normalized; infinities and NaNs kept.
pub open spec fn f16_to_f32_bits(bits: u16) -> u32 {
    let sign = bits as nat / 32768;
    let exp = (bits as nat / 1024) % 32;
    let mant = bits as nat % 1024;
    let body: nat = if exp == 0 {
        if mant == 0 {
            0
        } else {
            let (m, k) = normalize_up(mant, 1024);
            ((113 - k) as nat) * 8388608 + ((m - 1024) as nat) * 8192
        }
    } else if exp == 31 {
        255 * 8388608 + mant * 8192
    } else {
        (exp + 112) * 8388608 + mant * 8192
    };
    (sign * 2147483648 + body) as u32
}

/// Widens a binary16 value to binary32.
pub fn f16_to_f32(bits: u16) -> (r: u32)
    ensures
        r == f16_to_f32_bits(bits),
{
    let sign: u32 = (bits / 32768) as u32;
    let exp: u32 = ((bits / 1024) % 32) as u32;
    let mant: u32 = (bits % 1024) as u32;
    let body: u32 = if exp == 0 {
        if mant == 0 {
            0
        } else {
            let mut m: u32 = mant;
            let mut k: u32 = 0;
            while m < 1024
                invariant
                    0 < m < 2048,
                    k <= 10,
                    m >= p2(k as nat),
                    normalize_up(m as nat, 1024).0 == normalize_up(mant as nat, 1024).0,
                    normalize_up(m as nat, 1024).1 + k == normalize_up(mant as nat, 1024).1,
                decreases 10 - k,
            {
                proof {
                    if k >= 10 {
                        lemma_p2_big(k as nat);
                    }
                    assert(p2((k + 1) as nat) == 2 * p2(k as nat));
                }
                m = m * 2;
                k = k + 1;
            }
            (113 - k) * 8388608 + (m - 1024) * 8192
        }
    } else if exp == 31 {
        255 * 8388608 + mant * 8192
    } else {
        (exp + 112) * 8388608 + mant * 8192
    };
    sign * 2147483648 + body
}


/// Halves a value until it drops below `hi`: the quotient, the number of halvings and two to
/// that number.
pub open spec fn normalize_down(a: nat, hi: nat) -> (nat, nat, nat)
    decreases a,
{
    if a < hi || hi == 0 {
        (a, 0, 1)
    } else {
        let (q, s, p) = normalize_down(a / 2, hi);
        (q, s + 1, 2 * p)
    }
}

/// The binary32 bits of the Q15 fixed-point value `raw / 2^15` (exactly representable).
pub open spec fn q15_to_f32_bits(raw: i16) -> u32 {
    if raw == 0 {
        0
    } else {
        let sign: nat = if raw < 0 { 1 } else { 0 };
        let a: nat = if raw < 0 { (-(raw as int)) as nat } else { raw as nat };
        let (m, k) = normalize_up(a, 8388608);
        (sign * 2147483648 + ((135 - k) as nat) * 8388608 + ((m - 8388608) as nat)) as u32
    }
}

/// The binary32 bits of the Q31 fixed-point value `raw / 2^31`: `raw` rounded to 24
/// significant bits (to nearest, ties to even), then scaled.
pub open spec fn q31_to_f32_bits(raw: i32) -> u32 {
    if raw == 0 {
        0
    } else {
        let sign: nat = if raw < 0 { 1 } else { 0 };
        let a: nat = if raw < 0 { (-(raw as int)) as nat } else { raw as nat };
        if a < 16777216 {
            let (m, k) = normalize_up(a, 8388608);
            (sign * 2147483648 + ((119 - k) as nat) * 8388608 + ((m - 8388608) as nat)) as u32
        } else {
            let (q, s, p) = normalize_down(a, 16777216);
            let r = a - q * p;
            let up = 2 * r > p || (2 * r == p && q % 2 == 1);
            let q1: nat = if up { q + 1 } else { q };
            let (q2, s2) = if q1 == 16777216 { (8388608nat, s + 1) } else { (q1, s) };
            (sign * 2147483648 + (119 + s2) * 8388608 + ((q2 - 8388608) as nat)) as u32
        }
    }
}

/// Normalizes `a` (non-zero, below `2^24`) up into `[2^23, 2^24)`.
fn normalize_up_24(a: u64) -> (r: (u64, u64))
    requires
        0 < a < 16777216,
    ensures
        (r.0 as nat, r.1 as nat) == normalize_up(a as nat, 8388608),
        8388608 <= r.0 < 16777216,
        r.1 <= 23,
{
    let mut m: u64 = a;
    let mut k: u64 = 0;
    while m < 8388608
        invariant
            0 < m < 16777216,
            k <= 23,
            m >= p2(k as nat),
            normalize_up(m as nat, 8388608).0 == normalize_up(a as nat, 8388608).0,
            normalize_up(m as nat, 8388608).1 + k == normalize_up(a as nat, 8388608).1,
        decreases 23 - k,
    {
        proof {
            if k >= 23 {
                lemma_p2_bigger(k as nat);
            }
            assert(p2((k + 1) as nat) == 2 * p2(k as nat));
        }
        m = m * 2;
        k = k + 1;
    }
    (m, k)
}

pub proof fn lemma_p2_mono(k: nat, j: nat)
    requires
        k >= j,
    ensures
        p2(k) >= p2(j),
    decreases k,
{
    if k > j {
        lemma_p2_mono((k - 1) as nat, j);
    }
}

pub proof fn lemma_p2_bigger(k: nat)
    requires
        k >= 23,
    ensures
        p2(k) >= 8388608,
    decreases k,
{
    if k > 23 {
        lemma_p2_bigger((k - 1) as nat);
    } else {
        reveal_with_fuel(p2, 24);
    }
}

/// Converts a Q15 sample to binary32.
pub fn q15_to_f32(raw: i16) -> (r: u32)
    ensures
        r == q15_to_f32_bits(raw),
{
    if raw == 0 {
        return 0;
    }
    let sign: u32 = if raw < 0 { 1 } else { 0 };
    let a: u64 = if raw < 0 { (-(raw as i64)) as u64 } else { raw as u64 };
    let (m, k) = normalize_up_24(a);
    sign * 2147483648 + ((135 - k) as u32) * 8388608 + ((m - 8388608) as u32)
}

/// Converts a Q31 sample to binary32, rounding to nearest even.
pub fn q31_to_f32(raw: i32) -> (r: u32)
    ensures
        r == q31_to_f32_bits(raw),
{
    if raw == 0 {
        return 0;
    }
    let sign: u32 = if raw < 0 { 1 } else { 0 };
    let a: u64 = if raw < 0 { (-(raw as i64)) as u64 } else { raw as u64 };
    if a < 16777216 {
        let (m, k) = normalize_up_24(a);
        return sign * 2147483648 + ((119 - k) as u32) * 8388608 + ((m - 8388608) as u32);
    }
    let mut q: u64 = a;
    let mut s: u64 = 0;
    let mut p: u64 = 1;
    while q >= 16777216
        invariant
            a <= 2147483648,
            q <= a,
            s < p,
            p == p2(s as nat),
            1 <= p <= 256,
            q * p <= a,
            q >= 16777216 ==> p <= 128,
            q * p + p > a,
            q < 16777216 ==> q >= 8388608,
            ({
                let (qq, ss, pp) = normalize_down(q as nat, 16777216);
                let (qa, sa, pa) = normalize_down(a as nat, 16777216);
                qq == qa && ss + s == sa && pp * p == pa
            }),
        decreases q,
    {
        proof {
            assert((q / 2) * (2 * p) <= q * p) by (nonlinear_arith);
            assert((q / 2) * (2 * p) + 2 * p >= q * p + p) by (nonlinear_arith)
                requires p >= 1;
            assert(q / 2 >= 16777216 ==> q >= 33554432);
            assert(q >= 33554432 ==> q * p >= 33554432 * p) by (nonlinear_arith);
            let (qq, ss, pp) = normalize_down((q / 2) as nat, 16777216);
            assert(normalize_down(q as nat, 16777216) == (qq, ss + 1, 2 * pp));
            assert(pp * (2 * p) == (2 * pp) * p) by (nonlinear_arith);
            assert(q >= 16777216 ==> q / 2 >= 8388608);
            assert(q * p >= 16777216 * p) by (nonlinear_arith)
                requires q >= 16777216;
            assert(16777216 * p <= 2147483648 ==> p <= 128);
        }
        q = q / 2;
        p = p * 2;
        s = s + 1;
    }
    proof {
        if s >= 9 {
            lemma_p2_mono(s as nat, 9);
            reveal_with_fuel(p2, 10);
        }
    }
    let r = a - q * p;
    let up = 2 * r > p || (2 * r == p && q % 2 == 1);
    let q1 = if up { q + 1 } else { q };
    let (q2, s2) = if q1 == 16777216 { (8388608u64, s + 1) } else { (q1, s) };
    proof {
        let (qq, ss, pp) = normalize_down(q as nat, 16777216);
        assert(qq == q && ss == 0 && pp == 1);
    }
    sign * 2147483648 + ((119 + s2) as u32) * 8388608 + ((q2 - 8388608) as u32)
}

} // verus!
