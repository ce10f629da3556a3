//! Exact scaled-decimal numbers: parsing, rounding and fixed-point
//! formatting, all over integers.

use vstd::prelude::*;

verus! {

/// Largest mantissa a parsed decimal may carry (15 digits).
pub const MANT_MAX: u64 = 999_999_999_999_999;

/// Largest number of digits after the decimal point a parsed decimal may carry.
pub const SCALE_MAX: u32 = 9;

/// Mathematical model of a decimal number: the value is `num / 10^scale`.
pub struct DecV {
    pub num: int,
    pub scale: nat,
}

/// A parsed decimal number; the value is `mant / 10^scale`, negated if `neg`.
#[derive(Clone, Copy)]
pub struct Dec {
    neg: bool,
    mant: u64,
    scale: u32,
}

impl Dec {
    /// Bounds that every parsed decimal satisfies.
    pub closed spec fn wf(self) -> bool {
        self.mant <= MANT_MAX && self.scale <= SCALE_MAX
    }

    pub closed spec fn view(self) -> DecV {
        DecV {
            num: if self.neg {
                -(self.mant as int)
            } else {
                self.mant as int
            },
            scale: self.scale as nat,
        }
    }
}

pub open spec fn pow10(e: nat) -> nat
    decreases e,
{
    if e == 0 {
        1
    } else {
        10 * pow10((e - 1) as nat)
    }
}

pub proof fn lemma_pow10_pos(e: nat)
    ensures
        pow10(e) >= 1,
    decreases e,
{
    if e > 0 {
        lemma_pow10_pos((e - 1) as nat);
    }
}

pub proof fn lemma_pow10_mono(a: nat, b: nat)
    requires
        a <= b,
    ensures
        pow10(a) <= pow10(b),
    decreases b,
{
    if a < b {
        lemma_pow10_mono(a, (b - 1) as nat);
        lemma_pow10_pos((b - 1) as nat);
    }
}

pub proof fn lemma_pow10_add(a: nat, b: nat)
    ensures
        pow10(a + b) == pow10(a) * pow10(b),
    decreases a,
{
    if a == 0 {
        assert(pow10(0nat) == 1);
        assert(a + b == b);
    } else {
        lemma_pow10_add((a - 1) as nat, b);
        assert((a + b - 1) as nat == (a - 1) as nat + b);
        assert(pow10(a + b) == 10 * pow10((a - 1) as nat + b));
        assert(pow10(a) == 10 * pow10((a - 1) as nat));
        assert(pow10(a + b) == pow10(a) * pow10(b)) by (nonlinear_arith)
            requires
                pow10(a + b) == 10 * pow10((a - 1) as nat + b),
                pow10((a - 1) as nat + b) == pow10((a - 1) as nat) * pow10(b),
                pow10(a) == 10 * pow10((a - 1) as nat),
        ;
    }
}

/// Executable power of ten.
pub fn pow10_u128(e: u32) -> (r: u128)
    requires
        e <= 33,
    ensures
        r == pow10(e as nat),
        r >= 1,
    decreases e,
{
    proof {
        lemma_pow10_pos(e as nat);
        lemma_pow10_mono(e as nat, 33);
        lemma_pow10_33();
    }
    if e == 0 {
        1
    } else {
        let p = pow10_u128(e - 1);
        proof {
            lemma_pow10_mono((e - 1) as nat, 33);
        }
        10 * p
    }
}

pub proof fn lemma_pow10_33()
    ensures
        pow10(33) == 1_000_000_000_000_000_000_000_000_000_000_000int,
{
    reveal_with_fuel(pow10, 34);
}

/// The powers of ten this crate's overflow arguments lean on.
pub proof fn lemma_pow10_vals()
    ensures
        pow10(1) == 10,
        pow10(3) == 1000,
        pow10(5) == 100_000,
        pow10(9) == 1_000_000_000,
        pow10(10) == 10_000_000_000,
        pow10(15) == 1_000_000_000_000_000,
        pow10(24) == 1_000_000_000_000_000_000_000_000int,
        pow10(25) == 10_000_000_000_000_000_000_000_000int,
        pow10(26) == 100_000_000_000_000_000_000_000_000int,
        pow10(30) == 1_000_000_000_000_000_000_000_000_000_000int,
        pow10(35) == 100_000_000_000_000_000_000_000_000_000_000_000int,
{
    reveal_with_fuel(pow10, 36);
}

/// The signed value carried by a sign flag and a magnitude.
pub open spec fn sval(neg: bool, mag: int) -> int {
    if neg {
        -mag
    } else {
        mag
    }
}

/// Is `c` an ASCII digit?
pub open spec fn is_digit(c: char) -> bool {
    48 <= c as u32 <= 57
}

/// Numeric value of an ASCII digit.
pub open spec fn digit_of(c: char) -> int {
    c as u32 - 48
}

/// One forward scan over the characters of a decimal literal starting at
/// position `i`, carrying the mantissa and the count of digits seen after
/// the decimal point. `None` on a character outside the grammar, a second
/// point, a mantissa beyond `MANT_MAX`, more than `SCALE_MAX` fractional
/// digits, or when no digit occurs at all.
pub open spec fn parse_digits(
    s: Seq<char>,
    i: int,
    mant: int,
    scale: int,
    seen_dot: bool,
    any: bool,
) -> Option<(int, int)>
    decreases s.len() - i,
{
    if i < 0 || i >= s.len() {
        if any {
            Some((mant, scale))
        } else {
            None
        }
    } else {
        let c = s[i];
        if is_digit(c) {
            let m2 = mant * 10 + digit_of(c);
            if m2 > MANT_MAX {
                None
            } else if seen_dot && scale >= SCALE_MAX {
                None
            } else {
                parse_digits(
                    s,
                    i + 1,
                    m2,
                    if seen_dot {
                        scale + 1
                    } else {
                        scale
                    },
                    seen_dot,
                    true,
                )
            }
        } else if c == '.' {
            if seen_dot {
                None
            } else {
                parse_digits(s, i + 1, mant, scale, true, any)
            }
        } else {
            None
        }
    }
}

/// The decimal value denoted by `s`: an optional leading minus sign, then
/// digits with at most one decimal point and at least one digit.
pub open spec fn parse_dec_v(s: Seq<char>) -> Option<DecV> {
    if s.len() > 0 && s[0] == '-' {
        match parse_digits(s, 1, 0, 0, false, false) {
            Some((m, sc)) => Some(DecV { num: -m, scale: sc as nat }),
            None => None,
        }
    } else {
        match parse_digits(s, 0, 0, 0, false, false) {
            Some((m, sc)) => Some(DecV { num: m, scale: sc as nat }),
            None => None,
        }
    }
}

impl Dec {
    /// Parse a decimal literal; `None` exactly where `parse_dec_v` is `None`.
    pub fn parse(s: &str) -> (r: Option<Dec>)
        ensures
            match r {
                Some(d) => d.wf() && parse_dec_v(s@) == Some(d@),
                None => parse_dec_v(s@) is None,
            },
    {
        let n = s.unicode_len();
        let mut i: usize = 0;
        let mut neg = false;
        if n > 0 && s.get_char(0) == '-' {
            neg = true;
            i = 1;
        }
        let ghost start: int = i as int;
        let mut mant: u64 = 0;
        let mut scale: u32 = 0;
        let mut seen_dot = false;
        let mut any = false;
        while i < n
            invariant
                start <= i <= n,
                n == s@.len(),
                mant <= MANT_MAX,
                scale <= SCALE_MAX,
                neg <==> (s@.len() > 0 && s@[0] == '-'),
                start == if neg {
                    1int
                } else {
                    0int
                },
                parse_digits(s@, start, 0, 0, false, false) == parse_digits(
                    s@,
                    i as int,
                    mant as int,
                    scale as int,
                    seen_dot,
                    any,
                ),
            decreases n - i,
        {
            let c = s.get_char(i);
            let u = c as u32;
            if 48 <= u && u <= 57 {
                let d = (u - 48) as u64;
                let m2 = mant * 10 + d;
                if m2 > MANT_MAX {
                    return None;
                } else if seen_dot && scale >= SCALE_MAX {
                    return None;
                }
                mant = m2;
                if seen_dot {
                    scale = scale + 1;
                }
                any = true;
            } else if c == '.' {
                if seen_dot {
                    return None;
                }
                seen_dot = true;
            } else {
                return None;
            }
            i = i + 1;
        }
        if !any {
            return None;
        }
        Some(Dec { neg, mant, scale })
    }

    /// The constant 1.5, the first-layer extrusion factor.
    pub fn three_halves() -> (r: Dec)
        ensures
            r.wf(),
            r@ == (DecV { num: 15, scale: 1 }),
    {
        Dec { neg: false, mant: 15, scale: 1 }
    }

    /// The constant 0.5, the last-layer extrusion factor.
    pub fn half() -> (r: Dec)
        ensures
            r.wf(),
            r@ == (DecV { num: 5, scale: 1 }),
    {
        Dec { neg: false, mant: 5, scale: 1 }
    }

    /// The decimal zero.
    pub fn zero() -> (r: Dec)
        ensures
            r.wf(),
            r@ == (DecV { num: 0, scale: 0 }),
    {
        Dec { neg: false, mant: 0, scale: 0 }
    }

    /// Is this decimal strictly positive?
    pub fn is_positive(&self) -> (b: bool)
        ensures
            b == (self@.num > 0),
    {
        !self.neg && self.mant > 0
    }
}

/// Round `n / p` (both nonnegative, `p >= 1`) to the nearest integer,
/// ties to the even neighbour.
pub open spec fn round_half_even(n: int, p: int) -> int {
    let q = n / p;
    let r = n % p;
    if 2 * r > p {
        q + 1
    } else if 2 * r < p {
        q
    } else if q % 2 == 0 {
        q
    } else {
        q + 1
    }
}

/// Round `n / p` to the nearest integer, ties to even, by magnitude.
pub open spec fn round_signed(n: int, p: int) -> int {
    if n >= 0 {
        round_half_even(n, p)
    } else {
        -round_half_even(-n, p)
    }
}

/// The value `num / 10^scale` expressed in units of `10^-k`, rounded to
/// the nearest such unit, ties to even.
pub open spec fn round_to(num: int, scale: nat, k: nat) -> int {
    if scale <= k {
        num * pow10((k - scale) as nat)
    } else {
        round_signed(num, pow10((scale - k) as nat) as int)
    }
}

/// Executable rounding on a sign-and-magnitude pair.
fn round_units(neg: bool, mag: u128, scale: u32, k: u32) -> (r: (bool, u128))
    requires
        k <= 5,
        scale <= 30,
        mag <= pow10(30),
    ensures
        sval(r.0, r.1 as int) == round_to(sval(neg, mag as int), scale as nat, k as nat),
        r.1 <= pow10(35),
        r.0 ==> r.1 > 0,
{
    proof {
        lemma_pow10_vals();
        lemma_pow10_33();
    }
    if scale <= k {
        let f = pow10_u128(k - scale);
        proof {
            lemma_pow10_mono((k - scale) as nat, 5);
            assert(mag * f <= pow10(30) * pow10(5)) by (nonlinear_arith)
                requires
                    mag <= pow10(30),
                    0 <= f <= pow10(5),
                    0 <= mag,
            ;
            lemma_pow10_add(30, 5);
        }
        let m = mag * f;
        proof {
            assert((-(mag as int)) * (f as int) == -(mag as int * f as int)) by (nonlinear_arith);
            assert(sval(neg && m > 0, m as int) == sval(neg, mag as int) * f);
        }
        (neg && m > 0, m)
    } else {
        let p = pow10_u128(scale - k);
        proof {
            lemma_pow10_mono((scale - k) as nat, 30);
            lemma_pow10_mono(30, 35);
        }
        let q = mag / p;
        let r = mag % p;
        let up = 2 * r > p || (2 * r == p && q % 2 == 1);
        let m = if up {
            q + 1
        } else {
            q
        };
        proof {
            assert(q == mag as int / p as int);
            assert(r == mag as int % p as int);
            assert(m == round_half_even(mag as int, p as int));
            if neg && mag > 0 {
                assert(sval(neg, mag as int) == -(mag as int));
                assert(round_signed(-(mag as int), p as int) == -round_half_even(
                    mag as int,
                    p as int,
                ));
                assert(sval(neg && m > 0, m as int) == -(m as int));
                assert(sval(neg && m > 0, m as int) == round_signed(
                    sval(neg, mag as int),
                    p as int,
                ));
            } else if neg {
                assert(mag == 0);
                assert(mag as int / p as int == 0 && mag as int % p as int == 0)
                    by (nonlinear_arith)
                    requires
                        mag == 0,
                        p as int >= 1,
                ;
                assert(m == 0);
                assert(sval(neg && m > 0, m as int) == round_signed(
                    sval(neg, mag as int),
                    p as int,
                ));
            } else {
                assert(sval(neg, mag as int) == mag as int);
                assert(sval(neg && m > 0, m as int) == m as int);
                assert(sval(neg && m > 0, m as int) == round_signed(
                    sval(neg, mag as int),
                    p as int,
                ));
            }
            assert(sval(neg && m > 0, m as int) == round_signed(sval(neg, mag as int), p as int));
        }
        (neg && m > 0, m)
    }
}

/// The ASCII digit for a value below ten.
pub open spec fn digit_char(d: int) -> char {
    if d == 0 {
        '0'
    } else if d == 1 {
        '1'
    } else if d == 2 {
        '2'
    } else if d == 3 {
        '3'
    } else if d == 4 {
        '4'
    } else if d == 5 {
        '5'
    } else if d == 6 {
        '6'
    } else if d == 7 {
        '7'
    } else if d == 8 {
        '8'
    } else {
        '9'
    }
}

/// The decimal digits of `n`, most significant first, no leading zeros
/// (a single zero for `n == 0`).
pub open spec fn dec_digits(n: nat) -> Seq<char>
    decreases n,
{
    if n < 10 {
        seq![digit_char(n as int)]
    } else {
        dec_digits(n / 10).push(digit_char((n % 10) as int))
    }
}

/// Exactly `k` digits of the fraction `rem / 10^k`, most significant
/// first, zero padded.
pub open spec fn frac_digits(rem: nat, k: nat) -> Seq<char>
    decreases k,
{
    if k == 0 {
        Seq::empty()
    } else {
        seq![digit_char(((rem / pow10((k - 1) as nat)) % 10) as int)] + frac_digits(
            rem % pow10((k - 1) as nat),
            (k - 1) as nat,
        )
    }
}

/// `m` units of `10^-k` written with exactly `k` digits after the decimal
/// point, with a leading minus sign when `m` is negative.
pub open spec fn fmt_fixed(m: int, k: nat) -> Seq<char> {
    let a = (if m >= 0 {
        m
    } else {
        -m
    }) as nat;
    (if m < 0 {
        seq!['-']
    } else {
        Seq::<char>::empty()
    }) + dec_digits(a / pow10(k)) + seq!['.'] + frac_digits(a % pow10(k), k)
}

/// The one-character string for a digit value.
fn digit_str(d: u128) -> (r: &'static str)
    requires
        d < 10,
    ensures
        r@ == seq![digit_char(d as int)],
{
    proof {
        reveal_strlit("0");
        reveal_strlit("1");
        reveal_strlit("2");
        reveal_strlit("3");
        reveal_strlit("4");
        reveal_strlit("5");
        reveal_strlit("6");
        reveal_strlit("7");
        reveal_strlit("8");
        reveal_strlit("9");
    }
    let r = if d == 0 {
        "0"
    } else if d == 1 {
        "1"
    } else if d == 2 {
        "2"
    } else if d == 3 {
        "3"
    } else if d == 4 {
        "4"
    } else if d == 5 {
        "5"
    } else if d == 6 {
        "6"
    } else if d == 7 {
        "7"
    } else if d == 8 {
        "8"
    } else {
        "9"
    };
    proof {
        assert(r@ =~= seq![digit_char(d as int)]);
    }
    r
}

/// Append the decimal digits of `n` to `out`.
pub fn push_digits(n: u128, out: &mut String)
    ensures
        final(out)@ == old(out)@ + dec_digits(n as nat),
    decreases n,
{
    if n < 10 {
        out.append(digit_str(n));
    } else {
        proof {
            assert(n as int / 10 < n as int) by (nonlinear_arith)
                requires
                    n >= 10,
            ;
        }
        push_digits(n / 10, out);
        out.append(digit_str(n % 10));
        proof {
            assert(final(out)@ =~= old(out)@ + dec_digits(n as nat));
        }
    }
}

/// Append exactly `k` fraction digits of `rem / 10^k` to `out`.
fn push_frac(rem: u128, k: u32, out: &mut String)
    requires
        k <= 5,
        rem < pow10(k as nat),
    ensures
        final(out)@ == old(out)@ + frac_digits(rem as nat, k as nat),
    decreases k,
{
    if k == 0 {
    } else {
        let p = pow10_u128(k - 1);
        proof {
            assert(pow10(k as nat) == 10 * pow10((k - 1) as nat));
            assert((rem as int) / (p as int) < 10) by (nonlinear_arith)
                requires
                    p as int >= 1,
                    rem < 10 * p,
            ;
        }
        let d = rem / p;
        out.append(digit_str(d));
        push_frac(rem % p, k - 1, out);
        proof {
            assert((d as int) % 10 == d as int);
            assert(final(out)@ =~= old(out)@ + frac_digits(rem as nat, k as nat));
        }
    }
}

/// Append the sign and the fixed-point digits of a rounded value to `out`.
pub fn append_fixed(out: &mut String, neg: bool, mag: u128, k: u32)
    requires
        1 <= k <= 5,
        mag <= pow10(35),
        neg ==> mag > 0,
    ensures
        final(out)@ == old(out)@ + fmt_fixed(sval(neg, mag as int), k as nat),
{
    if neg {
        out.append("-");
        proof {
            reveal_strlit("-");
            assert("-"@ =~= seq!['-']);
        }
    }
    let p = pow10_u128(k);
    push_digits(mag / p, out);
    out.append(".");
    proof {
        reveal_strlit(".");
        assert("."@ =~= seq!['.']);
    }
    push_frac(mag % p, k, out);
    proof {
        assert((mag as int % p as int) as nat == mag as nat % pow10(k as nat));
        assert((mag as int / p as int) as nat == mag as nat / pow10(k as nat));
        assert(final(out)@ =~= old(out)@ + fmt_fixed(sval(neg, mag as int), k as nat));
    }
}

/// The layer index a height `z` falls in for a layer height `h`: the
/// quotient truncated toward zero, never below zero.
pub open spec fn layer_of(z: DecV, h: DecV) -> nat {
    if z.num <= 0 || h.num <= 0 {
        0
    } else {
        ((z.num * pow10(h.scale)) / (h.num * pow10(z.scale))) as nat
    }
}

/// The height `z + h / 2`, as an exact decimal.
pub open spec fn shifted_z(z: DecV, h: DecV) -> DecV {
    let s = if z.scale >= h.scale + 1 {
        z.scale
    } else {
        h.scale + 1
    };
    DecV {
        num: z.num * pow10((s - z.scale) as nat) + 5 * h.num * pow10((s - h.scale - 1) as nat),
        scale: s,
    }
}

impl Dec {
    /// Compute `layer_of` on parsed decimals.
    pub fn layer_index(z: &Dec, h: &Dec) -> (r: u128)
        requires
            z.wf(),
            h.wf(),
        ensures
            r == layer_of(z@, h@),
            r <= pow10(24),
    {
        proof {
            lemma_pow10_vals();
        }
        if z.neg || z.mant == 0 || h.neg || h.mant == 0 {
            0
        } else {
            let pz = pow10_u128(h.scale);
            let ph = pow10_u128(z.scale);
            proof {
                lemma_pow10_mono(h.scale as nat, 9);
                lemma_pow10_mono(z.scale as nat, 9);
                assert(z.mant as int * pz as int <= pow10(15) * pow10(9)) by (nonlinear_arith)
                    requires
                        0 <= z.mant as int <= pow10(15),
                        0 <= pz as int <= pow10(9),
                ;
                assert(h.mant as int * ph as int <= pow10(15) * pow10(9)) by (nonlinear_arith)
                    requires
                        0 <= h.mant as int <= pow10(15),
                        0 <= ph as int <= pow10(9),
                ;
                lemma_pow10_add(15, 9);
                lemma_pow10_mono(24, 30);
                lemma_pow10_mono(30, 33);
                lemma_pow10_33();
                assert(h.mant as int * ph as int >= 1) by (nonlinear_arith)
                    requires
                        h.mant as int >= 1,
                        ph as int >= 1,
                ;
            }
            let zn = z.mant as u128 * pz;
            let hn = h.mant as u128 * ph;
            proof {
                assert((zn as int) / (hn as int) <= zn as int) by (nonlinear_arith)
                    requires
                        hn as int >= 1,
                        zn as int >= 0,
                ;
            }
            zn / hn
        }
    }

    /// The rounded count of `10^-3` units in `z` itself.
    pub fn z_millis(z: &Dec) -> (r: (bool, u128))
        requires
            z.wf(),
        ensures
            sval(r.0, r.1 as int) == round_to(z@.num, z@.scale, 3),
            r.1 <= pow10(35),
            r.0 ==> r.1 > 0,
    {
        proof {
            lemma_pow10_vals();
            lemma_pow10_mono(15, 30);
        }
        round_units(z.neg, z.mant as u128, z.scale, 3)
    }

    /// The rounded count of `10^-3` units in `z + h / 2`.
    pub fn shifted_z_millis(z: &Dec, h: &Dec) -> (r: (bool, u128))
        requires
            z.wf(),
            h.wf(),
        ensures
            sval(r.0, r.1 as int) == round_to(shifted_z(z@, h@).num, shifted_z(z@, h@).scale, 3),
            r.1 <= pow10(35),
            r.0 ==> r.1 > 0,
    {
        proof {
            lemma_pow10_vals();
        }
        let s: u32 = if z.scale >= h.scale + 1 {
            z.scale
        } else {
            h.scale + 1
        };
        let pa = pow10_u128(s - z.scale);
        let pb = pow10_u128(s - h.scale - 1);
        proof {
            lemma_pow10_mono((s - z.scale) as nat, 10);
            lemma_pow10_mono((s - h.scale - 1) as nat, 9);
            assert(z.mant as int * pa as int <= pow10(15) * pow10(10)) by (nonlinear_arith)
                requires
                    0 <= z.mant as int <= pow10(15),
                    0 <= pa as int <= pow10(10),
            ;
            assert(5 * (h.mant as int) * pb as int <= 5 * pow10(15) * pow10(9))
                by (nonlinear_arith)
                requires
                    0 <= h.mant as int <= pow10(15),
                    0 <= pb as int <= pow10(9),
            ;
            lemma_pow10_add(15, 10);
            lemma_pow10_add(15, 9);
            lemma_pow10_mono(25, 30);
            lemma_pow10_mono(30, 33);
            lemma_pow10_33();
        }
        let za = z.mant as u128 * pa;
        let hb = 5 * (h.mant as u128) * pb;
        let (neg, mag) = if z.neg == h.neg {
            (z.neg, za + hb)
        } else if za >= hb {
            (z.neg, za - hb)
        } else {
            (h.neg, hb - za)
        };
        proof {
            let zv = shifted_z(z@, h@);
            assert(sval(z.neg, za as int) == z@.num * pow10((s - z.scale) as nat))
                by (nonlinear_arith)
                requires
                    za as int == z.mant as int * pow10((s - z.scale) as nat),
                    z@.num == sval(z.neg, z.mant as int),
            ;
            assert(sval(h.neg, hb as int) == 5 * h@.num * pow10((s - h.scale - 1) as nat))
                by (nonlinear_arith)
                requires
                    hb as int == 5 * (h.mant as int) * pow10((s - h.scale - 1) as nat),
                    h@.num == sval(h.neg, h.mant as int),
            ;
            assert(zv.num == sval(z.neg, za as int) + sval(h.neg, hb as int));
            assert(sval(neg, mag as int) == zv.num);
            assert(mag as int <= pow10(25) + pow10(25));
            lemma_pow10_mono(26, 30);
        }
        round_units(neg, mag, s, 3)
    }

    /// The rounded count of `10^-5` units in the product `e * f`.
    pub fn rescaled_e_units(e: &Dec, f: &Dec) -> (r: (bool, u128))
        requires
            e.wf(),
            f.wf(),
        ensures
            sval(r.0, r.1 as int) == round_to(e@.num * f@.num, e@.scale + f@.scale, 5),
            r.1 <= pow10(35),
            r.0 ==> r.1 > 0,
    {
        proof {
            lemma_pow10_vals();
        }
        proof {
            assert(e.mant as int * f.mant as int <= pow10(15) * pow10(15)) by (nonlinear_arith)
                requires
                    0 <= e.mant as int <= pow10(15),
                    0 <= f.mant as int <= pow10(15),
            ;
            lemma_pow10_add(15, 15);
            lemma_pow10_mono(30, 33);
            lemma_pow10_33();
        }
        let mag = e.mant as u128 * f.mant as u128;
        let neg = e.neg != f.neg;
        proof {
            assert(sval(neg, mag as int) == e@.num * f@.num) by (nonlinear_arith)
                requires
                    mag as int == e.mant as int * f.mant as int,
                    e@.num == sval(e.neg, e.mant as int),
                    f@.num == sval(f.neg, f.mant as int),
                    neg == (e.neg != f.neg),
            ;
        }
        round_units(neg, mag, e.scale + f.scale, 5)
    }
}

} // verus!

