//! Fixed-point real numbers: an integer count of billionths.
use vstd::prelude::*;

use crate::text::{dec_text, digit_char, push_char, push_dec};

verus! {

/// Units in one whole.
pub const SCALE: i64 = 1_000_000_000;

/// Digits after the decimal point that a `Fixed` holds.
pub const SCALE_DIGITS: u32 = 9;

/// A real number held exactly as `units / SCALE`.
#[derive(Clone, Copy, Debug, PartialEq, Eq, Structural)]
pub struct Fixed {
    pub units: i64,
}

pub open spec fn pow10(n: nat) -> nat
    decreases n,
{
    if n == 0 {
        1
    } else {
        10 * pow10((n - 1) as nat)
    }
}

/// The last `w` decimal digits of `n`, zero padded.
pub open spec fn padded_dec(n: nat, w: nat) -> Seq<char>
    decreases w,
{
    if w == 0 {
        Seq::empty()
    } else {
        padded_dec(n / 10, (w - 1) as nat).push(digit_char(n % 10))
    }
}

/// `frac` written in `w` digits, zero padded, with trailing zeros dropped.
pub open spec fn trimmed_frac(frac: nat, w: nat) -> Seq<char>
    decreases w,
{
    if w > 0 && frac % 10 == 0 {
        trimmed_frac(frac / 10, (w - 1) as nat)
    } else {
        padded_dec(frac, w)
    }
}

pub open spec fn sign_text(units: int) -> Seq<char> {
    if units < 0 {
        seq!['-']
    } else {
        Seq::empty()
    }
}

pub open spec fn abs(x: int) -> nat {
    if x < 0 {
        (-x) as nat
    } else {
        x as nat
    }
}

/// Shortest exact decimal text: `2`, `0.75`, `-1.123456789`.
pub open spec fn fixed_text(x: Fixed) -> Seq<char> {
    let a = abs(x.units as int);
    let whole = a / SCALE as nat;
    let frac = a % SCALE as nat;
    sign_text(x.units as int) + dec_text(whole) + if frac == 0 {
        Seq::empty()
    } else {
        seq!['.'] + trimmed_frac(frac, SCALE_DIGITS as nat)
    }
}

pub open spec fn zeros(k: nat) -> Seq<char> {
    Seq::new(k, |i: int| '0')
}

/// Text with exactly `p` digits after the decimal point, and no point when `p` is
/// 0. Below nine digits the value is rounded half away from zero; from nine on, the
/// exact digits are padded with zeros.
pub open spec fn fixed_text_prec(x: Fixed, p: nat) -> Seq<char> {
    let a = abs(x.units as int);
    if p >= SCALE_DIGITS {
        sign_text(x.units as int) + dec_text(a / SCALE as nat) + seq!['.'] + padded_dec(
            a % SCALE as nat,
            SCALE_DIGITS as nat,
        ) + zeros((p - SCALE_DIGITS) as nat)
    } else {
        let step = pow10((SCALE_DIGITS - p) as nat);
        let q = (2 * a + step) / (2 * step);
        sign_text(x.units as int) + dec_text(q / pow10(p)) + if p == 0 {
            Seq::empty()
        } else {
            seq!['.'] + padded_dec(q % pow10(p), p)
        }
    }
}

proof fn lemma_pow10_pos(n: nat)
    ensures
        pow10(n) >= 1,
    decreases n,
{
    if n > 0 {
        lemma_pow10_pos((n - 1) as nat);
    }
}

fn pow10_exec(n: u32) -> (r: u64)
    requires
        n <= 9,
    ensures
        r == pow10(n as nat),
{
    let mut r: u64 = 1;
    let mut i: u32 = 0;
    proof {
        reveal_with_fuel(pow10, 10);
    }
    while i < n
        invariant
            i <= n <= 9,
            r == pow10(i as nat),
            pow10(9) == 1_000_000_000,
        decreases n - i,
    {
        proof {
            lemma_pow10_mono(i as nat + 1, 9);
        }
        r = r * 10;
        i = i + 1;
    }
    r
}

proof fn lemma_pow10_mono(m: nat, n: nat)
    requires
        m <= n,
    ensures
        pow10(m) <= pow10(n),
    decreases n,
{
    lemma_pow10_pos(n);
    if m < n {
        lemma_pow10_mono(m, (n - 1) as nat);
    }
}

fn push_zeros(s: &mut String, k: u32)
    ensures
        final(s)@ == old(s)@ + zeros(k as nat),
{
    let ghost start = s@;
    let mut i: u32 = 0;
    while i < k
        invariant
            i <= k,
            s@ == start + zeros(i as nat),
        decreases k - i,
    {
        push_char(s, '0');
        i = i + 1;
        assert(s@ =~= start + zeros(i as nat));
    }
}

fn push_padded(s: &mut String, n: u64, w: u32)
    ensures
        final(s)@ == old(s)@ + padded_dec(n as nat, w as nat),
    decreases w,
{
    if w > 0 {
        push_padded(s, n / 10, w - 1);
        let d: u8 = (n % 10) as u8;
        push_char(s, (d + 48) as char);
    }
}

impl Fixed {
    pub fn from_units(units: i64) -> (r: Fixed)
        ensures
            r.units == units,
    {
        Fixed { units }
    }

    /// The whole number `n`.
    pub fn from_int(n: i32) -> (r: Fixed)
        ensures
            r.units == n * SCALE,
    {
        Fixed { units: n as i64 * SCALE }
    }

    /// Shortest exact decimal text, as a real number's natural display.
    pub fn to_text(&self) -> (s: String)
        ensures
            s@ == fixed_text(*self),
    {
        let mut s = String::new();
        let a: u64 = if self.units < 0 {
            (-(self.units as i128)) as u64
        } else {
            self.units as u64
        };
        if self.units < 0 {
            push_char(&mut s, '-');
        }
        let scale: u64 = SCALE as u64;
        push_dec(&mut s, a / scale);
        let frac: u64 = a % scale;
        if frac != 0 {
            push_char(&mut s, '.');
            let mut f: u64 = frac;
            let mut w: u32 = SCALE_DIGITS;
            while w > 0 && f % 10 == 0
                invariant
                    trimmed_frac(f as nat, w as nat) == trimmed_frac(frac as nat, SCALE_DIGITS as nat),
                decreases w,
            {
                f = f / 10;
                w = w - 1;
            }
            push_padded(&mut s, f, w);
        }
        proof {
            let e: Seq<char> = Seq::empty();
            if frac == 0 {
                assert(s@ =~= sign_text(self.units as int) + dec_text((a / scale) as nat) + e);
            }
        }
        assert(s@ =~= fixed_text(*self));
        s
    }
    /// Text with exactly `p` digits after the decimal point.
    pub fn to_text_prec(&self, p: u32) -> (s: String)
        ensures
            s@ == fixed_text_prec(*self, p as nat),
    {
        let mut s = String::new();
        let a: u64 = if self.units < 0 {
            (-(self.units as i128)) as u64
        } else {
            self.units as u64
        };
        if self.units < 0 {
            push_char(&mut s, '-');
        }
        let scale: u64 = SCALE as u64;
        if p >= SCALE_DIGITS {
            push_dec(&mut s, a / scale);
            push_char(&mut s, '.');
            push_padded(&mut s, a % scale, SCALE_DIGITS);
            push_zeros(&mut s, p - SCALE_DIGITS);
        } else {
            let step: u64 = pow10_exec(SCALE_DIGITS - p);
            let unit: u64 = pow10_exec(p);
            proof {
                lemma_pow10_pos((SCALE_DIGITS - p) as nat);
                lemma_pow10_pos(p as nat);
            }
            let q128: u128 = (2 * (a as u128) + step as u128) / (2 * step as u128);
            assert(q128 <= a as u128) by (nonlinear_arith)
                requires
                    step >= 1,
                    q128 == (2 * (a as u128) + step as u128) / (2 * step as u128),
            ;
            let q: u64 = q128 as u64;
            assert(a == abs(self.units as int));
            push_dec(&mut s, q / unit);
            if p > 0 {
                push_char(&mut s, '.');
                push_padded(&mut s, q % unit, p);
            } else {
                let ghost e: Seq<char> = Seq::empty();
                assert(s@ =~= sign_text(self.units as int) + dec_text((q / unit) as nat) + e);
            }
        }
        assert(s@ =~= fixed_text_prec(*self, p as nat));
        s
    }
}

} // verus!
