//! Rescaling a column of numbers to `[0, 1]`.
use vstd::prelude::*;

use crate::error::StyleError;
use crate::fixed::{Fixed, SCALE};
use crate::styler::Value;

verus! {

/// A cell as a real number in units, if it is a number.
pub open spec fn numeric_units(v: Value) -> Option<int> {
    match v {
        Value::Int(n) => Some(n * SCALE),
        Value::Float(x) => Some(x.units as int),
        _ => None,
    }
}

pub open spec fn all_numeric(vals: Seq<Value>) -> bool {
    forall|i: int| 0 <= i < vals.len() ==> (#[trigger] numeric_units(vals[i])) is Some
}

/// `x` raised to `lo` and then lowered to `hi`, where given.
pub open spec fn clamp_units(x: int, lo: Option<Fixed>, hi: Option<Fixed>) -> int {
    let a = match lo {
        Some(l) => if x < l.units {
            l.units as int
        } else {
            x
        },
        None => x,
    };
    match hi {
        Some(h) => if a > h.units {
            h.units as int
        } else {
            a
        },
        None => a,
    }
}

pub open spec fn clamped_at(vals: Seq<Value>, lo: Option<Fixed>, hi: Option<Fixed>, i: int) -> int {
    match numeric_units(vals[i]) {
        Some(x) => clamp_units(x, lo, hi),
        None => 0,
    }
}

/// Least clamped value among the first `n`.
pub open spec fn min_upto(vals: Seq<Value>, lo: Option<Fixed>, hi: Option<Fixed>, n: int) -> int
    decreases n,
{
    if n <= 1 {
        clamped_at(vals, lo, hi, 0)
    } else {
        let a = min_upto(vals, lo, hi, n - 1);
        let b = clamped_at(vals, lo, hi, n - 1);
        if b < a {
            b
        } else {
            a
        }
    }
}

/// Greatest clamped value among the first `n`.
pub open spec fn max_upto(vals: Seq<Value>, lo: Option<Fixed>, hi: Option<Fixed>, n: int) -> int
    decreases n,
{
    if n <= 1 {
        clamped_at(vals, lo, hi, 0)
    } else {
        let a = max_upto(vals, lo, hi, n - 1);
        let b = clamped_at(vals, lo, hi, n - 1);
        if b > a {
            b
        } else {
            a
        }
    }
}

/// Where `x` falls between `lo` and `hi`, in units of `[0, 1]`, rounded down.
pub open spec fn rescale(x: int, lo: int, hi: int) -> int {
    ((x - lo) * SCALE) / (hi - lo)
}

/// The values as reals, clamped where bounds are given, less their least value and
/// divided by the width of their range. Text or truth values are `NotNumeric`; a
/// range of width zero is `DegenerateInput`.
pub open spec fn normalize_spec(vals: Seq<Value>, lo: Option<Fixed>, hi: Option<Fixed>) -> Result<
    Seq<Fixed>,
    StyleError,
> {
    if !all_numeric(vals) {
        Err(StyleError::NotNumeric)
    } else if vals.len() == 0 {
        Ok(Seq::empty())
    } else {
        let m = min_upto(vals, lo, hi, vals.len() as int);
        let big = max_upto(vals, lo, hi, vals.len() as int);
        if m == big {
            Err(StyleError::DegenerateInput)
        } else {
            Ok(
                Seq::new(
                    vals.len(),
                    |i: int| Fixed { units: rescale(clamped_at(vals, lo, hi, i), m, big) as i64 },
                ),
            )
        }
    }
}

/// Every clamped value lies in a range that `i128` arithmetic holds.
pub open spec fn in_units_range(x: int) -> bool {
    -0x8000_0000_0000_0000 * SCALE <= x <= 0x7fff_ffff_ffff_ffff * SCALE
}

proof fn lemma_extremes(vals: Seq<Value>, lo: Option<Fixed>, hi: Option<Fixed>, n: int)
    requires
        1 <= n <= vals.len(),
    ensures
        forall|k: int|
            0 <= k < n ==> min_upto(vals, lo, hi, n) <= #[trigger] clamped_at(vals, lo, hi, k)
                <= max_upto(vals, lo, hi, n),
        exists|k: int| 0 <= k < n && min_upto(vals, lo, hi, n) == clamped_at(vals, lo, hi, k),
        exists|k: int| 0 <= k < n && max_upto(vals, lo, hi, n) == clamped_at(vals, lo, hi, k),
    decreases n,
{
    if n > 1 {
        lemma_extremes(vals, lo, hi, n - 1);
        if clamped_at(vals, lo, hi, n - 1) >= min_upto(vals, lo, hi, n - 1) {
            let k = choose|k: int|
                0 <= k < n - 1 && min_upto(vals, lo, hi, n - 1) == clamped_at(vals, lo, hi, k);
            assert(0 <= k < n && min_upto(vals, lo, hi, n) == clamped_at(vals, lo, hi, k));
        } else {
            assert(min_upto(vals, lo, hi, n) == clamped_at(vals, lo, hi, n - 1));
        }
        if clamped_at(vals, lo, hi, n - 1) <= max_upto(vals, lo, hi, n - 1) {
            let k = choose|k: int|
                0 <= k < n - 1 && max_upto(vals, lo, hi, n - 1) == clamped_at(vals, lo, hi, k);
            assert(0 <= k < n && max_upto(vals, lo, hi, n) == clamped_at(vals, lo, hi, k));
        } else {
            assert(max_upto(vals, lo, hi, n) == clamped_at(vals, lo, hi, n - 1));
        }
    } else {
        assert(min_upto(vals, lo, hi, n) == clamped_at(vals, lo, hi, 0));
        assert(max_upto(vals, lo, hi, n) == clamped_at(vals, lo, hi, 0));
    }
}

fn clamp_value(v: &Value, lo: Option<Fixed>, hi: Option<Fixed>) -> (r: Option<i128>)
    ensures
        match numeric_units(*v) {
            Some(x) => r == Some(clamp_units(x, lo, hi) as i128) && in_units_range(
                clamp_units(x, lo, hi),
            ),
            None => r is None,
        },
{
    let x: i128 = match v {
        Value::Int(n) => *n as i128 * SCALE as i128,
        Value::Float(f) => f.units as i128,
        _ => return None,
    };
    let a: i128 = match lo {
        Some(l) => if x < l.units as i128 {
            l.units as i128
        } else {
            x
        },
        None => x,
    };
    let b: i128 = match hi {
        Some(h) => if a > h.units as i128 {
            h.units as i128
        } else {
            a
        },
        None => a,
    };
    Some(b)
}

/// Rescales `values` to `[0, 1]` as described by `normalize_spec`.
pub fn normalize_series(values: &Vec<Value>, vmin: Option<Fixed>, vmax: Option<Fixed>) -> (res:
    Result<Vec<Fixed>, StyleError>)
    ensures
        match normalize_spec(values@, vmin, vmax) {
            Ok(a) => res matches Ok(v) && v@ == a,
            Err(e) => res == Err::<Vec<Fixed>, StyleError>(e),
        },
{
    let ghost vals = values@;
    let n = values.len();
    let mut xs: Vec<i128> = Vec::new();
    let mut i: usize = 0;
    while i < n
        invariant
            n == vals.len(),
            vals == values@,
            i <= n,
            xs@.len() == i,
            forall|k: int| 0 <= k < i ==> (#[trigger] numeric_units(vals[k])) is Some,
            forall|k: int|
                0 <= k < i ==> #[trigger] xs@[k] == clamped_at(vals, vmin, vmax, k)
                    && in_units_range(xs@[k] as int),
        decreases n - i,
    {
        match clamp_value(&values[i], vmin, vmax) {
            Some(x) => xs.push(x),
            None => return Err(StyleError::NotNumeric),
        }
        i = i + 1;
    }
    if n == 0 {
        return Ok(Vec::new());
    }
    let mut lo: i128 = xs[0];
    let mut hi: i128 = xs[0];
    let mut j: usize = 1;
    while j < n
        invariant
            n == vals.len() == xs@.len(),
            1 <= j <= n,
            forall|k: int| 0 <= k < n ==> #[trigger] xs@[k] == clamped_at(vals, vmin, vmax, k),
            lo == min_upto(vals, vmin, vmax, j as int),
            hi == max_upto(vals, vmin, vmax, j as int),
        decreases n - j,
    {
        if xs[j] < lo {
            lo = xs[j];
        }
        if xs[j] > hi {
            hi = xs[j];
        }
        j = j + 1;
    }
    if lo == hi {
        return Err(StyleError::DegenerateInput);
    }
    proof {
        lemma_extremes(vals, vmin, vmax, n as int);
        let a = choose|k: int| 0 <= k < n && min_upto(vals, vmin, vmax, n as int) == clamped_at(vals, vmin, vmax, k);
        let b = choose|k: int| 0 <= k < n && max_upto(vals, vmin, vmax, n as int) == clamped_at(vals, vmin, vmax, k);
        assert(xs@[a] == lo && xs@[b] == hi);
    }
    let mut out: Vec<Fixed> = Vec::new();
    let mut k: usize = 0;
    while k < n
        invariant
            n == vals.len() == xs@.len(),
            k <= n,
            lo < hi,
            in_units_range(lo as int) && in_units_range(hi as int),
            lo == min_upto(vals, vmin, vmax, n as int),
            hi == max_upto(vals, vmin, vmax, n as int),
            forall|q: int|
                0 <= q < n ==> #[trigger] xs@[q] == clamped_at(vals, vmin, vmax, q) && in_units_range(
                    xs@[q] as int,
                ) && lo <= xs@[q] <= hi,
            out@.len() == k,
            forall|q: int|
                0 <= q < k ==> (#[trigger] out@[q]).units == rescale(
                    clamped_at(vals, vmin, vmax, q),
                    lo as int,
                    hi as int,
                ),
        decreases n - k,
    {
        let x = xs[k];
        let d: i128 = x - lo;
        let w: i128 = hi - lo;
        assert(d * SCALE <= w * SCALE) by (nonlinear_arith)
            requires
                0 <= d <= w,
        ;
        assert(w * SCALE <= 0x1_0000_0000_0000_0000 * SCALE * SCALE) by (nonlinear_arith)
            requires
                w <= 0x1_0000_0000_0000_0000 * SCALE,
        ;
        let q: i128 = (d * SCALE as i128) / w;
        assert(0 <= q <= SCALE) by (nonlinear_arith)
            requires
                q == (d as int * SCALE as int) / (w as int),
                0 <= d <= w,
                0 < w,
        ;
        out.push(Fixed::from_units(q as i64));
        k = k + 1;
    }
    assert(out@ =~= Seq::new(
        vals.len(),
        |i: int|
            Fixed {
                units: rescale(
                    clamped_at(vals, vmin, vmax, i),
                    min_upto(vals, vmin, vmax, vals.len() as int),
                    max_upto(vals, vmin, vmax, vals.len() as int),
                ) as i64,
            },
    ));
    Ok(out)
}

/// Values that all coincide once clamped have a range of width zero, which
/// normalisation reports as `DegenerateInput` rather than dividing by zero.
pub proof fn lemma_constant_column_is_degenerate(vals: Seq<Value>, lo: Option<Fixed>, hi: Option<
    Fixed,
>)
    requires
        vals.len() > 0,
        all_numeric(vals),
        forall|i: int|
            0 <= i < vals.len() ==> #[trigger] clamped_at(vals, lo, hi, i) == clamped_at(
                vals,
                lo,
                hi,
                0,
            ),
    ensures
        normalize_spec(vals, lo, hi) == Err::<Seq<Fixed>, StyleError>(StyleError::DegenerateInput),
{
    lemma_extremes(vals, lo, hi, vals.len() as int);
}

} // verus!
