//! Linear gradients between two colours and piecewise colour maps.
use vstd::prelude::*;

use crate::colors::{Color, ColorError};
use crate::fixed::{Fixed, SCALE};

verus! {

/// One channel at position `num / den` from `x` to `y`, rounded half up.
pub open spec fn mix_channel(x: int, y: int, num: int, den: int) -> int {
    (2 * (x * (den - num) + y * num) + den) / (2 * den)
}

/// The colour at position `num / den` from `c` to `d`.
pub open spec fn mix_color(c: Color, d: Color, num: int, den: int) -> Color {
    Color {
        r: mix_channel(c.r as int, d.r as int, num, den) as u8,
        g: mix_channel(c.g as int, d.g as int, num, den) as u8,
        b: mix_channel(c.b as int, d.b as int, num, den) as u8,
    }
}

/// A channel lies between its two ends.
pub open spec fn between(v: int, x: int, y: int) -> bool {
    (x <= v <= y) || (y <= v <= x)
}

proof fn lemma_mix_bounds(x: int, y: int, num: int, den: int)
    requires
        0 <= x <= 255,
        0 <= y <= 255,
        0 <= num,
        0 < den,
        num <= den,
    ensures
        between(mix_channel(x, y, num, den), x, y),
        num == 0 ==> mix_channel(x, y, num, den) == x,
        num == den ==> mix_channel(x, y, num, den) == y,
{
    let n = 2 * (x * (den - num) + y * num) + den;
    let m = mix_channel(x, y, num, den);
    assert(m == n / (2 * den));
    if x <= y {
        assert(2 * x * den + den <= n) by (nonlinear_arith)
            requires
                n == 2 * (x * (den - num) + y * num) + den,
                x <= y,
                0 <= num <= den,
        ;
        assert(n < 2 * (y + 1) * den) by (nonlinear_arith)
            requires
                n == 2 * (x * (den - num) + y * num) + den,
                x <= y,
                0 <= num <= den,
                0 < den,
        ;
        assert(x <= m <= y) by (nonlinear_arith)
            requires
                2 * x * den + den <= n,
                n < 2 * (y + 1) * den,
                m == n / (2 * den),
                0 < den,
        ;
    } else {
        assert(2 * y * den + den <= n) by (nonlinear_arith)
            requires
                n == 2 * (x * (den - num) + y * num) + den,
                y < x,
                0 <= num <= den,
        ;
        assert(n < 2 * (x + 1) * den) by (nonlinear_arith)
            requires
                n == 2 * (x * (den - num) + y * num) + den,
                y < x,
                0 <= num <= den,
                0 < den,
        ;
        assert(y <= m <= x) by (nonlinear_arith)
            requires
                2 * y * den + den <= n,
                n < 2 * (x + 1) * den,
                m == n / (2 * den),
                0 < den,
        ;
    }
    if num == 0 {
        assert(n == 2 * x * den + den) by (nonlinear_arith)
            requires
                n == 2 * (x * (den - num) + y * num) + den,
                num == 0,
        ;
        assert(m == x) by (nonlinear_arith)
            requires
                n == 2 * x * den + den,
                m == n / (2 * den),
                0 < den,
        ;
    }
    if num == den {
        assert(n == 2 * y * den + den) by (nonlinear_arith)
            requires
                n == 2 * (x * (den - num) + y * num) + den,
                num == den,
        ;
        assert(m == y) by (nonlinear_arith)
            requires
                n == 2 * y * den + den,
                m == n / (2 * den),
                0 < den,
        ;
    }
}

proof fn lemma_mix_monotone(x: int, y: int, n1: int, n2: int, den: int)
    requires
        0 <= x <= 255,
        0 <= y <= 255,
        0 < den,
        0 <= n1 <= n2 <= den,
    ensures
        x <= y ==> mix_channel(x, y, n1, den) <= mix_channel(x, y, n2, den),
        y <= x ==> mix_channel(x, y, n2, den) <= mix_channel(x, y, n1, den),
{
    let a = 2 * (x * (den - n1) + y * n1) + den;
    let b = 2 * (x * (den - n2) + y * n2) + den;
    if x <= y {
        assert(a <= b) by (nonlinear_arith)
            requires
                a == 2 * (x * (den - n1) + y * n1) + den,
                b == 2 * (x * (den - n2) + y * n2) + den,
                x <= y,
                n1 <= n2 <= den,
        ;
        assert(a / (2 * den) <= b / (2 * den)) by (nonlinear_arith)
            requires
                a <= b,
                0 < den,
        ;
    }
    if y <= x {
        assert(b <= a) by (nonlinear_arith)
            requires
                a == 2 * (x * (den - n1) + y * n1) + den,
                b == 2 * (x * (den - n2) + y * n2) + den,
                y <= x,
                n1 <= n2 <= den,
        ;
        assert(b / (2 * den) <= a / (2 * den)) by (nonlinear_arith)
            requires
                b <= a,
                0 < den,
        ;
    }
}

proof fn lemma_mix_step(x: int, y: int, n1: int, n2: int, den: int)
    requires
        0 <= x <= 255,
        0 <= y <= 255,
        0 < den,
        0 <= n1 <= n2 <= den,
    ensures
        x <= y ==> den * (mix_channel(x, y, n2, den) - mix_channel(x, y, n1, den)) <= (y - x) * (n2
            - n1) + den,
        y <= x ==> den * (mix_channel(x, y, n1, den) - mix_channel(x, y, n2, den)) <= (x - y) * (n2
            - n1) + den,
{
    let a = 2 * (x * (den - n1) + y * n1) + den;
    let b = 2 * (x * (den - n2) + y * n2) + den;
    let qa = a / (2 * den);
    let qb = b / (2 * den);
    assert(b - a == 2 * (y - x) * (n2 - n1)) by (nonlinear_arith)
        requires
            a == 2 * (x * (den - n1) + y * n1) + den,
            b == 2 * (x * (den - n2) + y * n2) + den,
    ;
    assert(2 * den * qa <= a < 2 * den * qa + 2 * den) by (nonlinear_arith)
        requires
            qa == a / (2 * den),
            0 < den,
    ;
    assert(2 * den * qb <= b < 2 * den * qb + 2 * den) by (nonlinear_arith)
        requires
            qb == b / (2 * den),
            0 < den,
    ;
    assert(x <= y ==> den * (qb - qa) <= (y - x) * (n2 - n1) + den) by (nonlinear_arith)
        requires
            b - a == 2 * (y - x) * (n2 - n1),
            2 * den * qa <= a < 2 * den * qa + 2 * den,
            2 * den * qb <= b < 2 * den * qb + 2 * den,
            0 < den,
    ;
    assert(y <= x ==> den * (qa - qb) <= (x - y) * (n2 - n1) + den) by (nonlinear_arith)
        requires
            b - a == 2 * (y - x) * (n2 - n1),
            2 * den * qa <= a < 2 * den * qa + 2 * den,
            2 * den * qb <= b < 2 * den * qb + 2 * den,
            0 < den,
    ;
}

fn mix(x: u8, y: u8, num: u128, den: u128) -> (r: u8)
    requires
        0 < den <= 0x1_0000_0000_0000_0000,
        num <= den,
    ensures
        r as int == mix_channel(x as int, y as int, num as int, den as int),
{
    proof {
        lemma_mix_bounds(x as int, y as int, num as int, den as int);
    }
    assert(x as u128 * (den - num) <= 255 * 0x1_0000_0000_0000_0000) by (nonlinear_arith)
        requires
            num <= den <= 0x1_0000_0000_0000_0000,
    ;
    assert(y as u128 * num <= 255 * 0x1_0000_0000_0000_0000) by (nonlinear_arith)
        requires
            num <= den <= 0x1_0000_0000_0000_0000,
    ;
    let n: u128 = 2 * (x as u128 * (den - num) + y as u128 * num) + den;
    (n / (2 * den)) as u8
}

fn mix_colors(c: Color, d: Color, num: u128, den: u128) -> (r: Color)
    requires
        0 < den <= 0x1_0000_0000_0000_0000,
        num <= den,
    ensures
        r == mix_color(c, d, num as int, den as int),
{
    Color::new(mix(c.r, d.r, num, den), mix(c.g, d.g, num, den), mix(c.b, d.b, num, den))
}

/// A linear gradient from `start` to `end`.
#[derive(Clone, Copy, Debug, PartialEq, Eq, Structural)]
pub struct Gradient {
    pub start: Color,
    pub end: Color,
}

/// The colour at position `a` of `g`, refused outside `[0, 1]`.
pub open spec fn interpolate_spec(g: Gradient, a: Fixed) -> Result<Color, ColorError> {
    if 0 <= a.units <= SCALE {
        Ok(mix_color(g.start, g.end, a.units as int, SCALE as int))
    } else {
        Err(ColorError::Range)
    }
}

impl Gradient {
    pub fn new(start: Color, end: Color) -> (g: Gradient)
        ensures
            g == (Gradient { start, end }),
    {
        Gradient { start, end }
    }

    /// Each channel `round(start * (1 - a) + end * a)`, for `0 <= a <= 1`.
    pub fn interpolate(&self, a: Fixed) -> (res: Result<Color, ColorError>)
        ensures
            res == interpolate_spec(*self, a),
    {
        if a.units < 0 || a.units > SCALE {
            return Err(ColorError::Range);
        }
        Ok(mix_colors(self.start, self.end, a.units as u128, SCALE as u128))
    }
}

/// Position 0 of a gradient is its start colour and position 1 its end colour.
pub proof fn lemma_gradient_ends(g: Gradient)
    ensures
        interpolate_spec(g, Fixed { units: 0 }) == Ok::<Color, ColorError>(g.start),
        interpolate_spec(g, Fixed { units: SCALE }) == Ok::<Color, ColorError>(g.end),
{
    lemma_mix_bounds(g.start.r as int, g.end.r as int, 0, SCALE as int);
    lemma_mix_bounds(g.start.g as int, g.end.g as int, 0, SCALE as int);
    lemma_mix_bounds(g.start.b as int, g.end.b as int, 0, SCALE as int);
    lemma_mix_bounds(g.start.r as int, g.end.r as int, SCALE as int, SCALE as int);
    lemma_mix_bounds(g.start.g as int, g.end.g as int, SCALE as int, SCALE as int);
    lemma_mix_bounds(g.start.b as int, g.end.b as int, SCALE as int, SCALE as int);
}

/// A colour anchored at a value; breakpoints compare by value alone.
#[derive(Clone, Copy, Debug)]
pub struct ColorBreakPoint {
    pub value: Fixed,
    pub color: Color,
}

impl ColorBreakPoint {
    pub fn new(value: Fixed, color: Color) -> (p: ColorBreakPoint)
        ensures
            p.value == value && p.color == color,
    {
        ColorBreakPoint { value, color }
    }
}

impl PartialEq for ColorBreakPoint {
    fn eq(&self, other: &ColorBreakPoint) -> (r: bool) {
        self.value.units == other.value.units
    }
}

impl vstd::std_specs::cmp::PartialEqSpecImpl for ColorBreakPoint {
    open spec fn obeys_eq_spec() -> bool {
        true
    }

    open spec fn eq_spec(&self, other: &ColorBreakPoint) -> bool {
        self.value == other.value
    }
}

/// Order of two breakpoints by value.
pub open spec fn value_order(a: ColorBreakPoint, b: ColorBreakPoint) -> core::cmp::Ordering {
    if a.value.units < b.value.units {
        core::cmp::Ordering::Less
    } else if a.value.units > b.value.units {
        core::cmp::Ordering::Greater
    } else {
        core::cmp::Ordering::Equal
    }
}

impl PartialOrd for ColorBreakPoint {
    fn partial_cmp(&self, other: &ColorBreakPoint) -> (r: Option<core::cmp::Ordering>) {
        if self.value.units < other.value.units {
            Some(core::cmp::Ordering::Less)
        } else if self.value.units > other.value.units {
            Some(core::cmp::Ordering::Greater)
        } else {
            Some(core::cmp::Ordering::Equal)
        }
    }
}

impl vstd::std_specs::cmp::PartialOrdSpecImpl for ColorBreakPoint {
    open spec fn obeys_partial_cmp_spec() -> bool {
        true
    }

    open spec fn partial_cmp_spec(&self, other: &ColorBreakPoint) -> Option<core::cmp::Ordering> {
        Some(value_order(*self, *other))
    }
}

/// A channel moving from `c1` to `c2` over a distance `d` of a bracket of width `w`
/// whose ends are `x` and `y` changes by at most `|y - x| * d / w`, plus one.
pub open spec fn step_bounded(c1: int, c2: int, x: int, y: int, d: int, w: int) -> bool {
    &&& x <= y ==> w * (c2 - c1) <= (y - x) * d + w
    &&& y <= x ==> w * (c1 - c2) <= (x - y) * d + w
}

/// Breakpoints sorted strictly ascending by value.
pub open spec fn ascending(p: Seq<ColorBreakPoint>) -> bool {
    forall|i: int, j: int| 0 <= i < j < p.len() ==> p[i].value.units < p[j].value.units
}

/// The colour found by scanning the pairs `(p[i], p[i + 1])`, `(p[i + 1], p[i + 2])`,
/// ... for `v`: a left value equal to `v` gives its own colour, a right value above
/// `v` gives the interpolation across the pair, and past the last pair the last
/// colour stands.
pub open spec fn scan_from(p: Seq<ColorBreakPoint>, v: int, i: int) -> Color
    decreases p.len() - i,
{
    if 0 <= i && i + 1 < p.len() {
        let l = p[i].value.units as int;
        let r = p[i + 1].value.units as int;
        if v == l {
            p[i].color
        } else if v < r {
            mix_color(p[i].color, p[i + 1].color, v - l, r - l)
        } else {
            scan_from(p, v, i + 1)
        }
    } else {
        p.last().color
    }
}

/// The colour of `v` on the map `p`: the first colour below the first value,
/// otherwise what the scan from the first pair finds.
pub open spec fn color_at(p: Seq<ColorBreakPoint>, v: int) -> Color {
    if v < p[0].value.units {
        p[0].color
    } else {
        scan_from(p, v, 0)
    }
}

/// Breakpoints spread evenly over `[0, 1]`: breakpoint `i` of `n` stands at
/// `i / (n - 1)`, rounded down to whole units.
pub open spec fn palette_value(i: int, n: int) -> int {
    (i * SCALE) / (n - 1)
}

/// Colours keyed by breakpoints, expected in ascending order of value.
#[derive(Clone, Debug)]
pub struct ColorMap {
    v: Vec<ColorBreakPoint>,
}

impl View for ColorMap {
    type V = Seq<ColorBreakPoint>;

    closed spec fn view(&self) -> Seq<ColorBreakPoint> {
        self.v@
    }
}

impl ColorMap {
    /// A map over the given breakpoints, taken as they are.
    pub fn new(v: Vec<ColorBreakPoint>) -> (m: ColorMap)
        ensures
            m@ == v@,
    {
        ColorMap { v }
    }

    /// White at 0 to red at 1.
    pub fn red_scale() -> (m: ColorMap)
        ensures
            m@.len() == 2,
            m@[0].value.units == 0 && m@[0].color == (Color { r: 255, g: 255, b: 255 }),
            m@[1].value.units == SCALE && m@[1].color == (Color { r: 255, g: 0, b: 0 }),
    {
        let m = ColorMap::from_palette(vec![Color::new(255, 255, 255), Color::new(255, 0, 0)]);
        assert(palette_value(1, 2) == SCALE);
        m
    }

    /// The colours spread evenly over `[0, 1]`, the first at 0 and the last at 1.
    pub fn from_palette(colors: Vec<Color>) -> (m: ColorMap)
        requires
            colors.len() >= 2,
        ensures
            m@.len() == colors.len(),
            forall|i: int|
                0 <= i < colors.len() ==> (#[trigger] m@[i]).color == colors[i]
                    && m@[i].value.units == palette_value(i, colors.len() as int),
    {
        let n = colors.len();
        let mut v: Vec<ColorBreakPoint> = Vec::new();
        let mut i: usize = 0;
        while i < n
            invariant
                n == colors.len() >= 2,
                i <= n,
                v.len() == i,
                forall|k: int|
                    0 <= k < i ==> (#[trigger] v@[k]).color == colors[k] && v@[k].value.units
                        == palette_value(k, n as int),
            decreases n - i,
        {
            let num: u128 = i as u128 * SCALE as u128;
            let den: u128 = (n - 1) as u128;
            assert(num / den <= SCALE) by (nonlinear_arith)
                requires
                    num == i * SCALE,
                    den == n - 1,
                    i < n,
                    den >= 1,
            ;
            let units: i64 = (num / den) as i64;
            v.push(ColorBreakPoint::new(Fixed::from_units(units), colors[i]));
            i = i + 1;
        }
        ColorMap { v }
    }

    /// The colour of `value`: the first colour below the first breakpoint, the last
    /// colour from the last breakpoint on, and between two consecutive breakpoints
    /// the interpolation across them (a breakpoint's own value gives its own colour).
    pub fn get(&self, value: Fixed) -> (res: Result<Color, ColorError>)
        requires
            self@.len() > 0,
        ensures
            res == Ok::<Color, ColorError>(color_at(self@, value.units as int)),
    {
        let v = value.units;
        if v < self.v[0].value.units {
            return Ok(self.v[0].color);
        }
        let n = self.v.len();
        let mut i: usize = 0;
        while i + 1 < n
            invariant
                n == self.v.len() > 0,
                v == value.units,
                i < n,
                v >= self.v@[i as int].value.units,
                v >= self.v@[0].value.units,
                scan_from(self@, v as int, i as int) == scan_from(self@, v as int, 0),
            decreases n - i,
        {
            let left = self.v[i];
            let right = self.v[i + 1];
            if v == left.value.units {
                return Ok(left.color);
            }
            if v < right.value.units {
                let num: u128 = (v as i128 - left.value.units as i128) as u128;
                let den: u128 = (right.value.units as i128 - left.value.units as i128) as u128;
                return Ok(mix_colors(left.color, right.color, num, den));
            }
            i = i + 1;
        }
        Ok(self.v[n - 1].color)
    }
}

proof fn lemma_scan_lands(p: Seq<ColorBreakPoint>, v: int, i: int, j: int)
    requires
        ascending(p),
        0 <= j <= i,
        i + 1 < p.len(),
        p[i].value.units <= v < p[i + 1].value.units,
    ensures
        scan_from(p, v, j) == mix_color(
            p[i].color,
            p[i + 1].color,
            v - p[i].value.units,
            p[i + 1].value.units - p[i].value.units,
        ),
    decreases i - j,
{
    let l = p[i].value.units as int;
    let r = p[i + 1].value.units as int;
    if j < i {
        assert(p[j].value.units < l);
        assert(p[j + 1].value.units <= l);
        lemma_scan_lands(p, v, i, j + 1);
    } else if v == l {
        lemma_mix_bounds(p[i].color.r as int, p[i + 1].color.r as int, 0, r - l);
        lemma_mix_bounds(p[i].color.g as int, p[i + 1].color.g as int, 0, r - l);
        lemma_mix_bounds(p[i].color.b as int, p[i + 1].color.b as int, 0, r - l);
    }
}

/// Within one bracket `[p[i], p[i + 1])` of an ascending map, each channel of the
/// colour stays between the bracket's two end colours and moves monotonically from
/// the left one towards the right one as the value grows. It also moves
/// continuously: between two values it changes by at most the proportional share
/// of the bracket's change in that channel, plus one step of rounding.
pub proof fn lemma_color_map_monotone(p: Seq<ColorBreakPoint>, i: int, v1: int, v2: int)
    requires
        ascending(p),
        0 <= i,
        i + 1 < p.len(),
        p[i].value.units <= v1 < v2 < p[i + 1].value.units,
    ensures
        ({
            let (c1, c2) = (color_at(p, v1), color_at(p, v2));
            let (x, y) = (p[i].color, p[i + 1].color);
            let w = p[i + 1].value.units - p[i].value.units;
            &&& between(c1.r as int, x.r as int, y.r as int)
            &&& between(c2.r as int, x.r as int, y.r as int)
            &&& between(c1.g as int, x.g as int, y.g as int)
            &&& between(c2.g as int, x.g as int, y.g as int)
            &&& between(c1.b as int, x.b as int, y.b as int)
            &&& between(c2.b as int, x.b as int, y.b as int)
            &&& (x.r <= y.r ==> c1.r <= c2.r) && (y.r <= x.r ==> c2.r <= c1.r)
            &&& (x.g <= y.g ==> c1.g <= c2.g) && (y.g <= x.g ==> c2.g <= c1.g)
            &&& (x.b <= y.b ==> c1.b <= c2.b) && (y.b <= x.b ==> c2.b <= c1.b)
            &&& step_bounded(c1.r as int, c2.r as int, x.r as int, y.r as int, v2 - v1, w)
            &&& step_bounded(c1.g as int, c2.g as int, x.g as int, y.g as int, v2 - v1, w)
            &&& step_bounded(c1.b as int, c2.b as int, x.b as int, y.b as int, v2 - v1, w)
        }),
{
    let l = p[i].value.units as int;
    let r = p[i + 1].value.units as int;
    let (x, y) = (p[i].color, p[i + 1].color);
    assert(p[0].value.units <= l) by {
        if i > 0 {
            assert(p[0].value.units < p[i].value.units);
        }
    }
    lemma_scan_lands(p, v1, i, 0);
    lemma_scan_lands(p, v2, i, 0);
    lemma_mix_bounds(x.r as int, y.r as int, v1 - l, r - l);
    lemma_mix_bounds(x.g as int, y.g as int, v1 - l, r - l);
    lemma_mix_bounds(x.b as int, y.b as int, v1 - l, r - l);
    lemma_mix_bounds(x.r as int, y.r as int, v2 - l, r - l);
    lemma_mix_bounds(x.g as int, y.g as int, v2 - l, r - l);
    lemma_mix_bounds(x.b as int, y.b as int, v2 - l, r - l);
    lemma_mix_monotone(x.r as int, y.r as int, v1 - l, v2 - l, r - l);
    lemma_mix_monotone(x.g as int, y.g as int, v1 - l, v2 - l, r - l);
    lemma_mix_monotone(x.b as int, y.b as int, v1 - l, v2 - l, r - l);
    lemma_mix_step(x.r as int, y.r as int, v1 - l, v2 - l, r - l);
    lemma_mix_step(x.g as int, y.g as int, v1 - l, v2 - l, r - l);
    lemma_mix_step(x.b as int, y.b as int, v1 - l, v2 - l, r - l);
}

/// A channel `ch` is the linear value `(x * (w - n) + y * n) / w` rounded: within
/// half a unit of it.
pub open spec fn near_linear(ch: int, x: int, y: int, n: int, w: int) -> bool {
    let lin = x * (w - n) + y * n;
    2 * w * ch <= 2 * lin + w && 2 * lin - w < 2 * w * ch
}

proof fn lemma_mix_near_linear(x: int, y: int, n: int, w: int)
    requires
        0 < w,
    ensures
        near_linear(mix_channel(x, y, n, w), x, y, n, w),
{
    let lin = x * (w - n) + y * n;
    let q = mix_channel(x, y, n, w);
    assert(q == (2 * lin + w) / (2 * w));
    assert(2 * w * q <= 2 * lin + w < 2 * w * q + 2 * w) by (nonlinear_arith)
        requires
            q == (2 * lin + w) / (2 * w),
            0 < w,
    ;
}

proof fn lemma_mix_scale(x: int, y: int, n: int, w: int, a: int, s: int)
    requires
        0 < w,
        0 < s,
        a * w == n * s,
    ensures
        mix_channel(x, y, n, w) == mix_channel(x, y, a, s),
{
    let p = 2 * (x * (w - n) + y * n) + w;
    let q = 2 * (x * (s - a) + y * a) + s;
    let ns = n * s;
    assert(p * s == 2 * x * (w * s) - 2 * x * ns + 2 * y * ns + w * s) by (nonlinear_arith)
        requires
            p == 2 * (x * (w - n) + y * n) + w,
            ns == n * s,
    ;
    let aw = a * w;
    let t1 = x * (s - a);
    let t2 = y * a;
    assert(t1 * w == x * (s * w) - x * aw) by (nonlinear_arith)
        requires
            t1 == x * (s - a),
            aw == a * w,
    ;
    assert(t2 * w == y * aw) by (nonlinear_arith)
        requires
            t2 == y * a,
            aw == a * w,
    ;
    assert(q * w == 2 * (t1 * w) + 2 * (t2 * w) + s * w) by (nonlinear_arith)
        requires
            q == 2 * (t1 + t2) + s,
    ;
    assert(s * w == w * s) by (nonlinear_arith);
    assert(q * w == 2 * x * (w * s) - 2 * x * aw + 2 * y * aw + w * s) by (nonlinear_arith)
        requires
            q * w == 2 * (t1 * w) + 2 * (t2 * w) + s * w,
            t1 * w == x * (s * w) - x * aw,
            t2 * w == y * aw,
            s * w == w * s,
    ;
    assert(aw == ns);
    let d1 = p / (2 * w);
    let d2 = q / (2 * s);
    assert(2 * w * d1 <= p < 2 * w * d1 + 2 * w) by (nonlinear_arith)
        requires
            d1 == p / (2 * w),
            0 < w,
    ;
    assert(2 * s * d2 <= q < 2 * s * d2 + 2 * s) by (nonlinear_arith)
        requires
            d2 == q / (2 * s),
            0 < s,
    ;
    assert(2 * w * s * d1 <= p * s < 2 * w * s * d1 + 2 * w * s) by (nonlinear_arith)
        requires
            2 * w * d1 <= p < 2 * w * d1 + 2 * w,
            0 < s,
    ;
    assert(2 * w * s * d2 <= q * w < 2 * w * s * d2 + 2 * w * s) by (nonlinear_arith)
        requires
            2 * s * d2 <= q < 2 * s * d2 + 2 * s,
            0 < w,
    ;
    assert(d1 == d2) by (nonlinear_arith)
        requires
            2 * w * s * d1 <= p * s < 2 * w * s * d1 + 2 * w * s,
            2 * w * s * d2 <= q * w < 2 * w * s * d2 + 2 * w * s,
            p * s == q * w,
            0 < w,
            0 < s,
    ;
}

/// Inside one bracket `[p[i], p[i + 1])` of an ascending map, the colour of `v` is
/// the interpolation across the bracket at position `(v - l) / (r - l)`: each
/// channel is the linear value rounded, within half a unit of it. Where that
/// position is a `Fixed` `a`, it is what the bracket's gradient gives at `a`.
pub proof fn lemma_color_map_bracket(p: Seq<ColorBreakPoint>, i: int, v: int)
    requires
        ascending(p),
        0 <= i,
        i + 1 < p.len(),
        p[i].value.units <= v < p[i + 1].value.units,
    ensures
        ({
            let (l, r) = (p[i].value.units as int, p[i + 1].value.units as int);
            let (x, y, c) = (p[i].color, p[i + 1].color, color_at(p, v));
            &&& c == mix_color(x, y, v - l, r - l)
            &&& near_linear(c.r as int, x.r as int, y.r as int, v - l, r - l)
            &&& near_linear(c.g as int, x.g as int, y.g as int, v - l, r - l)
            &&& near_linear(c.b as int, x.b as int, y.b as int, v - l, r - l)
            &&& forall|a: Fixed|
                #![trigger interpolate_spec(Gradient { start: x, end: y }, a)]
                a.units * (r - l) == (v - l) * SCALE ==> interpolate_spec(
                    Gradient { start: x, end: y },
                    a,
                ) == Ok::<Color, ColorError>(c)
        }),
{
    let l = p[i].value.units as int;
    let r = p[i + 1].value.units as int;
    let (x, y) = (p[i].color, p[i + 1].color);
    assert(p[0].value.units <= l) by {
        if i > 0 {
            assert(p[0].value.units < p[i].value.units);
        }
    }
    lemma_scan_lands(p, v, i, 0);
    lemma_mix_bounds(x.r as int, y.r as int, v - l, r - l);
    lemma_mix_bounds(x.g as int, y.g as int, v - l, r - l);
    lemma_mix_bounds(x.b as int, y.b as int, v - l, r - l);
    lemma_mix_near_linear(x.r as int, y.r as int, v - l, r - l);
    lemma_mix_near_linear(x.g as int, y.g as int, v - l, r - l);
    lemma_mix_near_linear(x.b as int, y.b as int, v - l, r - l);
    assert forall|a: Fixed|
        #![trigger interpolate_spec(Gradient { start: x, end: y }, a)]
        a.units * (r - l) == (v - l) * SCALE implies interpolate_spec(
            Gradient { start: x, end: y },
            a,
        ) == Ok::<Color, ColorError>(color_at(p, v)) by {
        let au = a.units as int;
        assert(0 <= au <= SCALE) by (nonlinear_arith)
            requires
                au * (r - l) == (v - l) * SCALE,
                0 <= v - l < r - l,
        ;
        lemma_mix_scale(x.r as int, y.r as int, v - l, r - l, au, SCALE as int);
        lemma_mix_scale(x.g as int, y.g as int, v - l, r - l, au, SCALE as int);
        lemma_mix_scale(x.b as int, y.b as int, v - l, r - l, au, SCALE as int);
    }
}

} // verus!
