//! RGB colours: construction, parsing of colour literals and formatting.
use vstd::prelude::*;

use crate::fixed::{fixed_text, Fixed};
pub use crate::gradient::{ColorBreakPoint, ColorMap, Gradient};
use crate::text::{dec_text, digit_char, push_char, push_dec, str_eq};

verus! {

/// Why a colour operation was refused.
#[derive(Clone, Copy, Debug, PartialEq, Eq, Structural)]
pub enum ColorError {
    /// The text is not a colour literal of any accepted form.
    Format,
    /// A gradient position lies outside `[0, 1]`.
    Range,
}

/// An sRGB colour with one byte per channel.
#[derive(Clone, Copy, Debug, PartialEq, Eq, Structural)]
pub struct Color {
    pub r: u8,
    pub g: u8,
    pub b: u8,
}

/// Lower-case hexadecimal digit for `d < 16`.
pub open spec fn hex_char(d: nat) -> char {
    if d < 10 {
        digit_char(d)
    } else {
        (d + 87) as char
    }
}

/// Two hexadecimal digits of a byte, zero padded.
pub open spec fn hex_byte(x: u8) -> Seq<char> {
    seq![hex_char(x as nat / 16), hex_char(x as nat % 16)]
}

/// `#rrggbb`.
pub open spec fn hex_text(c: Color) -> Seq<char> {
    seq!['#'] + hex_byte(c.r) + hex_byte(c.g) + hex_byte(c.b)
}

/// `r, g, b` in decimal.
pub open spec fn csv_text(c: Color) -> Seq<char> {
    dec_text(c.r as nat) + seq![',', ' '] + dec_text(c.g as nat) + seq![',', ' '] + dec_text(
        c.b as nat,
    )
}

/// `rgb(r, g, b)`.
pub open spec fn rgb_text(c: Color) -> Seq<char> {
    seq!['r', 'g', 'b', '('] + csv_text(c) + seq![')']
}

/// `rgba(r, g, b, a)` with the opacity in its shortest exact decimal form.
pub open spec fn rgba_text(c: Color, a: Fixed) -> Seq<char> {
    seq!['r', 'g', 'b', 'a', '('] + csv_text(c) + seq![',', ' '] + fixed_text(a) + seq![')']
}

/// Value of a hexadecimal digit of either case.
pub open spec fn hex_value(c: char) -> Option<nat> {
    if '0' <= c && c <= '9' {
        Some((c as nat - 48) as nat)
    } else if 'a' <= c && c <= 'f' {
        Some((c as nat - 87) as nat)
    } else if 'A' <= c && c <= 'F' {
        Some((c as nat - 55) as nat)
    } else {
        None
    }
}

/// Byte written by the two hexadecimal digits at `i` and `i + 1`.
pub open spec fn hex_pair(s: Seq<char>, i: int) -> Option<u8> {
    match (hex_value(s[i]), hex_value(s[i + 1])) {
        (Some(hi), Some(lo)) => Some((16 * hi + lo) as u8),
        _ => None,
    }
}

/// The colour that a `#rrggbb` literal denotes, if `s` is one.
pub open spec fn parse_hex(s: Seq<char>) -> Option<Color> {
    if s.len() == 7 && s[0] == '#' {
        match (hex_pair(s, 1), hex_pair(s, 3), hex_pair(s, 5)) {
            (Some(r), Some(g), Some(b)) => Some(Color { r, g, b }),
            _ => None,
        }
    } else {
        None
    }
}

pub open spec fn is_digit(c: char) -> bool {
    '0' <= c && c <= '9'
}

/// Value of a run of decimal digits, leading zeros allowed.
pub open spec fn dec_value(d: Seq<char>) -> nat
    decreases d.len(),
{
    if d.len() == 0 {
        0
    } else {
        10 * dec_value(d.drop_last()) + (d.last() as nat - 48) as nat
    }
}

/// End of the run of decimal digits that starts at `i`.
pub open spec fn digit_run_end(s: Seq<char>, i: int) -> int
    decreases s.len() - i,
{
    if 0 <= i < s.len() && is_digit(s[i]) {
        digit_run_end(s, i + 1)
    } else {
        i
    }
}

/// The byte written in decimal at `i`, and where its digits end.
pub open spec fn rgb_component(s: Seq<char>, i: int) -> Option<(u8, int)> {
    let j = digit_run_end(s, i);
    if j > i && dec_value(s.subrange(i, j)) <= 255 {
        Some((dec_value(s.subrange(i, j)) as u8, j))
    } else {
        None
    }
}

/// `, ` stands at `i`.
pub open spec fn sep_at(s: Seq<char>, i: int) -> bool {
    0 <= i && i + 1 < s.len() && s[i] == ',' && s[i + 1] == ' '
}

pub open spec fn rgb_prefix(s: Seq<char>) -> bool {
    s.len() >= 4 && s[0] == 'r' && s[1] == 'g' && s[2] == 'b' && s[3] == '('
}

/// The colour that an `rgb(r, g, b)` literal denotes, if `s` is one: each channel
/// one or more decimal digits with a value of at most 255.
pub open spec fn parse_rgb(s: Seq<char>) -> Option<Color> {
    if !rgb_prefix(s) {
        None
    } else {
        match rgb_component(s, 4) {
            None => None,
            Some((r, i)) => if !sep_at(s, i) {
                None
            } else {
                match rgb_component(s, i + 2) {
                    None => None,
                    Some((g, j)) => if !sep_at(s, j) {
                        None
                    } else {
                        match rgb_component(s, j + 2) {
                            None => None,
                            Some((b, k)) => if k == s.len() - 1 && s[k] == ')' {
                                Some(Color { r, g, b })
                            } else {
                                None
                            },
                        }
                    },
                }
            },
        }
    }
}

/// The eight colours known by name.
pub open spec fn named_color(s: Seq<char>) -> Option<Color> {
    if s == "red"@ {
        Some(Color { r: 255, g: 0, b: 0 })
    } else if s == "green"@ {
        Some(Color { r: 0, g: 255, b: 0 })
    } else if s == "blue"@ {
        Some(Color { r: 0, g: 0, b: 255 })
    } else if s == "yellow"@ {
        Some(Color { r: 255, g: 255, b: 0 })
    } else if s == "cyan"@ {
        Some(Color { r: 0, g: 255, b: 255 })
    } else if s == "magenta"@ {
        Some(Color { r: 255, g: 0, b: 255 })
    } else if s == "black"@ {
        Some(Color { r: 0, g: 0, b: 0 })
    } else if s == "white"@ {
        Some(Color { r: 255, g: 255, b: 255 })
    } else {
        None
    }
}

/// A hexadecimal literal, else an `rgb(...)` literal, else a colour name.
pub open spec fn parse_color(s: Seq<char>) -> Option<Color> {
    if parse_hex(s) is Some {
        parse_hex(s)
    } else if parse_rgb(s) is Some {
        parse_rgb(s)
    } else {
        named_color(s)
    }
}

proof fn lemma_dec_value_grows(d: Seq<char>, e: Seq<char>)
    requires
        forall|k: int| 0 <= k < e.len() ==> is_digit(#[trigger] e[k]),
    ensures
        dec_value(d) <= dec_value(d + e),
    decreases e.len(),
{
    if e.len() > 0 {
        let e0 = e.drop_last();
        assert((d + e).drop_last() =~= d + e0);
        assert(forall|k: int| 0 <= k < e0.len() ==> e0[k] == e[k]);
        lemma_dec_value_grows(d, e0);
    }
}

fn read_component(s: &str, n: usize, i: usize) -> (res: Option<(u8, usize)>)
    requires
        n == s@.len(),
        i <= n,
    ensures
        res matches Some((v, j)) ==> rgb_component(s@, i as int) == Some((v, j as int)) && j <= n,
        res is None ==> rgb_component(s@, i as int) is None,
{
    let mut j: usize = i;
    let mut v: u32 = 0;
    while j < n && is_digit_char(s.get_char(j))
        invariant
            n == s@.len(),
            i <= j <= n,
            forall|k: int| i <= k < j ==> is_digit(#[trigger] s@[k]),
            digit_run_end(s@, i as int) == digit_run_end(s@, j as int),
            v == dec_value(s@.subrange(i as int, j as int)),
            v <= 255,
        decreases n - j,
    {
        let c = s.get_char(j);
        let nv: u32 = 10 * v + (c as u32 - 48);
        assert(s@.subrange(i as int, j + 1).drop_last() =~= s@.subrange(i as int, j as int));
        if nv > 255 {
            proof {
                let e = digit_run_end(s@, i as int);
                lemma_run_end_bounds(s@, j as int + 1);
                assert(s@.subrange(i as int, e) =~= s@.subrange(i as int, j + 1) + s@.subrange(
                    j + 1,
                    e,
                ));
                lemma_run_is_digits(s@, j as int + 1);
                lemma_dec_value_grows(s@.subrange(i as int, j + 1), s@.subrange(j + 1, e));
            }
            return None;
        }
        v = nv;
        j = j + 1;
    }
    if j == i {
        None
    } else {
        Some((v as u8, j))
    }
}

proof fn lemma_run_end_bounds(s: Seq<char>, i: int)
    requires
        0 <= i <= s.len(),
    ensures
        i <= digit_run_end(s, i) <= s.len(),
    decreases s.len() - i,
{
    if i < s.len() && is_digit(s[i]) {
        lemma_run_end_bounds(s, i + 1);
    }
}

proof fn lemma_run_is_digits(s: Seq<char>, i: int)
    requires
        0 <= i <= s.len(),
    ensures
        forall|k: int| i <= k < digit_run_end(s, i) ==> is_digit(#[trigger] s[k]),
        forall|k: int|
            0 <= k < digit_run_end(s, i) - i ==> is_digit(#[trigger] s.subrange(
                i,
                digit_run_end(s, i),
            )[k]),
    decreases s.len() - i,
{
    lemma_run_end_bounds(s, i);
    if i < s.len() && is_digit(s[i]) {
        lemma_run_is_digits(s, i + 1);
    }
}

fn is_digit_char(c: char) -> (r: bool)
    ensures
        r == is_digit(c),
{
    '0' <= c && c <= '9'
}

fn sep_char_at(s: &str, n: usize, i: usize) -> (r: bool)
    requires
        n == s@.len(),
        i <= n,
    ensures
        r == sep_at(s@, i as int),
{
    n - i > 1 && s.get_char(i) == ',' && s.get_char(i + 1) == ' '
}

fn hex_digit_value(c: char) -> (r: Option<u8>)
    ensures
        r matches Some(v) ==> hex_value(c) == Some(v as nat) && v < 16,
        r is None ==> hex_value(c) is None,
{
    if '0' <= c && c <= '9' {
        Some((c as u32 - 48) as u8)
    } else if 'a' <= c && c <= 'f' {
        Some((c as u32 - 87) as u8)
    } else if 'A' <= c && c <= 'F' {
        Some((c as u32 - 55) as u8)
    } else {
        None
    }
}

fn read_hex_pair(s: &str, i: usize) -> (r: Option<u8>)
    requires
        s@.len() == 7,
        i < 6,
    ensures
        r == hex_pair(s@, i as int),
{
    let hi = hex_digit_value(s.get_char(i));
    let lo = hex_digit_value(s.get_char(i + 1));
    match (hi, lo) {
        (Some(h), Some(l)) => Some(16 * h + l),
        _ => None,
    }
}

fn push_hex_byte(s: &mut String, x: u8)
    ensures
        final(s)@ == old(s)@ + hex_byte(x),
{
    let hi: u8 = x / 16;
    let lo: u8 = x % 16;
    let ch = if hi < 10 { (hi + 48) as char } else { (hi + 87) as char };
    let cl = if lo < 10 { (lo + 48) as char } else { (lo + 87) as char };
    push_char(s, ch);
    push_char(s, cl);
    assert(final(s)@ =~= old(s)@ + hex_byte(x));
}

impl Color {
    pub fn new(r: u8, g: u8, b: u8) -> (c: Color)
        ensures
            c == (Color { r, g, b }),
    {
        Color { r, g, b }
    }

    /// Parses `#rrggbb`, with hexadecimal digits of either case.
    pub fn from_hex(hex: &str) -> (res: Result<Color, ColorError>)
        ensures
            res matches Ok(c) ==> parse_hex(hex@) == Some(c),
            res is Err ==> parse_hex(hex@) is None && res == Err::<Color, ColorError>(
                ColorError::Format,
            ),
    {
        if hex.unicode_len() != 7 || hex.get_char(0) != '#' {
            return Err(ColorError::Format);
        }
        let r = read_hex_pair(hex, 1);
        let g = read_hex_pair(hex, 3);
        let b = read_hex_pair(hex, 5);
        match (r, g, b) {
            (Some(r), Some(g), Some(b)) => Ok(Color::new(r, g, b)),
            _ => Err(ColorError::Format),
        }
    }

    /// Parses `rgb(r, g, b)`: a comma and one space between channels, each channel
    /// one or more decimal digits with a value of at most 255.
    pub fn from_rgb(rgb: &str) -> (res: Result<Color, ColorError>)
        ensures
            res matches Ok(c) ==> parse_rgb(rgb@) == Some(c),
            res is Err ==> parse_rgb(rgb@) is None && res == Err::<Color, ColorError>(
                ColorError::Format,
            ),
    {
        let n = rgb.unicode_len();
        if !(n >= 4 && rgb.get_char(0) == 'r' && rgb.get_char(1) == 'g' && rgb.get_char(2) == 'b'
            && rgb.get_char(3) == '(') {
            return Err(ColorError::Format);
        }
        let (r, i) = match read_component(rgb, n, 4) {
            Some(p) => p,
            None => return Err(ColorError::Format),
        };
        if !sep_char_at(rgb, n, i) {
            return Err(ColorError::Format);
        }
        let (g, j) = match read_component(rgb, n, i + 2) {
            Some(p) => p,
            None => return Err(ColorError::Format),
        };
        if !sep_char_at(rgb, n, j) {
            return Err(ColorError::Format);
        }
        let (b, k) = match read_component(rgb, n, j + 2) {
            Some(p) => p,
            None => return Err(ColorError::Format),
        };
        if n - k == 1 && rgb.get_char(k) == ')' {
            Ok(Color::new(r, g, b))
        } else {
            Err(ColorError::Format)
        }
    }

    /// Parses a colour literal: `#rrggbb`, `rgb(r, g, b)` or one of the names red,
    /// green, blue, yellow, cyan, magenta, black and white.
    pub fn parse(s: &str) -> (res: Result<Color, ColorError>)
        ensures
            res matches Ok(c) ==> parse_color(s@) == Some(c),
            res is Err ==> parse_color(s@) is None && res == Err::<Color, ColorError>(
                ColorError::Format,
            ),
    {
        if let Ok(c) = Color::from_hex(s) {
            return Ok(c);
        }
        if let Ok(c) = Color::from_rgb(s) {
            return Ok(c);
        }
        if str_eq(s, "red") {
            Ok(Color::new(255, 0, 0))
        } else if str_eq(s, "green") {
            Ok(Color::new(0, 255, 0))
        } else if str_eq(s, "blue") {
            Ok(Color::new(0, 0, 255))
        } else if str_eq(s, "yellow") {
            Ok(Color::new(255, 255, 0))
        } else if str_eq(s, "cyan") {
            Ok(Color::new(0, 255, 255))
        } else if str_eq(s, "magenta") {
            Ok(Color::new(255, 0, 255))
        } else if str_eq(s, "black") {
            Ok(Color::new(0, 0, 0))
        } else if str_eq(s, "white") {
            Ok(Color::new(255, 255, 255))
        } else {
            Err(ColorError::Format)
        }
    }

    /// The channels as `r, g, b` in decimal.
    pub fn to_csv(&self) -> (s: String)
        ensures
            s@ == csv_text(*self),
    {
        let mut s = String::new();
        push_dec(&mut s, self.r as u64);
        push_char(&mut s, ',');
        push_char(&mut s, ' ');
        push_dec(&mut s, self.g as u64);
        push_char(&mut s, ',');
        push_char(&mut s, ' ');
        push_dec(&mut s, self.b as u64);
        assert(s@ =~= csv_text(*self));
        s
    }

    /// `#rrggbb` in lower-case hexadecimal.
    pub fn to_hex(&self) -> (s: String)
        ensures
            s@ == hex_text(*self),
    {
        let mut s = String::new();
        push_char(&mut s, '#');
        push_hex_byte(&mut s, self.r);
        push_hex_byte(&mut s, self.g);
        push_hex_byte(&mut s, self.b);
        assert(s@ =~= hex_text(*self));
        s
    }

    /// `rgb(r, g, b)`.
    pub fn to_rgb(&self) -> (s: String)
        ensures
            s@ == rgb_text(*self),
    {
        let mut s = String::new();
        push_char(&mut s, 'r');
        push_char(&mut s, 'g');
        push_char(&mut s, 'b');
        push_char(&mut s, '(');
        let csv = self.to_csv();
        s.append(csv.as_str());
        push_char(&mut s, ')');
        assert(s@ =~= rgb_text(*self));
        s
    }

    /// `rgba(r, g, b, a)`: this colour at opacity `a`.
    pub fn to_rgba(&self, a: Fixed) -> (s: String)
        ensures
            s@ == rgba_text(*self, a),
    {
        let mut s = String::new();
        push_char(&mut s, 'r');
        push_char(&mut s, 'g');
        push_char(&mut s, 'b');
        push_char(&mut s, 'a');
        push_char(&mut s, '(');
        let csv = self.to_csv();
        s.append(csv.as_str());
        push_char(&mut s, ',');
        push_char(&mut s, ' ');
        let alpha = a.to_text();
        s.append(alpha.as_str());
        push_char(&mut s, ')');
        assert(s@ =~= rgba_text(*self, a));
        s
    }
}

/// Formatting a colour as `#rrggbb` and parsing it back gives the same colour.
pub proof fn lemma_hex_round_trip(c: Color)
    ensures
        parse_hex(hex_text(c)) == Some(c),
{
    let s = hex_text(c);
    assert forall|x: u8| #[trigger] hex_value(hex_byte(x)[0]) == Some(x as nat / 16) && hex_value(
        hex_byte(x)[1],
    ) == Some(x as nat % 16) by {}
    assert(s.len() == 7);
    assert(s[0] == '#');
    assert(s.subrange(1, 3) =~= hex_byte(c.r));
    assert(s[1] == hex_byte(c.r)[0] && s[2] == hex_byte(c.r)[1]);
    assert(s[3] == hex_byte(c.g)[0] && s[4] == hex_byte(c.g)[1]);
    assert(s[5] == hex_byte(c.b)[0] && s[6] == hex_byte(c.b)[1]);
}

proof fn lemma_run_end_exact(s: Seq<char>, i: int, e: int)
    requires
        0 <= i <= e <= s.len(),
        forall|k: int| i <= k < e ==> is_digit(#[trigger] s[k]),
        e == s.len() || !is_digit(s[e]),
    ensures
        digit_run_end(s, i) == e,
    decreases e - i,
{
    if i < e {
        lemma_run_end_exact(s, i + 1, e);
    }
}

proof fn lemma_component_at(s: Seq<char>, i: int, d: Seq<char>)
    requires
        0 <= i,
        i + d.len() < s.len(),
        d.len() > 0,
        dec_value(d) <= 255,
        forall|k: int| 0 <= k < d.len() ==> is_digit(#[trigger] d[k]),
        s.subrange(i, i + d.len()) == d,
        !is_digit(s[i + d.len()]),
    ensures
        rgb_component(s, i) == Some((dec_value(d) as u8, i + d.len())),
{
    assert forall|k: int| i <= k < i + d.len() implies is_digit(#[trigger] s[k]) by {
        assert(s[k] == s.subrange(i, i + d.len())[k - i]);
    }
    lemma_run_end_exact(s, i, i + d.len());
}

/// Every `rgb(r, g, b)` literal whose channels are runs of decimal digits worth at
/// most 255 (leading zeros allowed) parses to exactly those three values.
pub proof fn lemma_rgb_literal_parses(d1: Seq<char>, d2: Seq<char>, d3: Seq<char>)
    requires
        d1.len() > 0 && d2.len() > 0 && d3.len() > 0,
        forall|k: int| 0 <= k < d1.len() ==> is_digit(#[trigger] d1[k]),
        forall|k: int| 0 <= k < d2.len() ==> is_digit(#[trigger] d2[k]),
        forall|k: int| 0 <= k < d3.len() ==> is_digit(#[trigger] d3[k]),
        dec_value(d1) <= 255 && dec_value(d2) <= 255 && dec_value(d3) <= 255,
    ensures
        parse_color(
            seq!['r', 'g', 'b', '('] + d1 + seq![',', ' '] + d2 + seq![',', ' '] + d3 + seq![')'],
        ) == Some(
            Color { r: dec_value(d1) as u8, g: dec_value(d2) as u8, b: dec_value(d3) as u8 },
        ),
{
    let s = seq!['r', 'g', 'b', '('] + d1 + seq![',', ' '] + d2 + seq![',', ' '] + d3 + seq![')'];
    let i: int = 4 + d1.len() as int;
    let j: int = i + 2 + d2.len();
    let k: int = j + 2 + d3.len();
    assert(s.len() == k + 1);
    assert(s.subrange(4, i) =~= d1);
    assert(s.subrange(i + 2, j) =~= d2);
    assert(s.subrange(j + 2, k) =~= d3);
    assert(s[i] == ',' && s[i + 1] == ' ');
    assert(s[j] == ',' && s[j + 1] == ' ');
    assert(s[k] == ')');
    assert(s[0] == 'r' && s[1] == 'g' && s[2] == 'b' && s[3] == '(');
    lemma_component_at(s, 4, d1);
    lemma_component_at(s, i + 2, d2);
    lemma_component_at(s, j + 2, d3);
    assert(parse_hex(s) is None);
}

proof fn lemma_dec_text(n: nat)
    ensures
        dec_text(n).len() > 0,
        forall|k: int| 0 <= k < dec_text(n).len() ==> is_digit(#[trigger] dec_text(n)[k]),
        dec_value(dec_text(n)) == n,
    decreases n,
{
    let d = n % 10;
    assert(digit_char(d) as nat == d + 48);
    if n >= 10 {
        lemma_dec_text(n / 10);
        assert(dec_text(n).drop_last() =~= dec_text(n / 10));
        assert(dec_text(n).last() == digit_char(d));
        assert(dec_value(dec_text(n)) == 10 * dec_value(dec_text(n / 10)) + d);
    } else {
        assert(dec_text(n).drop_last() =~= Seq::<char>::empty());
        assert(dec_text(n).last() == digit_char(d));
        assert(dec_value(dec_text(n)) == 10 * dec_value(Seq::<char>::empty()) + d);
    }
}

/// Formatting a colour as `rgb(r, g, b)` and parsing it back gives the same colour.
pub proof fn lemma_rgb_round_trip(c: Color)
    ensures
        parse_color(rgb_text(c)) == Some(c),
{
    let (dr, dg, db) = (dec_text(c.r as nat), dec_text(c.g as nat), dec_text(c.b as nat));
    lemma_dec_text(c.r as nat);
    lemma_dec_text(c.g as nat);
    lemma_dec_text(c.b as nat);
    assert(rgb_text(c) =~= seq!['r', 'g', 'b', '('] + dr + seq![',', ' '] + dg + seq![',', ' ']
        + db + seq![')']);
    lemma_rgb_literal_parses(dr, dg, db);
}

/// Text accepted as a colour starts with `#`, or is bracketed as `rgb(...)`, or is
/// one of the known names.
pub proof fn lemma_parse_needs_known_shape(s: Seq<char>)
    requires
        parse_color(s) is Some,
    ensures
        (s.len() > 0 && s[0] == '#') || (rgb_prefix(s) && s.last() == ')') || named_color(
            s,
        ) is Some,
{
}

} // verus!
