//! Colour engine: reading colour literals, the OKLCH value type at CSS
//! precision, and the nine-step tonal scales derived from a base colour.
use vstd::prelude::*;
use crate::text::{
    chars_of, decimal, decimal_chars, digit, digit_char, matches_at, occurs_at, pieces_view, push_all,
    push_str, split, split_chars, string_of, trim, trim_chars, is_space, is_space_char,
};

verus! {

/// Why a colour literal could not be read.
#[derive(Clone, Copy, Debug, PartialEq, Eq, Structural)]
pub enum ColorParseError {
    InvalidHex,
    InvalidComponent,
    UnsupportedFormat,
}

/// A colour in OKLCH at the precision CSS output uses: lightness in
/// hundredths of a percent, chroma in thousandths, hue in tenths of a degree.
#[derive(Clone, Copy, Debug, PartialEq, Eq, Structural)]
pub struct OklchColor {
    pub lightness: u32,
    pub chroma: u32,
    pub hue: u32,
}

impl OklchColor {
    /// Lightness lies in 0..=100% and hue in [0, 360) degrees.
    pub open spec fn wf(&self) -> bool {
        self.lightness <= 10000 && self.hue < 3600
    }
}

/// Target lightness of step `i` (0-based), in hundredths of a percent:
/// 95%, 85%, ..., 15%.
pub open spec fn ladder(i: int) -> u32 {
    (9500 - 1000 * i) as u32
}

/// Chroma factor of step `i` (0-based), in tenths: 0.1, 0.3, 0.5, then 1.0
/// for three steps, then 0.8, 0.6, 0.4.
pub open spec fn chroma_factor(i: int) -> nat {
    if i == 0 {
        1
    } else if i == 1 {
        3
    } else if i == 2 {
        5
    } else if i >= 6 {
        if 8 - 2 * (i - 6) >= 0 { (8 - 2 * (i - 6)) as nat } else { 0 }
    } else {
        10
    }
}

/// `chroma` scaled by the factor of step `i`, rounded to the nearest thousandth.
pub open spec fn scaled_chroma(chroma: u32, i: int) -> u32 {
    ((chroma * chroma_factor(i) + 5) / 10) as u32
}

/// Step `i` (0-based) of the scale of `base`.
pub open spec fn step_color(base: OklchColor, i: int) -> OklchColor {
    OklchColor { lightness: ladder(i), chroma: scaled_chroma(base.chroma, i), hue: base.hue }
}

/// Nine tones of one colour, from the lightest (1) to the darkest (9).
#[derive(Clone, Copy, Debug, PartialEq, Eq, Structural)]
pub struct ColorScale {
    pub scale_1: OklchColor,
    pub scale_2: OklchColor,
    pub scale_3: OklchColor,
    pub scale_4: OklchColor,
    pub scale_5: OklchColor,
    pub scale_6: OklchColor,
    pub scale_7: OklchColor,
    pub scale_8: OklchColor,
    pub scale_9: OklchColor,
}

impl ColorScale {
    /// The nine tones in order.
    pub open spec fn steps(&self) -> Seq<OklchColor> {
        seq![
            self.scale_1,
            self.scale_2,
            self.scale_3,
            self.scale_4,
            self.scale_5,
            self.scale_6,
            self.scale_7,
            self.scale_8,
            self.scale_9,
        ]
    }

    /// The achromatic fallback scale.
    pub fn grayscale() -> (r: ColorScale)
        ensures
            r == neutral_scale(),
    {
        generate_neutral_scale()
    }
}

/// The scale derived from `base`.
pub open spec fn scale_of(base: OklchColor) -> ColorScale {
    ColorScale {
        scale_1: step_color(base, 0),
        scale_2: step_color(base, 1),
        scale_3: step_color(base, 2),
        scale_4: step_color(base, 3),
        scale_5: step_color(base, 4),
        scale_6: step_color(base, 5),
        scale_7: step_color(base, 6),
        scale_8: step_color(base, 7),
        scale_9: step_color(base, 8),
    }
}

/// The achromatic scale: the same lightness ladder, chroma and hue zero.
pub open spec fn neutral_scale() -> ColorScale {
    scale_of(OklchColor { lightness: 0, chroma: 0, hue: 0 })
}

fn target_lightness(i: usize) -> (r: u32)
    requires
        i < 9,
    ensures
        r == ladder(i as int),
{
    9500 - 1000 * (i as u32)
}

fn factor_of(i: usize) -> (r: u64)
    requires
        i < 9,
    ensures
        r == chroma_factor(i as int),
        r <= 10,
{
    if i == 0 {
        1
    } else if i == 1 {
        3
    } else if i == 2 {
        5
    } else if i >= 6 {
        8 - 2 * (i as u64 - 6)
    } else {
        10
    }
}

fn step_of(base: OklchColor, i: usize) -> (r: OklchColor)
    requires
        i < 9,
    ensures
        r == step_color(base, i as int),
{
    let f = factor_of(i);
    proof {
        let x = base.chroma as int;
        assert(0 <= x <= u32::MAX && 0 <= f <= 10 ==> x * f <= 10 * u32::MAX && (x * f + 5) / 10 <= x)
            by (nonlinear_arith);
    }
    let c = (base.chroma as u64 * f + 5) / 10;
    OklchColor { lightness: target_lightness(i), chroma: c as u32, hue: base.hue }
}

/// The nine-step scale of `base`: fixed lightness ladder, chroma scaled per
/// step, hue kept.
pub fn generate_scale(base: OklchColor) -> (r: ColorScale)
    ensures
        r == scale_of(base),
        forall|i: int| 0 <= i < 9 ==> #[trigger] r.steps()[i] == step_color(base, i),
{
    let r = ColorScale {
        scale_1: step_of(base, 0),
        scale_2: step_of(base, 1),
        scale_3: step_of(base, 2),
        scale_4: step_of(base, 3),
        scale_5: step_of(base, 4),
        scale_6: step_of(base, 5),
        scale_7: step_of(base, 6),
        scale_8: step_of(base, 7),
        scale_9: step_of(base, 8),
    };
    assert forall|i: int| 0 <= i < 9 implies #[trigger] r.steps()[i] == step_color(base, i) by {
        if i == 0 {} else if i == 1 {} else if i == 2 {} else if i == 3 {} else if i == 4 {}
        else if i == 5 {} else if i == 6 {} else if i == 7 {} else {}
    }
    r
}

/// The fixed achromatic scale, the same on every call.
pub fn generate_neutral_scale() -> (r: ColorScale)
    ensures
        r == neutral_scale(),
        forall|i: int| 0 <= i < 9 ==> (#[trigger] r.steps()[i]).chroma == 0 && r.steps()[i].hue == 0
            && r.steps()[i].lightness == ladder(i),
{
    generate_scale(OklchColor { lightness: 0, chroma: 0, hue: 0 })
}

/// Every scale holds nine tones whose lightness never increases from one
/// step to the next and whose hue is that of the base colour.
pub proof fn lemma_scale_ordered(base: OklchColor)
    ensures
        scale_of(base).steps().len() == 9,
        forall|i: int, j: int|
            0 <= i <= j < 9 ==> (#[trigger] scale_of(base).steps()[i]).lightness >= (
            #[trigger] scale_of(base).steps()[j]).lightness,
        forall|i: int| 0 <= i < 9 ==> (#[trigger] scale_of(base).steps()[i]).hue == base.hue,
        base.wf() ==> forall|i: int| 0 <= i < 9 ==> (#[trigger] scale_of(base).steps()[i]).wf(),
{
    let s = scale_of(base).steps();
    assert forall|i: int| 0 <= i < 9 implies #[trigger] s[i] == step_color(base, i) by {
        if i == 0 {} else if i == 1 {} else if i == 2 {} else if i == 3 {} else if i == 4 {}
        else if i == 5 {} else if i == 6 {} else if i == 7 {} else {}
    }
}

/// The scale depends on the base colour's chroma and hue only: two bases
/// that differ in lightness alone give the same scale.
pub proof fn lemma_scale_ignores_lightness(a: OklchColor, b: OklchColor)
    requires
        a.chroma == b.chroma,
        a.hue == b.hue,
    ensures
        scale_of(a) == scale_of(b),
{
}

/// The six named tones kept for older themes.
#[derive(Clone, Copy, Debug, PartialEq, Eq, Structural)]
pub struct ColorVariations {
    pub weak: OklchColor,
    pub light: OklchColor,
    pub normal: OklchColor,
    pub intense: OklchColor,
    pub bright: OklchColor,
    pub strong: OklchColor,
}

/// The named tones taken from a scale: steps 2, 3, 5, 6, 4 and 7.
pub open spec fn variations_of(s: ColorScale) -> ColorVariations {
    ColorVariations {
        weak: s.scale_2,
        light: s.scale_3,
        normal: s.scale_5,
        intense: s.scale_6,
        bright: s.scale_4,
        strong: s.scale_7,
    }
}

// ---------------------------------------------------------------- text form

/// `10^n`.
pub open spec fn pow10(n: nat) -> nat
    decreases n,
{
    if n == 0 {
        1
    } else {
        10 * pow10((n - 1) as nat)
    }
}

/// The last `p` decimal digits of `v`, with leading zeros.
pub open spec fn padded(v: nat, p: nat) -> Seq<char>
    decreases p,
{
    if p == 0 {
        Seq::empty()
    } else {
        padded(v / 10, (p - 1) as nat).push(digit(v % 10))
    }
}

/// `v / 10^p` written with exactly `p` fraction digits.
pub open spec fn fixed(v: nat, p: nat) -> Seq<char> {
    decimal(v / pow10(p)) + seq!['.'] + padded(v % pow10(p), p)
}

/// The CSS text of a colour, e.g. `oklch(95.00% 0.018 22.8)`.
pub open spec fn css_text(c: OklchColor) -> Seq<char> {
    "oklch("@ + fixed(c.lightness as nat, 2) + seq!['%', ' '] + fixed(c.chroma as nat, 3) + seq![' ']
        + fixed(c.hue as nat, 1) + seq![')']
}

fn pow10_of(p: usize) -> (r: u64)
    requires
        p <= 3,
    ensures
        r == pow10(p as nat),
        r >= 1,
{
    reveal_with_fuel(pow10, 4);
    if p == 0 {
        1
    } else if p == 1 {
        10
    } else if p == 2 {
        100
    } else {
        1000
    }
}

fn padded_chars(v: u64, p: usize) -> (r: Vec<char>)
    ensures
        r@ == padded(v as nat, p as nat),
    decreases p,
{
    if p == 0 {
        Vec::new()
    } else {
        let mut r = padded_chars(v / 10, p - 1);
        r.push(digit_char((v % 10) as usize));
        r
    }
}

fn push_fixed(out: &mut Vec<char>, v: u32, p: usize)
    requires
        p <= 3,
    ensures
        final(out)@ == old(out)@ + fixed(v as nat, p as nat),
{
    let m = pow10_of(p);
    let whole = decimal_chars(((v as u64) / m) as usize);
    push_all(out, &whole);
    out.push('.');
    let frac = padded_chars((v as u64) % m, p);
    push_all(out, &frac);
    assert(out@ =~= old(out)@ + fixed(v as nat, p as nat));
}

impl OklchColor {
    /// The CSS text of the colour, e.g. `oklch(95.00% 0.018 22.8)`.
    pub fn to_css(&self) -> (r: String)
        ensures
            r@ == css_text(*self),
    {
        let mut out: Vec<char> = Vec::new();
        push_str(&mut out, "oklch(");
        push_fixed(&mut out, self.lightness, 2);
        out.push('%');
        out.push(' ');
        push_fixed(&mut out, self.chroma, 3);
        out.push(' ');
        push_fixed(&mut out, self.hue, 1);
        out.push(')');
        assert(out@ =~= css_text(*self));
        string_of(&out)
    }
}

// ---------------------------------------------------------------- parsing

/// A colour literal as written, read into plain values.
#[derive(Clone, Copy, Debug, PartialEq, Eq, Structural)]
pub enum RawColor {
    /// `#RRGGBB`.
    Hex { r: u8, g: u8, b: u8 },
    /// `rgb(r, g, b)` or `rgba(r, g, b, a)`, channels in 0..=255 rounded to
    /// whole numbers.
    Rgb { r: u8, g: u8, b: u8 },
    /// `hsl(h, s%, l%)` or `hsla(...)`: hue in tenths of a degree,
    /// saturation and lightness in tenths of a percent, each rounded half up.
    Hsl { hue: u32, saturation: u32, lightness: u32 },
    /// `oklch(L% C H)`.
    Oklch(OklchColor),
}

pub open spec fn is_digit(c: char) -> bool {
    '0' <= c && c <= '9'
}

pub open spec fn all_digits(s: Seq<char>) -> bool {
    forall|i: int| 0 <= i < s.len() ==> is_digit(#[trigger] s[i])
}

/// The value of decimal digit `c`.
pub open spec fn digit_value(c: char) -> nat {
    ((c as u32) - ('0' as u32)) as nat
}

/// The value of the decimal digits `s`.
pub open spec fn digits_val(s: Seq<char>) -> nat
    decreases s.len(),
{
    if s.len() == 0 {
        0
    } else {
        digits_val(s.drop_last()) * 10 + digit_value(s.last())
    }
}

/// The fraction digits `frac` scaled to `places` decimal places, rounding
/// half up on the first digit beyond them.
pub open spec fn frac_value(frac: Seq<char>, places: nat) -> nat {
    if frac.len() <= places {
        digits_val(frac) * pow10((places - frac.len()) as nat)
    } else {
        (digits_val(frac.take(places as int + 1)) + 5) / 10
    }
}

/// `s` read as a non-negative decimal number (digits, optionally a point
/// and more digits) below one million, scaled by `10^places` and rounded
/// half up to whole units.
pub open spec fn number_value(s: Seq<char>, places: nat) -> Option<nat> {
    let ps = split(s, '.');
    let whole = ps[0];
    let frac = if ps.len() == 2 { ps[1] } else { Seq::empty() };
    if ps.len() <= 2 && whole.len() + frac.len() >= 1 && all_digits(whole) && all_digits(frac)
        && digits_val(whole) < 1000000 {
        Some(digits_val(whole) * pow10(places) + frac_value(frac, places))
    } else {
        None
    }
}

/// `s` read as a percentage: a number followed by `%`.
pub open spec fn percent_value(s: Seq<char>, places: nat) -> Option<nat> {
    if s.len() >= 1 && s.last() == '%' {
        number_value(s.drop_last(), places)
    } else {
        None
    }
}

/// The value of hexadecimal digit `c`.
pub open spec fn hex_val(c: char) -> Option<nat> {
    if '0' <= c && c <= '9' {
        Some(((c as u32) - ('0' as u32)) as nat)
    } else if 'a' <= c && c <= 'f' {
        Some(((c as u32) - ('a' as u32) + 10) as nat)
    } else if 'A' <= c && c <= 'F' {
        Some(((c as u32) - ('A' as u32) + 10) as nat)
    } else {
        None
    }
}

/// The byte written by two hexadecimal digits.
pub open spec fn hex_byte(a: char, b: char) -> Option<u8> {
    match (hex_val(a), hex_val(b)) {
        (Some(x), Some(y)) => Some((x * 16 + y) as u8),
        _ => None,
    }
}

/// A `#RRGGBB` literal.
pub open spec fn hex_spec(s: Seq<char>) -> Result<RawColor, ColorParseError> {
    if s.len() == 7 && hex_byte(s[1], s[2]) is Some && hex_byte(s[3], s[4]) is Some && hex_byte(
        s[5],
        s[6],
    ) is Some {
        Ok(
            RawColor::Hex {
                r: hex_byte(s[1], s[2])->0,
                g: hex_byte(s[3], s[4])->0,
                b: hex_byte(s[5], s[6])->0,
            },
        )
    } else {
        Err(ColorParseError::InvalidHex)
    }
}

/// What lies between the prefix of length `n` and the closing `)`.
pub open spec fn inner(s: Seq<char>, n: int) -> Option<Seq<char>> {
    if s.len() >= n + 1 && s.last() == ')' {
        Some(s.subrange(n, s.len() - 1))
    } else {
        None
    }
}

/// The non-empty pieces of `ps`, in order.
pub open spec fn non_empty(ps: Seq<Seq<char>>) -> Seq<Seq<char>>
    decreases ps.len(),
{
    if ps.len() == 0 {
        Seq::empty()
    } else if ps.last().len() > 0 {
        non_empty(ps.drop_last()).push(ps.last())
    } else {
        non_empty(ps.drop_last())
    }
}

/// The parts of the argument list of an `rgb(...)` or `hsl(...)` literal.
pub open spec fn args_of(s: Seq<char>, n: int) -> Seq<Seq<char>> {
    split(inner(s, n)->0, ',')
}

/// The arguments are three components, optionally followed by an alpha.
pub open spec fn args_ok(s: Seq<char>, n: int) -> bool {
    inner(s, n) is Some && (args_of(s, n).len() == 3 || (args_of(s, n).len() == 4 && number_value(
        trim(args_of(s, n)[3]),
        3,
    ) is Some))
}

/// The channel written by `t`, an integer in 0..=255.
pub open spec fn channel(t: Seq<char>) -> Option<u8> {
    match number_value(trim(t), 0) {
        Some(v) => if v <= 255 { Some(v as u8) } else { None },
        None => None,
    }
}

/// An `rgb(...)` literal with a prefix of length `n`.
pub open spec fn rgb_spec(s: Seq<char>, n: int) -> Result<RawColor, ColorParseError> {
    let a = args_of(s, n);
    if args_ok(s, n) && channel(a[0]) is Some && channel(a[1]) is Some && channel(a[2]) is Some {
        Ok(RawColor::Rgb { r: channel(a[0])->0, g: channel(a[1])->0, b: channel(a[2])->0 })
    } else {
        Err(ColorParseError::InvalidComponent)
    }
}

/// The hue written by `t`, in tenths of a degree below 360.
pub open spec fn hue_tenths(t: Seq<char>) -> Option<u32> {
    match number_value(trim(t), 1) {
        Some(v) => if v < 3600 { Some(v as u32) } else { None },
        None => None,
    }
}

/// The percentage written by `t`, in tenths of a percent up to 100.
pub open spec fn percent_tenths(t: Seq<char>) -> Option<u32> {
    match percent_value(trim(t), 1) {
        Some(v) => if v <= 1000 { Some(v as u32) } else { None },
        None => None,
    }
}

/// An `hsl(...)` literal with a prefix of length `n`.
pub open spec fn hsl_spec(s: Seq<char>, n: int) -> Result<RawColor, ColorParseError> {
    let a = args_of(s, n);
    if args_ok(s, n) && hue_tenths(a[0]) is Some && percent_tenths(a[1]) is Some && percent_tenths(
        a[2],
    ) is Some {
        Ok(
            RawColor::Hsl {
                hue: hue_tenths(a[0])->0,
                saturation: percent_tenths(a[1])->0,
                lightness: percent_tenths(a[2])->0,
            },
        )
    } else {
        Err(ColorParseError::InvalidComponent)
    }
}

/// `s` with every whitespace character written as a space.
pub open spec fn blanked(s: Seq<char>) -> Seq<char> {
    s.map_values(|c: char| if is_space(c) { ' ' } else { c })
}

fn blank_chars(s: &Vec<char>) -> (r: Vec<char>)
    ensures
        r@ == blanked(s@),
{
    let mut r: Vec<char> = Vec::new();
    let mut i: usize = 0;
    while i < s.len()
        invariant
            i <= s.len(),
            r@ == blanked(s@.take(i as int)),
        decreases s.len() - i,
    {
        let c = if is_space_char(s[i]) { ' ' } else { s[i] };
        r.push(c);
        i += 1;
        assert(r@ =~= blanked(s@.take(i as int)));
    }
    assert(s@.take(i as int) =~= s@);
    r
}

/// The colour of an `oklch(L% C H)` literal, its words separated by any
/// whitespace: lightness up to 100%, chroma in thousandths, hue in tenths of
/// a degree taken modulo 360, each rounded half up.
pub open spec fn oklch_spec(s: Seq<char>) -> Option<OklchColor> {
    let n = "oklch("@.len() as int;
    let w = non_empty(split(blanked(inner(s, n)->0), ' '));
    if inner(s, n) is Some && w.len() == 3 && percent_value(w[0], 2) is Some && percent_value(w[0], 2)->0
        <= 10000 && number_value(w[1], 3) is Some && number_value(w[2], 1) is Some {
        Some(
            OklchColor {
                lightness: percent_value(w[0], 2)->0 as u32,
                chroma: number_value(w[1], 3)->0 as u32,
                hue: (number_value(w[2], 1)->0 % 3600) as u32,
            },
        )
    } else {
        None
    }
}

/// What a colour literal reads as.
pub open spec fn color_spec(s: Seq<char>) -> Result<RawColor, ColorParseError> {
    if s.len() > 0 && s[0] == '#' {
        hex_spec(s)
    } else if occurs_at(s, "oklch("@, 0) {
        match oklch_spec(s) {
            Some(c) => Ok(RawColor::Oklch(c)),
            None => Err(ColorParseError::InvalidComponent),
        }
    } else if occurs_at(s, "rgb("@, 0) {
        rgb_spec(s, "rgb("@.len() as int)
    } else if occurs_at(s, "rgba("@, 0) {
        rgb_spec(s, "rgba("@.len() as int)
    } else if occurs_at(s, "hsl("@, 0) {
        hsl_spec(s, "hsl("@.len() as int)
    } else if occurs_at(s, "hsla("@, 0) {
        hsl_spec(s, "hsla("@.len() as int)
    } else {
        Err(ColorParseError::UnsupportedFormat)
    }
}

proof fn lemma_pow10_small(i: nat)
    requires
        i <= 6,
    ensures
        1 <= pow10(i) <= 1000000,
        i <= 3 ==> pow10(i) <= 1000,
        i < 6 ==> pow10(i) <= 100000,
{
    reveal_with_fuel(pow10, 7);
    if i == 0 {} else if i == 1 {} else if i == 2 {} else if i == 3 {} else if i == 4 {} else if i == 5 {} else {}
}

/// The value of a run of at most six decimal digits, if all are digits.
fn digits_value(s: &Vec<char>) -> (r: Option<u64>)
    requires
        s@.len() <= 6,
    ensures
        r is Some <==> all_digits(s@),
        r is Some ==> r->0 == digits_val(s@) && r->0 < pow10(s@.len()),
{
    let mut v: u64 = 0;
    let mut i: usize = 0;
    while i < s.len()
        invariant
            i <= s.len() <= 6,
            v == digits_val(s@.take(i as int)),
            v < pow10(i as nat),
            forall|k: int| 0 <= k < i ==> is_digit(#[trigger] s@[k]),
        decreases s.len() - i,
    {
        let c = s[i];
        if !('0' <= c && c <= '9') {
            return None;
        }
        let d = (c as u32 - '0' as u32) as u64;
        proof {
            lemma_pow10_small(i as nat);
            lemma_pow10_small((i + 1) as nat);
            assert(s@.take(i + 1).drop_last() =~= s@.take(i as int));
            let p = pow10(i as nat);
            assert(v < p && d <= 9 ==> v * 10 + d < 10 * p) by (nonlinear_arith);
        }
        v = v * 10 + d;
        i += 1;
    }
    assert(s@.take(i as int) =~= s@);
    Some(v)
}

proof fn lemma_digits_prefix(s: Seq<char>, i: int)
    requires
        0 <= i <= s.len(),
    ensures
        digits_val(s.take(i)) <= digits_val(s),
    decreases s.len(),
{
    if i == s.len() {
        assert(s.take(i) =~= s);
    } else {
        lemma_digits_prefix(s.drop_last(), i);
        assert(s.drop_last().take(i) =~= s.take(i));
    }
}

fn all_digit_chars(s: &Vec<char>) -> (r: bool)
    ensures
        r == all_digits(s@),
{
    let mut i: usize = 0;
    while i < s.len()
        invariant
            i <= s.len(),
            forall|k: int| 0 <= k < i ==> is_digit(#[trigger] s@[k]),
        decreases s.len() - i,
    {
        if !('0' <= s[i] && s[i] <= '9') {
            return false;
        }
        i += 1;
    }
    true
}

/// The value of a run of decimal digits, when all are digits and the value
/// is below one million.
fn bounded_digits(s: &Vec<char>) -> (r: Option<u64>)
    ensures
        r is Some <==> all_digits(s@) && digits_val(s@) < 1000000,
        r is Some ==> r->0 == digits_val(s@),
{
    if !all_digit_chars(s) {
        return None;
    }
    let mut v: u64 = 0;
    let mut i: usize = 0;
    while i < s.len()
        invariant
            i <= s.len(),
            all_digits(s@),
            v == digits_val(s@.take(i as int)),
            v < 1000000,
        decreases s.len() - i,
    {
        let d = (s[i] as u32 - '0' as u32) as u64;
        assert(s@.take(i + 1).drop_last() =~= s@.take(i as int));
        assert(is_digit(s@[i as int]));
        let next = v * 10 + d;
        if next >= 1000000 {
            proof {
                lemma_digits_prefix(s@, i + 1);
            }
            return None;
        }
        v = next;
        i += 1;
    }
    assert(s@.take(i as int) =~= s@);
    Some(v)
}

/// Reads a non-negative decimal number below one million, scaled by
/// `10^places` and rounded half up.
pub fn number_of(s: &Vec<char>, places: usize) -> (r: Option<u64>)
    requires
        places <= 3,
    ensures
        r is Some <==> number_value(s@, places as nat) is Some,
        r is Some ==> r->0 == number_value(s@, places as nat)->0,
{
    let ps = split_chars(s, '.');
    let ghost pv = pieces_view(ps@);
    assert(pv[0] == ps@[0]@);
    if ps.len() > 2 {
        return None;
    }
    let empty: Vec<char> = Vec::new();
    let frac = if ps.len() == 2 { &ps[1] } else { &empty };
    assert(ps.len() == 2 ==> pv[1] == ps@[1]@);
    assert(frac@ == (if pv.len() == 2 { pv[1] } else { Seq::<char>::empty() }));
    if ps[0].len() == 0 && frac.len() == 0 {
        return None;
    }
    let w = match bounded_digits(&ps[0]) {
        Some(w) => w,
        None => { return None; },
    };
    if !all_digit_chars(frac) {
        return None;
    }
    let m = pow10_of(places);
    let f: u64;
    if frac.len() <= places {
        let d = match digits_value(frac) {
            Some(d) => d,
            None => { return None; },
        };
        let m2 = pow10_of(places - frac.len());
        proof {
            lemma_pow10_small(frac@.len());
            lemma_pow10_small((places - frac.len()) as nat);
            assert(d * m2 <= 1000 * 1000) by (nonlinear_arith)
                requires
                    d < 1000,
                    m2 <= 1000,
            ;
        }
        f = d * m2;
    } else {
        let head = slice_chars(frac, 0, places + 1);
        assert(head@ =~= frac@.take(places as int + 1));
        assert(all_digits(head@)) by {
            assert forall|k: int| 0 <= k < head@.len() implies is_digit(#[trigger] head@[k]) by {
                assert(head@[k] == frac@[k]);
            }
        }
        let d = match digits_value(&head) {
            Some(d) => d,
            None => { return None; },
        };
        proof {
            lemma_pow10_small(head@.len());
        }
        f = (d + 5) / 10;
    }
    proof {
        lemma_pow10_small(places as nat);
        assert(w * m <= 1000000 * 1000) by (nonlinear_arith)
            requires
                w < 1000000,
                m <= 1000,
        ;
    }
    Some(w * m + f)
}

fn hex_digit(c: char) -> (r: Option<u64>)
    ensures
        r is Some <==> hex_val(c) is Some,
        r is Some ==> r->0 == hex_val(c)->0 && r->0 < 16,
{
    if '0' <= c && c <= '9' {
        Some((c as u32 - '0' as u32) as u64)
    } else if 'a' <= c && c <= 'f' {
        Some((c as u32 - 'a' as u32 + 10) as u64)
    } else if 'A' <= c && c <= 'F' {
        Some((c as u32 - 'A' as u32 + 10) as u64)
    } else {
        None
    }
}

fn hex_pair(a: char, b: char) -> (r: Option<u8>)
    ensures
        r == hex_byte(a, b),
{
    match (hex_digit(a), hex_digit(b)) {
        (Some(x), Some(y)) => Some((x * 16 + y) as u8),
        _ => None,
    }
}

fn parse_hex(s: &Vec<char>) -> (r: Result<RawColor, ColorParseError>)
    ensures
        r == hex_spec(s@),
{
    if s.len() != 7 {
        return Err(ColorParseError::InvalidHex);
    }
    match (hex_pair(s[1], s[2]), hex_pair(s[3], s[4]), hex_pair(s[5], s[6])) {
        (Some(r), Some(g), Some(b)) => Ok(RawColor::Hex { r, g, b }),
        _ => Err(ColorParseError::InvalidHex),
    }
}

/// The characters of `s` from `a` up to `b`.
fn slice_chars(s: &Vec<char>, a: usize, b: usize) -> (r: Vec<char>)
    requires
        a <= b <= s.len(),
    ensures
        r@ == s@.subrange(a as int, b as int),
{
    let mut r: Vec<char> = Vec::new();
    let mut k: usize = a;
    while k < b
        invariant
            a <= k <= b <= s.len(),
            r@ == s@.subrange(a as int, k as int),
        decreases b - k,
    {
        r.push(s[k]);
        k += 1;
        assert(r@ =~= s@.subrange(a as int, k as int));
    }
    r
}

fn inner_chars(s: &Vec<char>, n: usize) -> (r: Option<Vec<char>>)
    ensures
        r is Some <==> inner(s@, n as int) is Some,
        r is Some ==> r->0@ == inner(s@, n as int)->0,
{
    if s.len() >= 1 && s.len() - 1 >= n && s[s.len() - 1] == ')' {
        Some(slice_chars(s, n, s.len() - 1))
    } else {
        None
    }
}

fn non_empty_pieces(ps: &Vec<Vec<char>>) -> (r: Vec<Vec<char>>)
    ensures
        pieces_view(r@) == non_empty(pieces_view(ps@)),
{
    let ghost pv = pieces_view(ps@);
    let mut r: Vec<Vec<char>> = Vec::new();
    let mut i: usize = 0;
    while i < ps.len()
        invariant
            i <= ps.len(),
            pv == pieces_view(ps@),
            pieces_view(r@) == non_empty(pv.take(i as int)),
        decreases ps.len() - i,
    {
        assert(pv.take(i + 1).drop_last() =~= pv.take(i as int));
        assert(pv[i as int] == ps@[i as int]@);
        if ps[i].len() > 0 {
            let ghost before = pieces_view(r@);
            r.push(ps[i].clone());
            assert(pieces_view(r@) =~= before.push(pv[i as int]));
        }
        i += 1;
    }
    assert(pv.take(i as int) =~= pv);
    r
}

fn percent_of(t: &Vec<char>, places: usize) -> (r: Option<u64>)
    requires
        places <= 3,
    ensures
        r is Some <==> percent_value(t@, places as nat) is Some,
        r is Some ==> r->0 == percent_value(t@, places as nat)->0,
{
    if t.len() >= 1 && t[t.len() - 1] == '%' {
        let body = slice_chars(t, 0, t.len() - 1);
        assert(body@ =~= t@.drop_last());
        number_of(&body, places)
    } else {
        None
    }
}

fn parse_oklch(s: &Vec<char>) -> (r: Option<OklchColor>)
    ensures
        r == oklch_spec(s@),
{
    let prefix = chars_of("oklch(");
    let body = match inner_chars(s, prefix.len()) {
        Some(b) => b,
        None => { return None; },
    };
    let words = non_empty_pieces(&split_chars(&blank_chars(&body), ' '));
    let ghost wv = pieces_view(words@);
    if words.len() != 3 {
        return None;
    }
    assert(wv[0] == words@[0]@ && wv[1] == words@[1]@ && wv[2] == words@[2]@);
    let l = match percent_of(&words[0], 2) {
        Some(l) => l,
        None => { return None; },
    };
    if l > 10000 {
        return None;
    }
    let c = match number_of(&words[1], 3) {
        Some(c) => c,
        None => { return None; },
    };
    let h = match number_of(&words[2], 1) {
        Some(h) => h,
        None => { return None; },
    };
    Some(OklchColor { lightness: l as u32, chroma: c as u32, hue: (h % 3600) as u32 })
}

fn args_chars(s: &Vec<char>, n: usize) -> (r: Option<Vec<Vec<char>>>)
    ensures
        r is Some <==> args_ok(s@, n as int),
        r is Some ==> pieces_view(r->0@) == args_of(s@, n as int),
{
    let body = match inner_chars(s, n) {
        Some(b) => b,
        None => { return None; },
    };
    let parts = split_chars(&body, ',');
    let ghost pv = pieces_view(parts@);
    if parts.len() == 3 {
        Some(parts)
    } else if parts.len() == 4 {
        assert(pv[3] == parts@[3]@);
        let a = trim_chars(&parts[3]);
        if number_of(&a, 3).is_some() {
            Some(parts)
        } else {
            None
        }
    } else {
        None
    }
}

fn channel_of(t: &Vec<char>) -> (r: Option<u8>)
    ensures
        r == channel(t@),
{
    let u = trim_chars(t);
    match number_of(&u, 0) {
        Some(v) => if v <= 255 { Some(v as u8) } else { None },
        None => None,
    }
}

fn parse_rgb(s: &Vec<char>, n: usize) -> (r: Result<RawColor, ColorParseError>)
    ensures
        r == rgb_spec(s@, n as int),
{
    let a = match args_chars(s, n) {
        Some(a) => a,
        None => { return Err(ColorParseError::InvalidComponent); },
    };
    let ghost av = pieces_view(a@);
    assert(av[0] == a@[0]@ && av[1] == a@[1]@ && av[2] == a@[2]@);
    match (channel_of(&a[0]), channel_of(&a[1]), channel_of(&a[2])) {
        (Some(r), Some(g), Some(b)) => Ok(RawColor::Rgb { r, g, b }),
        _ => Err(ColorParseError::InvalidComponent),
    }
}

fn hue_of(t: &Vec<char>) -> (r: Option<u32>)
    ensures
        r == hue_tenths(t@),
{
    let u = trim_chars(t);
    match number_of(&u, 1) {
        Some(v) => if v < 3600 { Some(v as u32) } else { None },
        None => None,
    }
}

fn percent_tenths_of(t: &Vec<char>) -> (r: Option<u32>)
    ensures
        r == percent_tenths(t@),
{
    let u = trim_chars(t);
    match percent_of(&u, 1) {
        Some(v) => if v <= 1000 { Some(v as u32) } else { None },
        None => None,
    }
}

fn parse_hsl(s: &Vec<char>, n: usize) -> (r: Result<RawColor, ColorParseError>)
    ensures
        r == hsl_spec(s@, n as int),
{
    let a = match args_chars(s, n) {
        Some(a) => a,
        None => { return Err(ColorParseError::InvalidComponent); },
    };
    let ghost av = pieces_view(a@);
    assert(av[0] == a@[0]@ && av[1] == a@[1]@ && av[2] == a@[2]@);
    match (hue_of(&a[0]), percent_tenths_of(&a[1]), percent_tenths_of(&a[2])) {
        (Some(h), Some(sat), Some(l)) => Ok(RawColor::Hsl { hue: h, saturation: sat, lightness: l }),
        _ => Err(ColorParseError::InvalidComponent),
    }
}

/// Reads a colour literal: `#RRGGBB`, `rgb(...)`/`rgba(...)`,
/// `hsl(...)`/`hsla(...)` or `oklch(...)`.
pub fn parse_color(color: &str) -> (r: Result<RawColor, ColorParseError>)
    ensures
        r == color_spec(color@),
{
    let s = chars_of(color);
    if s.len() > 0 && s[0] == '#' {
        return parse_hex(&s);
    }
    let oklch = chars_of("oklch(");
    if matches_at(&s, &oklch, 0) {
        return match parse_oklch(&s) {
            Some(c) => Ok(RawColor::Oklch(c)),
            None => Err(ColorParseError::InvalidComponent),
        };
    }
    let rgb = chars_of("rgb(");
    if matches_at(&s, &rgb, 0) {
        return parse_rgb(&s, rgb.len());
    }
    let rgba = chars_of("rgba(");
    if matches_at(&s, &rgba, 0) {
        return parse_rgb(&s, rgba.len());
    }
    let hsl = chars_of("hsl(");
    if matches_at(&s, &hsl, 0) {
        return parse_hsl(&s, hsl.len());
    }
    let hsla = chars_of("hsla(");
    if matches_at(&s, &hsla, 0) {
        return parse_hsl(&s, hsla.len());
    }
    Err(ColorParseError::UnsupportedFormat)
}

/// The scale an `oklch(...)` literal yields: that of its colour, or the
/// neutral scale when the text is not a readable OKLCH literal.
pub open spec fn literal_scale(s: Seq<char>) -> ColorScale {
    match color_spec(s) {
        Ok(RawColor::Oklch(c)) => scale_of(c),
        _ => neutral_scale(),
    }
}

/// The nine-step scale of an `oklch(...)` literal, falling back to the
/// neutral scale when the literal cannot be read.
pub fn generate_color_scale(oklch_color: &str) -> (r: ColorScale)
    ensures
        r == literal_scale(oklch_color@),
{
    match parse_color(oklch_color) {
        Ok(RawColor::Oklch(c)) => generate_scale(c),
        _ => generate_neutral_scale(),
    }
}

/// The six named tones of an `oklch(...)` literal's scale.
pub fn generate_variations(oklch_color: &str) -> (r: ColorVariations)
    ensures
        r == variations_of(literal_scale(oklch_color@)),
{
    let s = generate_color_scale(oklch_color);
    ColorVariations {
        weak: s.scale_2,
        light: s.scale_3,
        normal: s.scale_5,
        intense: s.scale_6,
        bright: s.scale_4,
        strong: s.scale_7,
    }
}

/// Every OKLCH colour read from a literal is well formed: lightness at most
/// 100% and hue below 360 degrees.
pub proof fn lemma_parsed_oklch_wf(s: Seq<char>)
    ensures
        color_spec(s) matches Ok(RawColor::Oklch(c)) ==> c.wf(),
{
}

} // verus!
