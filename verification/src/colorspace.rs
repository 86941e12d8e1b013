//! Colour conversions that are exact over fractions: the hexagonal
//! hue-saturation-value model, the two-stage rounding of a channel to eight
//! bits, and `#rrggbb` text.

use vstd::prelude::*;
use vstd::string::*;
use crate::ratio::{
    lemma_round_div_monotone, lemma_round_div_nearest, lemma_round_div_scale, round_div,
    round_div_i128, Ratio,
};

verus! {

/// The remainder of `a / b` that has the sign of `a`, for `b > 0`.
pub open spec fn trunc_rem(a: int, b: int) -> int {
    if a >= 0 {
        a % b
    } else {
        -((-a) % b)
    }
}

/// `x` held to the range of an eight-bit channel.
pub open spec fn saturate(x: int) -> int {
    if x < 0 {
        0
    } else if x > 255 {
        255
    } else {
        x
    }
}

/// The hue `hn / hd` of a full turn lies in one of six sectors of sixty
/// degrees; the last one also takes every hue of a full turn or more, the
/// first one every negative hue.
pub open spec fn hue_sector(hn: int, hd: int) -> int {
    if 6 * hn < hd {
        0
    } else if 6 * hn < 2 * hd {
        1
    } else if 6 * hn < 3 * hd {
        2
    } else if 6 * hn < 4 * hd {
        3
    } else if 6 * hn < 5 * hd {
        4
    } else {
        5
    }
}

/// How far the hue stands from the middle of its pair of sectors, as a
/// numerator over `hd`: `|(6h mod 2) - 1|` for `h = hn / hd`. The middle
/// channel loses this share of the chroma.
pub open spec fn hue_offset(hn: int, hd: int) -> int {
    let r = trunc_rem(6 * hn, 2 * hd) - hd;
    if r >= 0 {
        r
    } else {
        -r
    }
}

/// The eight-bit value of a channel that keeps all of the value
/// `v = vn / vd` but the share `kn / kd` of the chroma `v * s`, where
/// `s = sn / sd`: the integer nearest to `255 * v * (1 - s * kn / kd)`, held
/// to `0..=255`.
pub open spec fn channel_value(vn: int, vd: int, sn: int, sd: int, kn: int, kd: int) -> int {
    saturate(round_div(255 * (vn * (sd * kd - sn * kn)), vd * sd * kd))
}

/// The colour of hue `hn / hd` (as a share of a full turn), saturation
/// `sn / sd` and value `vn / vd` in the hexagonal model, each channel rounded
/// to eight bits. The strongest channel is the value `v`, the weakest
/// `v * (1 - s)`, and the third lies between them by the hue's place in its
/// sector.
pub open spec fn hsv_rgb(hn: int, hd: int, sn: int, sd: int, vn: int, vd: int) -> (u8, u8, u8) {
    let hi = channel_value(vn, vd, sn, sd, 0, hd) as u8;
    let lo = channel_value(vn, vd, sn, sd, hd, hd) as u8;
    let mid = channel_value(vn, vd, sn, sd, hue_offset(hn, hd), hd) as u8;
    let sector = hue_sector(hn, hd);
    if sector == 0 {
        (hi, mid, lo)
    } else if sector == 1 {
        (mid, hi, lo)
    } else if sector == 2 {
        (lo, hi, mid)
    } else if sector == 3 {
        (lo, mid, hi)
    } else if sector == 4 {
        (mid, lo, hi)
    } else {
        (hi, lo, mid)
    }
}

/// One channel of `hsv_to_rgb`.
fn channel(v: Ratio, s: Ratio, kn: i128, kd: i128) -> (c: u8)
    requires
        0 < kd < 0x1_0000_0000,
        0 <= kn <= 3 * kd,
    ensures
        c == channel_value(v.num(), v.den(), s.num(), s.den(), kn as int, kd as int),
{
    let vn: i128 = v.numerator() as i128;
    let vd: i128 = v.denominator() as i128;
    let sn: i128 = s.numerator() as i128;
    let sd: i128 = s.denominator() as i128;
    assert(0 < sd * kd < 0x1_0000_0000_0000_0000) by (nonlinear_arith)
        requires
            0 < sd < 0x1_0000_0000,
            0 < kd < 0x1_0000_0000,
    ;
    assert(-0x2_0000_0000_0000_0000 <= sn * kn <= 0x2_0000_0000_0000_0000) by (nonlinear_arith)
        requires
            -0x8000_0000 <= sn < 0x8000_0000,
            0 <= kn <= 0x4_0000_0000,
    ;
    let keep: i128 = sd * kd - sn * kn;
    assert(-0x2_0000_0000_0000_0000_0000_0000 <= vn * keep <= 0x2_0000_0000_0000_0000_0000_0000)
        by (nonlinear_arith)
        requires
            -0x8000_0000 <= vn < 0x8000_0000,
            -0x4_0000_0000_0000_0000 <= keep <= 0x4_0000_0000_0000_0000,
    ;
    let n: i128 = 255 * (vn * keep);
    assert(0 < vd * (sd * kd) < 0x1_0000_0000_0000_0000_0000_0000 && vd * (sd * kd) == vd * sd * kd)
        by (nonlinear_arith)
        requires
            0 < vd < 0x1_0000_0000,
            0 < sd * kd < 0x1_0000_0000_0000_0000,
    ;
    let d: i128 = vd * (sd * kd);
    let q: i128 = round_div_i128(n, d);
    if q < 0 {
        0
    } else if q > 255 {
        255
    } else {
        q as u8
    }
}

/// Converts a colour from hue, saturation and value to red, green and blue
/// in eight-bit channels. The hue is a share of a full turn, so that `1/3`
/// is green; saturation and value are shares of one.
pub fn hsv_to_rgb(h: Ratio, s: Ratio, v: Ratio) -> (rgb: (u8, u8, u8))
    ensures
        rgb == hsv_rgb(h.num(), h.den(), s.num(), s.den(), v.num(), v.den()),
{
    let hn: i128 = h.numerator() as i128;
    let hd: i128 = h.denominator() as i128;
    let turn: i128 = 6 * hn;
    let rem: i128 = if turn >= 0 {
        turn % (2 * hd)
    } else {
        -((-turn) % (2 * hd))
    };
    let r: i128 = rem - hd;
    let offset: i128 = if r >= 0 {
        r
    } else {
        -r
    };
    let hi = channel(v, s, 0, hd);
    let lo = channel(v, s, hd, hd);
    let mid = channel(v, s, offset, hd);
    if turn < hd {
        (hi, mid, lo)
    } else if turn < 2 * hd {
        (mid, hi, lo)
    } else if turn < 3 * hd {
        (lo, hi, mid)
    } else if turn < 4 * hd {
        (lo, mid, hi)
    } else if turn < 5 * hd {
        (mid, lo, hi)
    } else {
        (hi, lo, mid)
    }
}

/// The eight-bit value of the fraction `vn / vd` of full intensity: the
/// integer nearest to `255 * vn / vd`, held to `0..=255`.
pub open spec fn value_byte(vn: int, vd: int) -> int {
    saturate(round_div(255 * vn, vd))
}

/// A channel that loses none of the chroma is the value itself, whatever the
/// saturation.
pub proof fn lemma_strongest_channel(vn: int, vd: int, sn: int, sd: int, kd: int)
    requires
        vd > 0,
        sd > 0,
        kd > 0,
    ensures
        channel_value(vn, vd, sn, sd, 0, kd) == value_byte(vn, vd),
{
    let m = sd * kd;
    assert(m > 0) by (nonlinear_arith)
        requires
            sd > 0,
            kd > 0,
            m == sd * kd,
    ;
    assert(255 * (vn * (sd * kd - sn * 0)) == (255 * vn) * m) by (nonlinear_arith)
        requires
            m == sd * kd,
    ;
    assert(vd * sd * kd == vd * m) by (nonlinear_arith)
        requires
            m == sd * kd,
    ;
    lemma_round_div_scale(255 * vn, vd, m);
}

/// A channel of a colour without saturation is the value, whatever share of
/// the chroma it loses.
pub proof fn lemma_unsaturated_channel(vn: int, vd: int, sd: int, kn: int, kd: int)
    requires
        vd > 0,
        sd > 0,
        kd > 0,
    ensures
        channel_value(vn, vd, 0, sd, kn, kd) == value_byte(vn, vd),
{
    assert(0 * kn == 0 * 0) by (nonlinear_arith);
    lemma_strongest_channel(vn, vd, 0, sd, kd);
}

/// Without saturation the colour is a grey of the value, whatever the hue.
pub proof fn lemma_hsv_grey(hn: int, hd: int, sd: int, vn: int, vd: int)
    requires
        hd > 0,
        sd > 0,
        vd > 0,
    ensures
        hsv_rgb(hn, hd, 0, sd, vn, vd) == (
            value_byte(vn, vd) as u8,
            value_byte(vn, vd) as u8,
            value_byte(vn, vd) as u8,
        ),
{
    lemma_unsaturated_channel(vn, vd, sd, 0, hd);
    lemma_unsaturated_channel(vn, vd, sd, hd, hd);
    lemma_unsaturated_channel(vn, vd, sd, hue_offset(hn, hd), hd);
}

/// A value of zero gives black, whatever the hue and the saturation.
pub proof fn lemma_hsv_black(hn: int, hd: int, sn: int, sd: int, vd: int)
    requires
        hd > 0,
        sd > 0,
        vd > 0,
    ensures
        hsv_rgb(hn, hd, sn, sd, 0, vd) == (0u8, 0u8, 0u8),
{
    assert forall|kn: int| channel_value(0, vd, sn, sd, kn, hd) == 0 by {
        let d = vd * sd * hd;
        assert(d > 0) by (nonlinear_arith)
            requires
                vd > 0,
                sd > 0,
                hd > 0,
                d == vd * sd * hd,
        ;
        assert(255 * (0 * (sd * hd - sn * kn)) == 0) by (nonlinear_arith);
        lemma_round_div_nearest(0, d);
    }
}

/// A hue of a full turn gives the colour of a hue of zero.
pub proof fn lemma_hsv_full_turn(hd: int, sn: int, sd: int, vn: int, vd: int)
    requires
        hd > 0,
    ensures
        hsv_rgb(hd, hd, sn, sd, vn, vd) == hsv_rgb(0, hd, sn, sd, vn, vd),
{
    assert((6 * hd) % (2 * hd) == 0) by (nonlinear_arith)
        requires
            hd > 0,
    ;
    assert(0int % (2 * hd) == 0) by (nonlinear_arith)
        requires
            hd > 0,
    ;
    assert(hue_offset(hd, hd) == hd);
    assert(hue_offset(0, hd) == hd);
}

/// For a hue within one turn and saturation and value within one, the three
/// channels lie between the weakest, `v * (1 - s)`, and the strongest, `v`,
/// and the colour has a channel at each end.
pub proof fn lemma_hsv_channel_order(hn: int, hd: int, sn: int, sd: int, vn: int, vd: int)
    requires
        0 <= hn <= hd,
        0 <= sn <= sd,
        0 <= vn <= vd,
        hd > 0,
        sd > 0,
        vd > 0,
    ensures
        ({
            let rgb = hsv_rgb(hn, hd, sn, sd, vn, vd);
            let hi = value_byte(vn, vd);
            let lo = channel_value(vn, vd, sn, sd, hd, hd);
            &&& 0 <= lo <= hi <= 255
            &&& lo <= rgb.0 <= hi
            &&& lo <= rgb.1 <= hi
            &&& lo <= rgb.2 <= hi
            &&& rgb.0 == hi || rgb.1 == hi || rgb.2 == hi
            &&& rgb.0 == lo || rgb.1 == lo || rgb.2 == lo
        }),
{
    let k = hue_offset(hn, hd);
    assert(0 <= (6 * hn) % (2 * hd) < 2 * hd) by (nonlinear_arith)
        requires
            hd > 0,
    ;
    assert(0 <= k <= hd);
    let d = vd * sd * hd;
    assert(d > 0) by (nonlinear_arith)
        requires
            vd > 0,
            sd > 0,
            hd > 0,
            d == vd * sd * hd,
    ;
    let top = 255 * (vn * (sd * hd - sn * 0));
    let mid = 255 * (vn * (sd * hd - sn * k));
    let bottom = 255 * (vn * (sd * hd - sn * hd));
    assert(0 <= bottom <= mid <= top) by (nonlinear_arith)
        requires
            0 <= k <= hd,
            0 <= sn <= sd,
            0 <= vn,
            top == 255 * (vn * (sd * hd - sn * 0)),
            mid == 255 * (vn * (sd * hd - sn * k)),
            bottom == 255 * (vn * (sd * hd - sn * hd)),
    ;
    lemma_round_div_monotone(bottom, mid, d);
    lemma_round_div_monotone(mid, top, d);
    lemma_round_div_nearest(bottom, d);
    lemma_strongest_channel(vn, vd, sn, sd, hd);
    lemma_round_div_monotone(255 * vn, 255 * vd, vd);
    assert(round_div(255 * vd, vd) == 255) by {
        vstd::arithmetic::div_mod::lemma_fundamental_div_mod_converse(
            2 * (255 * vd) + vd,
            2 * vd,
            255,
            vd,
        );
    }
}

/// The eight-bit value of the channel `n / d`, by the two-stage rounding that
/// hex text is made with: the channel is rounded to thousandths, held to
/// `0..=1`, scaled by 255 and rounded again. Both roundings send halves away
/// from zero.
pub open spec fn clamp_value(n: int, d: int) -> int {
    let t = round_div(1000 * n, d);
    let held = if t < 0 {
        0
    } else if t > 1000 {
        1000
    } else {
        t
    };
    round_div(255 * held, 1000)
}

/// Quantises one channel to eight bits.
pub fn clamp(v: Ratio) -> (c: u8)
    ensures
        c == clamp_value(v.num(), v.den()),
{
    let t: i64 = v.round_scaled(1000);
    let held: i128 = if t < 0 {
        0
    } else if t > 1000 {
        1000
    } else {
        t as i128
    };
    let q: i128 = round_div_i128(255 * held, 1000);
    assert(0 <= (2 * (255 * held) + 1000) / 2000int <= 255);
    q as u8
}

/// Quantises the three channels of a colour to eight bits each.
pub fn rgb_prepare(rgb: (Ratio, Ratio, Ratio)) -> (bytes: (u8, u8, u8))
    ensures
        bytes.0 == clamp_value(rgb.0.num(), rgb.0.den()),
        bytes.1 == clamp_value(rgb.1.num(), rgb.1.den()),
        bytes.2 == clamp_value(rgb.2.num(), rgb.2.den()),
{
    (clamp(rgb.0), clamp(rgb.1), clamp(rgb.2))
}

/// The lower-case hex digit for `d` in `0..16`.
pub open spec fn hex_digit(d: int) -> char {
    seq!['0', '1', '2', '3', '4', '5', '6', '7', '8', '9', 'a', 'b', 'c', 'd', 'e', 'f'][d]
}

/// The text `#rrggbb` of a colour in eight-bit channels.
pub open spec fn hex_text(r: u8, g: u8, b: u8) -> Seq<char> {
    seq![
        '#',
        hex_digit(r as int / 16),
        hex_digit(r as int % 16),
        hex_digit(g as int / 16),
        hex_digit(g as int % 16),
        hex_digit(b as int / 16),
        hex_digit(b as int % 16),
    ]
}

/// The hex text of a colour given by its channels as fractions.
pub open spec fn rgb_hex(rn: int, rd: int, gn: int, gd: int, bn: int, bd: int) -> Seq<char> {
    hex_text(clamp_value(rn, rd) as u8, clamp_value(gn, gd) as u8, clamp_value(bn, bd) as u8)
}

/// The text of one hex digit.
fn digit_str(d: u8) -> (s: &'static str)
    requires
        d < 16,
    ensures
        s@ == seq![hex_digit(d as int)],
{
    proof {
        reveal_strlit("0");
        reveal_strlit("1");
        reveal_strlit("2");
        reveal_strlit("3");
        reveal_strlit("4");
        reveal_strlit("5");
        reveal_strlit("6");
        reveal_strlit("7");
        reveal_strlit("8");
        reveal_strlit("9");
        reveal_strlit("a");
        reveal_strlit("b");
        reveal_strlit("c");
        reveal_strlit("d");
        reveal_strlit("e");
        reveal_strlit("f");
    }
    let s = match d {
        0 => "0",
        1 => "1",
        2 => "2",
        3 => "3",
        4 => "4",
        5 => "5",
        6 => "6",
        7 => "7",
        8 => "8",
        9 => "9",
        10 => "a",
        11 => "b",
        12 => "c",
        13 => "d",
        14 => "e",
        _ => "f",
    };
    assert(s@ =~= seq![hex_digit(d as int)]);
    s
}

/// Appends the two hex digits of a byte.
fn push_byte(text: &mut String, byte: u8)
    ensures
        final(text)@ == old(text)@ + seq![hex_digit(byte as int / 16), hex_digit(byte as int % 16)],
{
    text.append(digit_str(byte / 16));
    text.append(digit_str(byte % 16));
    assert(text@ =~= old(text)@ + seq![
        hex_digit(byte as int / 16),
        hex_digit(byte as int % 16),
    ]);
}

/// Formats a colour as `#rrggbb` in lower-case hex digits, each channel
/// quantised as `clamp` does.
pub fn rgb_to_hex(rgb: (Ratio, Ratio, Ratio)) -> (text: String)
    ensures
        text@ == rgb_hex(
            rgb.0.num(),
            rgb.0.den(),
            rgb.1.num(),
            rgb.1.den(),
            rgb.2.num(),
            rgb.2.den(),
        ),
{
    let (r, g, b) = rgb_prepare(rgb);
    let mut text = String::new();
    proof {
        reveal_strlit("#");
    }
    text.append("#");
    push_byte(&mut text, r);
    push_byte(&mut text, g);
    push_byte(&mut text, b);
    assert(text@ =~= hex_text(r, g, b));
    text
}

/// The value of a hex digit of either case; no other character has one.
pub open spec fn digit_value(c: char) -> Option<int> {
    if '0' <= c && c <= '9' {
        Some(c as int - '0' as int)
    } else if 'a' <= c && c <= 'f' {
        Some(c as int - 'a' as int + 10)
    } else if 'A' <= c && c <= 'F' {
        Some(c as int - 'A' as int + 10)
    } else {
        None
    }
}

/// A text without its leading `#`, if it has one.
pub open spec fn hex_body(s: Seq<char>) -> Seq<char> {
    if s.len() > 0 && s[0] == '#' {
        s.skip(1)
    } else {
        s
    }
}

/// Whether a text names a colour: exactly six hex digits, after at most one
/// leading `#`.
pub open spec fn is_hex_color(s: Seq<char>) -> bool {
    let body = hex_body(s);
    &&& body.len() == 6
    &&& digit_value(body[0]) is Some
    &&& digit_value(body[1]) is Some
    &&& digit_value(body[2]) is Some
    &&& digit_value(body[3]) is Some
    &&& digit_value(body[4]) is Some
    &&& digit_value(body[5]) is Some
}

/// The byte that two hex digits spell.
pub open spec fn hex_pair(hi: char, lo: char) -> u8 {
    (16 * digit_value(hi)->0 + digit_value(lo)->0) as u8
}

/// The channels that a text names, and `None` for a text that names no
/// colour.
pub open spec fn parsed(s: Seq<char>) -> Option<(u8, u8, u8)> {
    let body = hex_body(s);
    if is_hex_color(s) {
        Some((hex_pair(body[0], body[1]), hex_pair(body[2], body[3]), hex_pair(body[4], body[5])))
    } else {
        None
    }
}

/// The numerators, over 255, of the colour that `hex_to_rgb` gives for a
/// text: the named channels, or black for a text that names no colour.
pub open spec fn hex_rgb(s: Seq<char>) -> (int, int, int) {
    match parsed(s) {
        Some(c) => (c.0 as int, c.1 as int, c.2 as int),
        None => (0, 0, 0),
    }
}

/// The value of one hex digit.
fn hex_val(c: char) -> (r: Option<u8>)
    ensures
        r is Some <==> digit_value(c) is Some,
        r matches Some(d) ==> digit_value(c) == Some(d as int) && d < 16,
{
    if '0' <= c && c <= '9' {
        Some((c as u32 - '0' as u32) as u8)
    } else if 'a' <= c && c <= 'f' {
        Some((c as u32 - 'a' as u32 + 10) as u8)
    } else if 'A' <= c && c <= 'F' {
        Some((c as u32 - 'A' as u32 + 10) as u8)
    } else {
        None
    }
}

/// Reads the two hex digits at `at` and `at + 1` as a byte.
fn pair_at(text: &str, at: usize) -> (r: Option<u8>)
    requires
        at + 1 < text@.len(),
        at < usize::MAX,
    ensures
        r is Some <==> digit_value(text@[at as int]) is Some && digit_value(text@[at + 1]) is Some,
        r matches Some(byte) ==> byte == hex_pair(text@[at as int], text@[at + 1]),
{
    match (hex_val(text.get_char(at)), hex_val(text.get_char(at + 1))) {
        (Some(hi), Some(lo)) => Some(16 * hi + lo),
        _ => None,
    }
}

/// Reads a colour from hex text: six hex digits of either case, with or
/// without one leading `#`. Any other text names no colour.
pub fn parse_hex(raw_hex: &str) -> (channels: Option<(u8, u8, u8)>)
    ensures
        channels == parsed(raw_hex@),
{
    let len = raw_hex.unicode_len();
    let start: usize = if len > 0 && raw_hex.get_char(0) == '#' {
        1
    } else {
        0
    };
    if len - start != 6 {
        return None;
    }
    let ghost body = hex_body(raw_hex@);
    assert(forall|i: int| 0 <= i < 6 ==> body[i] == raw_hex@[start + i]);
    match (pair_at(raw_hex, start), pair_at(raw_hex, start + 2), pair_at(raw_hex, start + 4)) {
        (Some(r), Some(g), Some(b)) => Some((r, g, b)),
        _ => None,
    }
}

/// Reads a colour from hex text, as channels over 255. A text that names no
/// colour gives black.
pub fn hex_to_rgb(raw_hex: &str) -> (rgb: (Ratio, Ratio, Ratio))
    ensures
        rgb.0.num() == hex_rgb(raw_hex@).0,
        rgb.1.num() == hex_rgb(raw_hex@).1,
        rgb.2.num() == hex_rgb(raw_hex@).2,
        rgb.0.den() == 255 && rgb.1.den() == 255 && rgb.2.den() == 255,
{
    match parse_hex(raw_hex) {
        Some((r, g, b)) => (Ratio::from_byte(r), Ratio::from_byte(g), Ratio::from_byte(b)),
        None => (Ratio::from_byte(0), Ratio::from_byte(0), Ratio::from_byte(0)),
    }
}

/// Whether a character is a hex digit in the case that `rgb_to_hex` writes.
pub open spec fn is_lower_hex(c: char) -> bool {
    ('0' <= c && c <= '9') || ('a' <= c && c <= 'f')
}

/// Whether a text has the form that `rgb_to_hex` writes: `#` and six
/// lower-case hex digits.
pub open spec fn is_canonical(s: Seq<char>) -> bool {
    &&& s.len() == 7
    &&& s[0] == '#'
    &&& is_lower_hex(s[1])
    &&& is_lower_hex(s[2])
    &&& is_lower_hex(s[3])
    &&& is_lower_hex(s[4])
    &&& is_lower_hex(s[5])
    &&& is_lower_hex(s[6])
}

/// Each digit that is written reads back as its value.
pub proof fn lemma_digit_reads_back(d: int)
    requires
        0 <= d < 16,
    ensures
        is_lower_hex(hex_digit(d)),
        digit_value(hex_digit(d)) == Some(d),
{
    if d == 0 {
    } else if d == 1 {
    } else if d == 2 {
    } else if d == 3 {
    } else if d == 4 {
    } else if d == 5 {
    } else if d == 6 {
    } else if d == 7 {
    } else if d == 8 {
    } else if d == 9 {
    } else if d == 10 {
    } else if d == 11 {
    } else if d == 12 {
    } else if d == 13 {
    } else if d == 14 {
    } else {
    }
}

/// Each lower-case hex digit is written back as itself.
pub proof fn lemma_digit_writes_back(c: char)
    requires
        is_lower_hex(c),
    ensures
        digit_value(c) is Some,
        0 <= digit_value(c)->0 < 16,
        hex_digit(digit_value(c)->0) == c,
{
    let d = digit_value(c)->0;
    lemma_digit_reads_back(d);
    if d == 0 {
    } else if d == 1 {
    } else if d == 2 {
    } else if d == 3 {
    } else if d == 4 {
    } else if d == 5 {
    } else if d == 6 {
    } else if d == 7 {
    } else if d == 8 {
    } else if d == 9 {
    } else if d == 10 {
    } else if d == 11 {
    } else if d == 12 {
    } else if d == 13 {
    } else if d == 14 {
    } else {
    }
}

/// An eight-bit channel survives the two-stage rounding: taken as a share
/// of 255, rounded to thousandths, scaled back and rounded again, it is the
/// same byte.
pub proof fn lemma_clamp_keeps_byte(byte: u8)
    ensures
        clamp_value(byte as int, 255) == byte,
{
    let t = (2000 * byte + 255) / 510;
    assert(round_div(1000 * byte, 255) == t);
    assert(0 <= t <= 1000);
    assert(round_div(255 * t, 1000) == (510 * t + 1000) / 2000);
    assert((510 * t + 1000) / 2000 == byte);
}

/// The text written for three bytes is canonical and reads back as the same
/// three bytes.
pub proof fn lemma_text_reads_back(r: u8, g: u8, b: u8)
    ensures
        is_canonical(hex_text(r, g, b)),
        parsed(hex_text(r, g, b)) == Some((r, g, b)),
{
    let text = hex_text(r, g, b);
    lemma_digit_reads_back(r as int / 16);
    lemma_digit_reads_back(r as int % 16);
    lemma_digit_reads_back(g as int / 16);
    lemma_digit_reads_back(g as int % 16);
    lemma_digit_reads_back(b as int / 16);
    lemma_digit_reads_back(b as int % 16);
    assert(hex_body(text) =~= text.skip(1));
}

/// The byte that two lower-case hex digits spell is written as those two
/// digits.
pub proof fn lemma_pair_writes_back(hi: char, lo: char)
    requires
        is_lower_hex(hi),
        is_lower_hex(lo),
    ensures
        hex_digit(hex_pair(hi, lo) as int / 16) == hi,
        hex_digit(hex_pair(hi, lo) as int % 16) == lo,
{
    lemma_digit_writes_back(hi);
    lemma_digit_writes_back(lo);
    let h = digit_value(hi)->0;
    let l = digit_value(lo)->0;
    assert((16 * h + l) / 16 == h && (16 * h + l) % 16 == l);
}

/// Hex text to colour and back to hex text is the identity on every
/// canonical text, that is on `#` followed by six lower-case hex digits.
pub proof fn lemma_hex_round_trip(s: Seq<char>)
    requires
        is_canonical(s),
    ensures
        parsed(s) is Some,
        rgb_hex(hex_rgb(s).0, 255, hex_rgb(s).1, 255, hex_rgb(s).2, 255) == s,
{
    let body = hex_body(s);
    assert(body =~= s.skip(1));
    lemma_digit_writes_back(s[1]);
    lemma_digit_writes_back(s[2]);
    lemma_digit_writes_back(s[3]);
    lemma_digit_writes_back(s[4]);
    lemma_digit_writes_back(s[5]);
    lemma_digit_writes_back(s[6]);
    assert(is_hex_color(s));
    let c = parsed(s)->0;
    assert(c.0 == hex_pair(s[1], s[2]));
    assert(c.1 == hex_pair(s[3], s[4]));
    assert(c.2 == hex_pair(s[5], s[6]));
    lemma_pair_writes_back(s[1], s[2]);
    lemma_pair_writes_back(s[3], s[4]);
    lemma_pair_writes_back(s[5], s[6]);
    lemma_clamp_keeps_byte(c.0);
    lemma_clamp_keeps_byte(c.1);
    lemma_clamp_keeps_byte(c.2);
    assert(hex_text(c.0, c.1, c.2) =~= s);
}

/// Whatever text names a colour, of either case and with or without `#`,
/// hex text to colour to hex text gives the canonical text of the same
/// colour, and a second pass changes nothing.
pub proof fn lemma_hex_idempotent(s: Seq<char>)
    requires
        is_hex_color(s),
    ensures
        ({
            let once = rgb_hex(hex_rgb(s).0, 255, hex_rgb(s).1, 255, hex_rgb(s).2, 255);
            &&& is_canonical(once)
            &&& parsed(once) == parsed(s)
            &&& rgb_hex(hex_rgb(once).0, 255, hex_rgb(once).1, 255, hex_rgb(once).2, 255) == once
        }),
{
    let c = parsed(s)->0;
    lemma_clamp_keeps_byte(c.0);
    lemma_clamp_keeps_byte(c.1);
    lemma_clamp_keeps_byte(c.2);
    lemma_text_reads_back(c.0, c.1, c.2);
    lemma_hex_round_trip(hex_text(c.0, c.1, c.2));
}

} // verus!
