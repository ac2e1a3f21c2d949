//! The binary clock's readings: the time of day split into hours,
//! minutes and seconds, which LEDs are lit in the binary-coded-decimal
//! layout (one column per digit of HH:MM:SS) and in the pure binary
//! layout (one six-bit row per field), and the decimal readout. The LEDs
//! themselves are painted by the user interface.
use vstd::prelude::*;

use crate::text::push_char;

verus! {

/// Hours, minutes and seconds of the time of day `t` seconds after a
/// midnight (wrapping every 24 hours, also for negative `t`).
pub open spec fn spec_hms(t: int) -> (int, int, int) {
    let total = t % 86400;
    (total / 3600, (total % 3600) / 60, total % 60)
}

/// Hours, minutes and seconds of a whole number of seconds since
/// midnight.
pub fn hms(t: i64) -> (r: (u32, u32, u32))
    ensures
        (r.0 as int, r.1 as int, r.2 as int) == spec_hms(t as int),
        r.0 < 24 && r.1 < 60 && r.2 < 60,
{
    let mut total: i64 = t % 86400;
    if total < 0 {
        total = total + 86400;
    }
    assert(total == (t as int) % 86400);
    let h = (total / 3600) as u32;
    let m = ((total % 3600) / 60) as u32;
    let s = (total % 60) as u32;
    (h, m, s)
}

/// The BCD columns of a time: each digit of HH:MM:SS with the number of
/// bits shown for it (2 for the tens of hours, 3 for the other tens, 4
/// for units).
pub open spec fn spec_bcd_columns(h: u32, m: u32, s: u32) -> Seq<(u32, u32)> {
    seq![(h / 10, 2), (h % 10, 4), (m / 10, 3), (m % 10, 4), (s / 10, 3), (s % 10, 4)]
}

/// Bit `bit` of `value` is set.
pub open spec fn bit_set(value: u32, bit: u32) -> bool {
    (value >> bit) & 1u32 == 1u32
}

/// The LEDs of one column or row: entry `b` is lit when bit `b` of
/// `value` is set, for the `n` low bits.
pub open spec fn leds_of(leds: Seq<bool>, value: u32, n: u32) -> bool {
    &&& leds.len() == n
    &&& forall|b: int| 0 <= b < n ==> leds[b] == bit_set(value, b as u32)
}

/// The lit LEDs for the `n` low bits of `value`, lowest bit first.
fn bits_of(value: u32, n: u32) -> (r: Vec<bool>)
    requires
        n <= 32,
    ensures
        leds_of(r@, value, n),
{
    let mut r: Vec<bool> = Vec::new();
    let mut b: u32 = 0;
    while b < n
        invariant
            b <= n <= 32,
            r@.len() == b,
            forall|k: int| 0 <= k < b ==> r@[k] == bit_set(value, k as u32),
        decreases n - b,
    {
        r.push((value >> b) & 1 == 1);
        b = b + 1;
    }
    r
}

/// The BCD layout: for each digit column of HH:MM:SS, its lit LEDs,
/// lowest bit (the bottom row, worth 1) first.
pub fn bcd_leds(h: u32, m: u32, s: u32) -> (r: Vec<Vec<bool>>)
    ensures
        r@.len() == 6,
        forall|c: int|
            0 <= c < 6 ==> leds_of(
                #[trigger] r@[c]@,
                spec_bcd_columns(h, m, s)[c].0,
                spec_bcd_columns(h, m, s)[c].1,
            ),
{
    let mut r: Vec<Vec<bool>> = Vec::new();
    r.push(bits_of(h / 10, 2));
    r.push(bits_of(h % 10, 4));
    r.push(bits_of(m / 10, 3));
    r.push(bits_of(m % 10, 4));
    r.push(bits_of(s / 10, 3));
    r.push(bits_of(s % 10, 4));
    r
}

/// The pure binary layout: hours, minutes and seconds each as six bits,
/// lowest bit first (the rightmost LED of its row).
pub fn pure_leds(h: u32, m: u32, s: u32) -> (r: Vec<Vec<bool>>)
    ensures
        r@.len() == 3,
        leds_of(r@[0]@, h, 6),
        leds_of(r@[1]@, m, 6),
        leds_of(r@[2]@, s, 6),
{
    let mut r: Vec<Vec<bool>> = Vec::new();
    r.push(bits_of(h, 6));
    r.push(bits_of(m, 6));
    r.push(bits_of(s, 6));
    r
}

/// The two decimal digits of `v`.
pub open spec fn two_digits(v: u32) -> Seq<char> {
    seq![(('0' as u32) + v / 10) as char, (('0' as u32) + v % 10) as char]
}

/// The readout `HH:MM:SS`.
pub open spec fn spec_readout(h: u32, m: u32, s: u32) -> Seq<char> {
    two_digits(h) + seq![':'] + two_digits(m) + seq![':'] + two_digits(s)
}

/// The digit character for `d`.
fn digit_char(d: u32) -> (c: char)
    requires
        d < 10,
    ensures
        c == (('0' as u32) + d) as char,
{
    match d {
        0 => '0',
        1 => '1',
        2 => '2',
        3 => '3',
        4 => '4',
        5 => '5',
        6 => '6',
        7 => '7',
        8 => '8',
        _ => '9',
    }
}

/// The decimal readout under the LEDs, each field as two digits.
pub fn readout(h: u32, m: u32, s: u32) -> (r: String)
    requires
        h < 100 && m < 100 && s < 100,
    ensures
        r@ == spec_readout(h, m, s),
{
    let mut r = String::new();
    push_char(&mut r, digit_char(h / 10));
    push_char(&mut r, digit_char(h % 10));
    push_char(&mut r, ':');
    push_char(&mut r, digit_char(m / 10));
    push_char(&mut r, digit_char(m % 10));
    push_char(&mut r, ':');
    push_char(&mut r, digit_char(s / 10));
    push_char(&mut r, digit_char(s % 10));
    assert(r@ =~= spec_readout(h, m, s));
    r
}

} // verus!
