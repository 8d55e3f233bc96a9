//! Packing of an RGB colour into the low 24 bits of an `i32`, and its inverse.

use vstd::arithmetic::div_mod::{lemma_fundamental_div_mod_converse, lemma_mod_multiples_vanish};
use vstd::prelude::*;

verus! {

/// The 24-bit integer value of a colour: red in bits 16..24, green in
/// bits 8..16, blue in bits 0..8.
pub open spec fn rgb_value(r: u8, g: u8, b: u8) -> int {
    r * 0x10000 + g * 0x100 + b
}

/// The red byte of an encoded colour: bits 16..24 of its value modulo 2^24.
pub open spec fn red_component(v: int) -> int {
    (v % 0x1000000) / 0x10000
}

/// The green byte of an encoded colour: bits 8..16 of its value modulo 2^24.
pub open spec fn green_component(v: int) -> int {
    ((v % 0x1000000) / 0x100) % 0x100
}

/// The blue byte of an encoded colour: bits 0..8 of its value modulo 2^24.
pub open spec fn blue_component(v: int) -> int {
    (v % 0x1000000) % 0x100
}

/// Encode an RGB value.
pub fn encode_rgb(color: [u8; 3]) -> (c: i32)
    ensures
        c == rgb_value(color[0], color[1], color[2]),
{
    let c: i32 = (color[0] as i32) * 0x10000 + (color[1] as i32) * 0x100 + (color[2] as i32);
    c
}

/// Decode an RGB value. Only the low 24 bits of the input matter, so every
/// `i32` decodes to the byte triple of its value modulo 2^24.
pub fn decode_rgb(color: i32) -> (rgb: [u8; 3])
    ensures
        rgb[0] == red_component(color as int),
        rgb[1] == green_component(color as int),
        rgb[2] == blue_component(color as int),
{
    // Shift into the positive range before reducing modulo 2^24, so that the
    // reduction is the mathematical (Euclidean) one even for negative inputs.
    let shifted: u64 = ((color as i64) + 0x1_0000_0000i64) as u64;
    let v: u64 = shifted % 0x1000000;
    proof {
        lemma_mod_multiples_vanish(0x100, color as int, 0x1000000);
    }
    let r = (v / 0x10000) as u8;
    let g = ((v / 0x100) % 0x100) as u8;
    let b = (v % 0x100) as u8;
    [r, g, b]
}

/// Decoding inverts encoding: the byte components of `rgb_value(r, g, b)`
/// are exactly `r`, `g` and `b`.
pub proof fn lemma_rgb_round_trip(r: u8, g: u8, b: u8)
    ensures
        red_component(rgb_value(r, g, b)) == r,
        green_component(rgb_value(r, g, b)) == g,
        blue_component(rgb_value(r, g, b)) == b,
{
    let v = rgb_value(r, g, b);
    assert(v % 0x1000000 == v) by {
        lemma_fundamental_div_mod_converse(v, 0x1000000, 0, v);
    }
    lemma_fundamental_div_mod_converse(v, 0x10000, r as int, g * 0x100 + b);
    lemma_fundamental_div_mod_converse(v, 0x100, r * 0x100 + g, b as int);
    lemma_fundamental_div_mod_converse(r * 0x100 + g, 0x100, r as int, g as int);
}

} // verus!
