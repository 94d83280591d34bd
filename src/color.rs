use vstd::prelude::*;

verus! {

/// A color as four independent 8-bit channels.
#[derive(Clone, Copy, Debug, PartialEq, Eq, Structural)]
pub struct ColorChannel {
    pub red: u8,
    pub green: u8,
    pub blue: u8,
    pub alpha: u8,
}

/// The packed value of a color: red in the lowest byte, then green, then blue,
/// alpha in the highest byte.
pub open spec fn packed(c: ColorChannel) -> u32 {
    (c.red as int + 0x100 * c.green as int + 0x1_0000 * c.blue as int
        + 0x100_0000 * c.alpha as int) as u32
}

/// The byte of `v` that starts at bit `8 * k`.
pub open spec fn byte_of(v: u32, k: nat) -> u8 {
    ((v as int / pow256(k)) % 0x100) as u8
}

pub open spec fn pow256(k: nat) -> int
    decreases k,
{
    if k == 0 {
        1
    } else {
        0x100 * pow256((k - 1) as nat)
    }
}

/// The color whose channels are the four bytes of `v`.
pub open spec fn unpacked(v: u32) -> ColorChannel {
    ColorChannel {
        red: byte_of(v, 0),
        green: byte_of(v, 1),
        blue: byte_of(v, 2),
        alpha: byte_of(v, 3),
    }
}

/// Packs the four channels of `c` into one 32-bit value.
pub fn pack_color(c: ColorChannel) -> (r: u32)
    ensures
        r == packed(c),
{
    let (red, green, blue, alpha) = (c.red as u32, c.green as u32, c.blue as u32, c.alpha as u32);
    let r: u32 = (alpha << 24u32) | (blue << 16u32) | (green << 8u32) | red;
    assert(r == red + 0x100 * green + 0x1_0000 * blue + 0x100_0000 * alpha) by (bit_vector)
        requires
            red < 0x100,
            green < 0x100,
            blue < 0x100,
            alpha < 0x100,
            r == (alpha << 24u32) | (blue << 16u32) | (green << 8u32) | red,
    ;
    r
}

/// Splits a packed value into its four channels.
pub fn unpack_color(color: u32) -> (c: ColorChannel)
    ensures
        c == unpacked(color),
{
    let red: u32 = color & 0xff;
    let green: u32 = (color >> 8u32) & 0xff;
    let blue: u32 = (color >> 16u32) & 0xff;
    let alpha: u32 = (color >> 24u32) & 0xff;
    assert(red == color % 0x100 && green == (color / 0x100) % 0x100 && blue == (color
        / 0x1_0000) % 0x100 && alpha == (color / 0x100_0000) % 0x100) by (bit_vector)
        requires
            red == color & 0xff,
            green == (color >> 8u32) & 0xff,
            blue == (color >> 16u32) & 0xff,
            alpha == (color >> 24u32) & 0xff,
    ;
    proof {
        reveal_with_fuel(pow256, 4);
    }
    ColorChannel { red: red as u8, green: green as u8, blue: blue as u8, alpha: alpha as u8 }
}

/// Unpacking a packed color gives back every channel.
pub proof fn lemma_unpack_pack(c: ColorChannel)
    ensures
        unpacked(packed(c)) == c,
{
    reveal_with_fuel(pow256, 4);
    let (r, g, b, a) = (c.red as int, c.green as int, c.blue as int, c.alpha as int);
    let v = r + 0x100 * g + 0x1_0000 * b + 0x100_0000 * a;
    assert(v / 0x100 == g + 0x100 * b + 0x1_0000 * a) by (nonlinear_arith)
        requires v == r + 0x100 * g + 0x1_0000 * b + 0x100_0000 * a, 0 <= r < 0x100;
    assert(v / 0x1_0000 == b + 0x100 * a) by (nonlinear_arith)
        requires v == r + 0x100 * g + 0x1_0000 * b + 0x100_0000 * a, 0 <= r < 0x100, 0 <= g < 0x100;
    assert(v / 0x100_0000 == a) by (nonlinear_arith)
        requires v == r + 0x100 * g + 0x1_0000 * b + 0x100_0000 * a, 0 <= r < 0x100, 0 <= g < 0x100, 0 <= b < 0x100;
    assert(v % 0x100 == r) by (nonlinear_arith)
        requires v == r + 0x100 * g + 0x1_0000 * b + 0x100_0000 * a, 0 <= r < 0x100;
    assert((g + 0x100 * b + 0x1_0000 * a) % 0x100 == g) by (nonlinear_arith)
        requires 0 <= g < 0x100;
    assert((b + 0x100 * a) % 0x100 == b) by (nonlinear_arith)
        requires 0 <= b < 0x100;
    assert(a % 0x100 == a);
}

/// Packing the channels of any 32-bit value gives back that value.
pub proof fn lemma_pack_unpack(v: u32)
    ensures
        packed(unpacked(v)) == v,
{
    reveal_with_fuel(pow256, 4);
    let x = v as int;
    assert(x == x % 0x100 + 0x100 * ((x / 0x100) % 0x100) + 0x1_0000 * ((x / 0x1_0000) % 0x100)
        + 0x100_0000 * ((x / 0x100_0000) % 0x100)) by (nonlinear_arith)
        requires 0 <= x < 0x1_0000_0000;
}

} // verus!
