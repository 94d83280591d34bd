use vstd::prelude::*;

use crate::color::{unpack_color, unpacked};
use crate::framebuffer::Framebuffer;

verus! {

/// The decimal digits of `n` in ASCII, most significant first, without leading
/// zeros.
pub open spec fn decimal(n: nat) -> Seq<u8>
    decreases n,
{
    if n < 10 {
        seq![(48 + n) as u8]
    } else {
        decimal(n / 10) + seq![(48 + n % 10) as u8]
    }
}

/// The header of a binary RGB image of `w × h` pixels with 8-bit channels:
/// `P6`, the width and the height in decimal, and the largest channel value, 255.
pub open spec fn ppm_header(w: nat, h: nat) -> Seq<u8> {
    seq![80u8, 54u8, 10u8] + decimal(w) + seq![32u8] + decimal(h) + seq![10u8, 50u8, 53u8, 53u8, 10u8]
}

/// The red, green and blue bytes of each packed color in turn; alpha is left out.
pub open spec fn rgb_bytes(pixels: Seq<u32>) -> Seq<u8>
    decreases pixels.len(),
{
    if pixels.len() == 0 {
        Seq::empty()
    } else {
        let c = unpacked(pixels.last());
        rgb_bytes(pixels.drop_last()) + seq![c.red, c.green, c.blue]
    }
}

/// The whole image file of a `w × h` buffer.
pub open spec fn ppm_image(w: nat, h: nat, pixels: Seq<u32>) -> Seq<u8> {
    ppm_header(w, h) + rgb_bytes(pixels)
}

/// Appends the decimal digits of `n` to `out`.
pub fn push_decimal(out: &mut Vec<u8>, n: usize)
    ensures
        final(out)@ == old(out)@ + decimal(n as nat),
    decreases n,
{
    if n >= 10 {
        push_decimal(out, n / 10);
    }
    out.push((48 + n % 10) as u8);
    proof {
        if n < 10 {
            assert(n % 10 == n);
        }
    }
    assert(out@ =~= old(out)@ + decimal(n as nat));
}

/// The image file of `buf`: the header, then the red, green and blue bytes of
/// every pixel, row by row from the top-left.
pub fn encode_ppm(buf: &Framebuffer) -> (r: Vec<u8>)
    requires
        buf.wf(),
    ensures
        r@ == ppm_image(buf.width as nat, buf.height as nat, buf.pixels@),
{
    let mut out: Vec<u8> = Vec::new();
    out.push(80u8);
    out.push(54u8);
    out.push(10u8);
    push_decimal(&mut out, buf.width);
    out.push(32u8);
    push_decimal(&mut out, buf.height);
    out.push(10u8);
    out.push(50u8);
    out.push(53u8);
    out.push(53u8);
    out.push(10u8);
    assert(out@ =~= ppm_header(buf.width as nat, buf.height as nat));
    let ghost header = out@;
    let mut k: usize = 0;
    while k < buf.pixels.len()
        invariant
            k <= buf.pixels.len(),
            out@ == header + rgb_bytes(buf.pixels@.subrange(0, k as int)),
        decreases buf.pixels.len() - k,
    {
        let c = unpack_color(buf.pixels[k]);
        out.push(c.red);
        out.push(c.green);
        out.push(c.blue);
        proof {
            let s = buf.pixels@.subrange(0, k as int + 1);
            assert(s.drop_last() =~= buf.pixels@.subrange(0, k as int));
        }
        assert(out@ =~= header + rgb_bytes(buf.pixels@.subrange(0, k as int + 1)));
        k = k + 1;
    }
    assert(buf.pixels@.subrange(0, k as int) =~= buf.pixels@);
    out
}

} // verus!
