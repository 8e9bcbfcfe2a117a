//! The plain-text PPM format: a header with the magic number of the ASCII
//! variant, the image size and the channel maximum 255, then one line `R G B`
//! per pixel in buffer order.

use vstd::prelude::*;
use crate::image::{Image, Rgb};

verus! {

/// ASCII decimal digits of `n`, most significant first, without leading zeros.
pub open spec fn decimal(n: nat) -> Seq<u8>
    decreases n,
{
    if n < 10 {
        seq![(48 + n) as u8]
    } else {
        decimal(n / 10).push((48 + n % 10) as u8)
    }
}

/// The ASCII-PPM magic number (the letter `P`, the digit three), newline,
/// `width height`, newline, `255`, newline.
pub open spec fn header_text(width: nat, height: nat) -> Seq<u8> {
    seq![80u8, 51u8, 10u8] + decimal(width) + seq![32u8] + decimal(height) + seq![10u8, 50u8, 53u8, 53u8, 10u8]
}

/// `R G B` and a newline.
pub open spec fn pixel_text(p: Rgb) -> Seq<u8> {
    decimal(p.r as nat) + seq![32u8] + decimal(p.g as nat) + seq![32u8] + decimal(p.b as nat) + seq![10u8]
}

/// The lines of all `pixels`, in order.
pub open spec fn pixels_text(pixels: Seq<Rgb>) -> Seq<u8>
    decreases pixels.len(),
{
    if pixels.len() == 0 {
        Seq::empty()
    } else {
        pixels_text(pixels.drop_last()) + pixel_text(pixels.last())
    }
}

/// The whole file.
pub open spec fn image_text(width: nat, height: nat, pixels: Seq<Rgb>) -> Seq<u8> {
    header_text(width, height) + pixels_text(pixels)
}

/// Appends the decimal digits of `n`.
pub fn push_decimal(out: &mut Vec<u8>, n: usize)
    ensures
        final(out)@ == old(out)@ + decimal(n as nat),
    decreases n,
{
    if n >= 10 {
        push_decimal(out, n / 10);
    }
    let digit = (n % 10) as u8;
    out.push(48u8 + digit);
    proof {
        assert(decimal(n as nat) == if n < 10 {
            seq![(48 + n) as u8]
        } else {
            decimal((n / 10) as nat).push((48 + n % 10) as u8)
        });
    }
    assert(final(out)@ =~= old(out)@ + decimal(n as nat));
}

/// The header for a `width` x `height` image.
pub fn header(width: usize, height: usize) -> (r: Vec<u8>)
    ensures
        r@ == header_text(width as nat, height as nat),
{
    let mut out: Vec<u8> = Vec::new();
    out.push(80u8);
    out.push(51u8);
    out.push(10u8);
    push_decimal(&mut out, width);
    out.push(32u8);
    push_decimal(&mut out, height);
    out.push(10u8);
    out.push(50u8);
    out.push(53u8);
    out.push(53u8);
    out.push(10u8);
    assert(out@ =~= header_text(width as nat, height as nat));
    out
}

/// Appends the line of one pixel.
pub fn push_pixel(out: &mut Vec<u8>, p: Rgb)
    ensures
        final(out)@ == old(out)@ + pixel_text(p),
{
    push_decimal(out, p.r as usize);
    out.push(32u8);
    push_decimal(out, p.g as usize);
    out.push(32u8);
    push_decimal(out, p.b as usize);
    out.push(10u8);
    assert(final(out)@ =~= old(out)@ + pixel_text(p));
}

/// The whole image as text: header, then one line per pixel, top row first.
pub fn encode(img: &Image) -> (r: Vec<u8>)
    requires
        img.wf(),
    ensures
        r@ == image_text(img.spec_width(), img.spec_height(), img@),
{
    let mut out = header(img.width(), img.height());
    let n = img.width() * img.height();
    let mut i: usize = 0;
    while i < n
        invariant
            img.wf(),
            n == img@.len(),
            i <= n,
            out@ == header_text(img.spec_width(), img.spec_height()) + pixels_text(img@.subrange(0, i as int)),
        decreases n - i,
    {
        let p = img.pixel(i);
        push_pixel(&mut out, p);
        proof {
            let s = img@.subrange(0, i + 1);
            assert(s.drop_last() =~= img@.subrange(0, i as int));
            assert(out@ =~= header_text(img.spec_width(), img.spec_height()) + pixels_text(s));
        }
        i = i + 1;
    }
    assert(img@.subrange(0, n as int) =~= img@);
    out
}

} // verus!
