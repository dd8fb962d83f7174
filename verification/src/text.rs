//! The canvas commands of the plain-text protocol: one line for each pixel.

use crate::primitive::Pixel;
use vstd::prelude::*;

verus! {

/// The character of a decimal digit.
pub open spec fn digit(d: int) -> u8 {
    (48 + d) as u8
}

/// The characters of a number in decimal, without leading zeros.
pub open spec fn decimal(n: nat) -> Seq<u8>
    decreases n,
{
    if n < 10 {
        seq![digit(n as int)]
    } else {
        decimal(n / 10).push(digit((n % 10) as int))
    }
}

/// The character of a hexadecimal digit, in lower case.
pub open spec fn hex_digit(d: int) -> u8 {
    if d < 10 {
        (48 + d) as u8
    } else {
        (87 + d) as u8
    }
}

/// The two hexadecimal characters of a byte.
pub open spec fn hex(byte: u8) -> Seq<u8> {
    seq![hex_digit(byte as int / 16), hex_digit(byte as int % 16)]
}

/// The line that prints a pixel: `PX`, column and row in decimal, the colour
/// as six hexadecimal digits, and a line feed.
pub open spec fn line(px: Pixel) -> Seq<u8> {
    seq![80u8, 88u8, 32u8] + decimal(px.x as nat) + seq![32u8] + decimal(px.y as nat) + seq![32u8]
        + hex(px.color.0) + hex(px.color.1) + hex(px.color.2) + seq![10u8]
}

/// Appends a number in decimal.
pub fn push_decimal(out: &mut Vec<u8>, n: usize)
    ensures
        final(out)@ == old(out)@ + decimal(n as nat),
{
    let mut digits: Vec<u8> = Vec::new();
    let mut rest = n;
    while rest >= 10
        invariant
            decimal(n as nat) == decimal(rest as nat) + digits@.reverse(),
        decreases rest,
    {
        let ghost lower = digits@;
        digits.push(48 + (rest % 10) as u8);
        proof {
            assert(digits@.reverse() =~= seq![digit((rest % 10) as int)] + lower.reverse());
            assert(decimal(rest as nat) == decimal((rest / 10) as nat).push(digit((rest % 10) as int)));
            assert(decimal(n as nat) =~= decimal((rest / 10) as nat) + digits@.reverse());
        }
        rest = rest / 10;
    }
    let ghost lower = digits@;
    digits.push(48 + rest as u8);
    proof {
        assert(digits@.reverse() =~= seq![digit(rest as int)] + lower.reverse());
        assert(decimal(n as nat) =~= digits@.reverse());
    }
    let ghost head = out@;
    let mut i = digits.len();
    while i > 0
        invariant
            i <= digits@.len(),
            out@ == head + digits@.reverse().take(digits@.len() - i),
        decreases i,
    {
        i = i - 1;
        out.push(digits[i]);
        assert(out@ =~= head + digits@.reverse().take(digits@.len() - i));
    }
    assert(digits@.reverse().take(digits@.len() as int) =~= digits@.reverse());
}

fn hex_char(d: u8) -> (c: u8)
    requires
        d < 16,
    ensures
        c == hex_digit(d as int),
{
    if d < 10 {
        48 + d
    } else {
        87 + d
    }
}

/// Appends a byte as two hexadecimal digits.
pub fn push_hex(out: &mut Vec<u8>, byte: u8)
    ensures
        final(out)@ == old(out)@ + hex(byte),
{
    out.push(hex_char(byte / 16));
    out.push(hex_char(byte % 16));
    assert(out@ =~= old(out)@ + hex(byte));
}

/// The line that prints a pixel.
pub fn px_line(px: &Pixel) -> (text: Vec<u8>)
    ensures
        text@ == line(*px),
{
    let mut text: Vec<u8> = Vec::new();
    text.push(80);
    text.push(88);
    text.push(32);
    assert(text@ =~= seq![80u8, 88u8, 32u8]);
    push_decimal(&mut text, px.x);
    text.push(32);
    push_decimal(&mut text, px.y);
    text.push(32);
    push_hex(&mut text, px.color.0);
    push_hex(&mut text, px.color.1);
    push_hex(&mut text, px.color.2);
    text.push(10);
    assert(text@ =~= line(*px));
    text
}

/// The pixel of the test card at `(x, y)`: red and blue grow to the right,
/// green grows downward.
pub fn card_pixel(x: u8, y: u8) -> (px: Pixel)
    ensures
        px == (Pixel { x: x as usize, y: y as usize, color: (x, y, x) }),
{
    Pixel { x: x as usize, y: y as usize, color: (x, y, x) }
}

/// The test card: 256 by 256 pixels, column by column from the left, each
/// column from the top.
pub fn card() -> (pixels: Vec<Pixel>)
    ensures
        pixels@.len() == 65536,
        forall|k: int|
            0 <= k < 65536 ==> #[trigger] pixels@[k] == (Pixel {
                x: (k / 256) as usize,
                y: (k % 256) as usize,
                color: ((k / 256) as u8, (k % 256) as u8, (k / 256) as u8),
            }),
{
    let mut pixels: Vec<Pixel> = Vec::new();
    let mut x: usize = 0;
    while x < 256
        invariant
            x <= 256,
            pixels@.len() == 256 * x,
            forall|k: int|
                0 <= k < pixels@.len() ==> #[trigger] pixels@[k] == (Pixel {
                    x: (k / 256) as usize,
                    y: (k % 256) as usize,
                    color: ((k / 256) as u8, (k % 256) as u8, (k / 256) as u8),
                }),
        decreases 256 - x,
    {
        let mut y: usize = 0;
        while y < 256
            invariant
                x < 256,
                y <= 256,
                pixels@.len() == 256 * x + y,
                forall|k: int|
                    0 <= k < pixels@.len() ==> #[trigger] pixels@[k] == (Pixel {
                        x: (k / 256) as usize,
                        y: (k % 256) as usize,
                        color: ((k / 256) as u8, (k % 256) as u8, (k / 256) as u8),
                    }),
            decreases 256 - y,
        {
            pixels.push(card_pixel(x as u8, y as u8));
            y = y + 1;
        }
        x = x + 1;
    }
    pixels
}

} // verus!
