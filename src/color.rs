//! Colours, brightness scaling, the brightness counter and the packing of
//! a colour into the 24-bit word the LED shifts in.
use vstd::prelude::*;

verus! {

/// Brightness counts from 0 up to this value and then starts again at 0.
pub const BRIGHTNESS_LIMIT: u8 = 100;

/// The divisor of the brightness scale: a brightness `b` scales a channel
/// by `b / 255`.
pub const SCALE_DIVISOR: u16 = 255;

/// An RGB colour with 8-bit channels.
#[derive(Clone, Copy, Debug, PartialEq, Eq, Structural)]
pub struct Color {
    pub red: u8,
    pub green: u8,
    pub blue: u8,
}

/// A channel scaled by `brightness / 255` and truncated.
pub open spec fn scale_spec(channel: u8, brightness: u8) -> u8 {
    (channel as int * brightness as int / 255) as u8
}

/// Every channel of `c` scaled by `brightness / 255`.
pub open spec fn scaled_spec(c: Color, brightness: u8) -> Color {
    Color {
        red: scale_spec(c.red, brightness),
        green: scale_spec(c.green, brightness),
        blue: scale_spec(c.blue, brightness),
    }
}

/// The 24-bit word for `c`: blue in bits 0-7, red in bits 8-15 and green
/// in bits 16-23.
pub open spec fn packed_spec(c: Color) -> u32 {
    (c.blue as int + 0x100 * c.red as int + 0x1_0000 * c.green as int) as u32
}

/// The brightness that follows `b`: one more, or 0 once that reaches 100.
pub open spec fn next_brightness_spec(b: u8) -> u8 {
    if b + 1 < BRIGHTNESS_LIMIT {
        (b + 1) as u8
    } else {
        0u8
    }
}

impl Color {
    /// The colour with the given channels.
    pub fn new(red: u8, green: u8, blue: u8) -> (c: Color)
        ensures
            c == (Color { red, green, blue }),
    {
        Color { red, green, blue }
    }

    /// This colour with each channel scaled by `brightness / 255`.
    pub fn scaled(&self, brightness: u8) -> (c: Color)
        ensures
            c == scaled_spec(*self, brightness),
    {
        Color {
            red: scale_channel(self.red, brightness),
            green: scale_channel(self.green, brightness),
            blue: scale_channel(self.blue, brightness),
        }
    }

    /// This colour packed into the LED's 24-bit word.
    pub fn packed(&self) -> (r: u32)
        ensures
            r == packed_spec(*self),
            r < 0x100_0000,
    {
        pack(*self)
    }
}

/// Scales one channel by `brightness / 255`, rounding down.
pub fn scale_channel(channel: u8, brightness: u8) -> (r: u8)
    ensures
        r as int == channel as int * brightness as int / 255,
        r == scale_spec(channel, brightness),
        r <= channel,
{
    let c: u16 = channel as u16;
    let b: u16 = brightness as u16;
    assert(c * b <= 255 * 255) by (nonlinear_arith)
        requires
            c <= 255,
            b <= 255,
    ;
    let product: u16 = c * b;
    assert(product / 255 <= c) by (nonlinear_arith)
        requires
            product == c * b,
            b <= 255,
    ;
    (product / SCALE_DIVISOR) as u8
}

/// Packs a colour into the LED's 24-bit word: blue in the low byte, red in
/// the middle byte and green in the high byte.
pub fn pack(c: Color) -> (r: u32)
    ensures
        r == packed_spec(c),
        r < 0x100_0000,
        (r & 0xffu32) == c.blue as u32,
        ((r >> 8u32) & 0xffu32) == c.red as u32,
        ((r >> 16u32) & 0xffu32) == c.green as u32,
{
    let blue: u32 = c.blue as u32;
    let red: u32 = c.red as u32;
    let green: u32 = c.green as u32;
    let r: u32 = blue | (red << 8u32) | (green << 16u32);
    assert(r == blue + 0x100 * red + 0x1_0000 * green && r < 0x100_0000 && (r & 0xffu32)
        == blue && ((r >> 8u32) & 0xffu32) == red && ((r >> 16u32) & 0xffu32) == green)
        by (bit_vector)
        requires
            blue < 0x100,
            red < 0x100,
            green < 0x100,
            r == blue | (red << 8u32) | (green << 16u32),
    ;
    r
}

/// Advances the brightness counter by one, wrapping to 0 at 100.
pub fn next_brightness(brightness: u8) -> (r: u8)
    ensures
        r == next_brightness_spec(brightness),
        r < BRIGHTNESS_LIMIT,
{
    let b: u8 = brightness.wrapping_add(1);
    if b >= BRIGHTNESS_LIMIT {
        0
    } else {
        b
    }
}

/// The counter after `n` advances from `b`.
pub open spec fn brightness_after(b: u8, n: nat) -> u8
    decreases n,
{
    if n == 0 {
        b
    } else {
        next_brightness_spec(brightness_after(b, (n - 1) as nat))
    }
}

/// From any value below 100 the counter only counts up modulo 100: after
/// `n` advances it is `(b + n) % 100`, so it never reaches 100.
pub proof fn lemma_brightness_cycles(b: u8, n: nat)
    requires
        b < BRIGHTNESS_LIMIT,
    ensures
        brightness_after(b, n) == (b + n) % 100,
        brightness_after(b, n) < BRIGHTNESS_LIMIT,
    decreases n,
{
    if n > 0 {
        lemma_brightness_cycles(b, (n - 1) as nat);
    }
}

/// Started at 0, the counter is back at 0 after 100 advances, and no
/// number of advances takes it to 100 or above.
pub proof fn lemma_brightness_returns_to_zero()
    ensures
        brightness_after(0, 100) == 0,
        forall|n: nat| #[trigger] brightness_after(0, n) < BRIGHTNESS_LIMIT,
{
    lemma_brightness_cycles(0, 100);
    assert forall|n: nat| #[trigger] brightness_after(0, n) < BRIGHTNESS_LIMIT by {
        lemma_brightness_cycles(0, n);
    }
}

} // verus!
