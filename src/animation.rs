//! The animation driver: a fixed palette walked in order, one colour per
//! frame, with a brightness counter that keeps counting across frames.
//!
//! A step is a pure function of the state; sending the pulses and waiting
//! `FRAME_DELAY_MS` between frames is left to the caller.
use vstd::prelude::*;
use crate::color::{
    Color,
    scaled_spec,
    packed_spec,
    next_brightness_spec,
    next_brightness,
    BRIGHTNESS_LIMIT,
};
use crate::pulse::{encode, is_pulse_train};

verus! {

/// Number of colours in the palette.
pub const PALETTE_LEN: usize = 4;

/// Pause after each frame, in milliseconds.
pub const FRAME_DELAY_MS: u64 = 500;

/// The palette: black, green, white, blue.
pub open spec fn palette_spec(i: int) -> Color {
    if i == 0 {
        Color { red: 0, green: 0, blue: 0 }
    } else if i == 1 {
        Color { red: 0, green: 255, blue: 0 }
    } else if i == 2 {
        Color { red: 255, green: 255, blue: 255 }
    } else {
        Color { red: 0, green: 0, blue: 255 }
    }
}

/// Palette entry `i`.
pub fn palette_color(i: usize) -> (c: Color)
    requires
        i < PALETTE_LEN,
    ensures
        c == palette_spec(i as int),
{
    if i == 0 {
        Color { red: 0, green: 0, blue: 0 }
    } else if i == 1 {
        Color { red: 0, green: 255, blue: 0 }
    } else if i == 2 {
        Color { red: 255, green: 255, blue: 255 }
    } else {
        Color { red: 0, green: 0, blue: 255 }
    }
}

/// What one step hands to the transport: the scaled colour, its packed
/// word, the pulse buffer to send, and the pause that follows.
pub struct Frame {
    pub color: Color,
    pub brightness: u8,
    pub packed: u32,
    pub pulses: [u8; 9],
    pub delay_ms: u64,
}

/// The animation state: the brightness counter and the palette entry the
/// next step shows.
#[derive(Clone, Copy, Debug, PartialEq, Eq, Structural)]
pub struct Animation {
    pub brightness: u8,
    pub index: usize,
}

impl Animation {
    /// The counter is below 100 and the index names a palette entry.
    pub open spec fn wf(self) -> bool {
        self.brightness < BRIGHTNESS_LIMIT && self.index < PALETTE_LEN
    }

    /// The state after one step.
    pub open spec fn next(self) -> Animation {
        Animation {
            brightness: next_brightness_spec(self.brightness),
            index: ((self.index + 1) % PALETTE_LEN as int) as usize,
        }
    }

    /// The state after `n` steps.
    pub open spec fn after(self, n: nat) -> Animation
        decreases n,
    {
        if n == 0 {
            self
        } else {
            self.after((n - 1) as nat).next()
        }
    }

    /// The colour that the next step shows: the current palette entry at
    /// the advanced brightness.
    pub open spec fn frame_color(self) -> Color {
        scaled_spec(palette_spec(self.index as int), next_brightness_spec(self.brightness))
    }

    /// The state at power-up: brightness 0, first palette entry.
    pub fn new() -> (a: Animation)
        ensures
            a.wf(),
            a.brightness == 0,
            a.index == 0,
    {
        Animation { brightness: 0, index: 0 }
    }

    /// Produces the next frame: advances the brightness, scales the current
    /// palette entry by it, packs and encodes the result, and moves on to
    /// the next palette entry.
    pub fn step(&mut self) -> (frame: Frame)
        requires
            old(self).wf(),
        ensures
            final(self).wf(),
            *final(self) == old(self).next(),
            frame.brightness == final(self).brightness,
            frame.color == old(self).frame_color(),
            frame.packed == packed_spec(frame.color),
            is_pulse_train(frame.packed, frame.pulses@),
            frame.delay_ms == FRAME_DELAY_MS,
    {
        let brightness: u8 = next_brightness(self.brightness);
        let color: Color = palette_color(self.index).scaled(brightness);
        let packed: u32 = color.packed();
        let pulses: [u8; 9] = encode(packed);
        self.brightness = brightness;
        self.index = if self.index + 1 < PALETTE_LEN {
            self.index + 1
        } else {
            0
        };
        Frame { color, brightness, packed, pulses, delay_ms: FRAME_DELAY_MS }
    }
}

/// The animation walks the palette in order without end, and the
/// brightness keeps counting across palette entries: `n` steps from a
/// well-formed state move the index on by `n` modulo 4 and the brightness
/// by `n` modulo 100, and the frame that follows shows the entry at the
/// new index scaled by the brightness one further on.
pub proof fn lemma_animation_cycles(s: Animation, n: nat)
    requires
        s.wf(),
    ensures
        s.after(n).wf(),
        s.after(n).index == (s.index + n) % 4,
        s.after(n).brightness == (s.brightness + n) % 100,
        s.after(n).frame_color() == scaled_spec(
            palette_spec((s.index + n) % 4),
            ((s.brightness + n + 1) % 100) as u8,
        ),
    decreases n,
{
    if n > 0 {
        lemma_animation_cycles(s, (n - 1) as nat);
    }
}

} // verus!
