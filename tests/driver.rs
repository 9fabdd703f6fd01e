use ws2812_spi::animation::{palette_color, Animation, FRAME_DELAY_MS, PALETTE_LEN};
use ws2812_spi::color::{next_brightness, pack, scale_channel, Color, BRIGHTNESS_LIMIT};
use ws2812_spi::pulse::encode;

#[test]
fn brightness_returns_to_zero_after_hundred_steps() {
    let mut b: u8 = 0;
    for _ in 0..100 {
        b = next_brightness(b);
        assert!(b < BRIGHTNESS_LIMIT);
    }
    assert_eq!(b, 0);
}

#[test]
fn brightness_wraps_from_top() {
    assert_eq!(next_brightness(98), 99);
    assert_eq!(next_brightness(99), 0);
    assert_eq!(next_brightness(255), 0);
    assert_eq!(next_brightness(150), 0);
}

#[test]
fn scale_divides_by_255() {
    assert_eq!(scale_channel(255, 50), 50);
    assert_eq!(scale_channel(255, 99), 99);
    assert_eq!(scale_channel(255, 255), 255);
    assert_eq!(scale_channel(100, 99), 38);
    assert_eq!(scale_channel(0, 99), 0);
    assert_eq!(scale_channel(200, 0), 0);
}

#[test]
fn pack_black_is_zero() {
    assert_eq!(pack(Color::new(0, 0, 0)), 0x000000);
    assert_eq!(
        encode(pack(Color::new(0, 0, 0))),
        [0x92, 0x49, 0x24, 0x92, 0x49, 0x24, 0x92, 0x49, 0x24]
    );
}

#[test]
fn pack_places_channels() {
    assert_eq!(pack(Color::new(255, 0, 0).scaled(255)), 0x00FF00);
    assert_eq!(pack(Color::new(0, 255, 0)), 0xFF0000);
    assert_eq!(pack(Color::new(0, 0, 255)), 0x0000FF);
    assert_eq!(Color::new(0x12, 0x34, 0x56).packed(), 0x341256);
}

#[test]
fn green_entry_at_brightness_fifty() {
    let mut anim = Animation {
        brightness: 49,
        index: 1,
    };
    let frame = anim.step();
    assert_eq!(frame.brightness, 50);
    assert_eq!(frame.color, Color::new(0, 50, 0));
    assert_eq!(frame.packed, 0x320000);
    assert_eq!(
        frame.pulses,
        [0x93, 0x69, 0x34, 0x92, 0x49, 0x24, 0x92, 0x49, 0x24]
    );
    assert_eq!(frame.delay_ms, FRAME_DELAY_MS);
    assert_eq!(anim, Animation { brightness: 50, index: 2 });
}

#[test]
fn animation_cycles_palette_in_order() {
    let mut anim = Animation::new();
    for n in 0..(3 * PALETTE_LEN + 1) {
        let index = anim.index;
        assert_eq!(index, n % PALETTE_LEN);
        let frame = anim.step();
        let brightness = ((n + 1) % 100) as u8;
        assert_eq!(frame.brightness, brightness);
        assert_eq!(frame.color, palette_color(index).scaled(brightness));
        assert_eq!(frame.pulses, encode(pack(frame.color)));
    }
    assert_eq!(anim, Animation { brightness: 13, index: 1 });
}

#[test]
fn animation_brightness_not_reset_per_entry() {
    let mut anim = Animation::new();
    let mut last: u8 = 0;
    for n in 0..250usize {
        let frame = anim.step();
        assert_eq!(frame.brightness, ((n + 1) % 100) as u8);
        assert!(frame.brightness < BRIGHTNESS_LIMIT);
        if frame.brightness != 0 {
            assert_eq!(frame.brightness, last + 1);
        }
        last = frame.brightness;
    }
}

#[test]
fn palette_entries() {
    assert_eq!(palette_color(0), Color::new(0, 0, 0));
    assert_eq!(palette_color(1), Color::new(0, 255, 0));
    assert_eq!(palette_color(2), Color::new(255, 255, 255));
    assert_eq!(palette_color(3), Color::new(0, 0, 255));
}

#[test]
fn white_entry_frame() {
    let mut anim = Animation { brightness: 2, index: 2 };
    let frame = anim.step();
    assert_eq!(frame.color, Color::new(3, 3, 3));
    assert_eq!(frame.packed, 0x030303);
}

#[test]
fn frame_fifty_from_power_up_is_green() {
    let mut anim = Animation::new();
    let mut frame = anim.step();
    for _ in 1..50 {
        frame = anim.step();
    }
    assert_eq!(frame.brightness, 50);
    assert_eq!(frame.color, Color::new(0, 50, 0));
    assert_eq!(frame.packed, 0x320000);
    assert_eq!(
        frame.pulses,
        [0x93, 0x69, 0x34, 0x92, 0x49, 0x24, 0x92, 0x49, 0x24]
    );
}

#[test]
fn second_frame_is_green_two() {
    let mut anim = Animation::new();
    anim.step();
    let frame = anim.step();
    assert_eq!(frame.color, Color::new(0, 2, 0));
    assert_eq!(frame.packed, 0x020000);
}
