//! The pulse encoder: a 24-bit packed colour becomes nine bytes of
//! three-bit pulse symbols, one symbol per colour bit.
//!
//! Output bits are numbered from 0 (least significant bit of the last byte)
//! to 71 (most significant bit of the first byte), so the buffer reads as a
//! 72-bit big-endian number. Colour bit `i` owns output bits `3i .. 3i + 3`.
use vstd::prelude::*;

verus! {

/// Number of colour bits sent to the LED.
pub const COLOR_BITS: usize = 24;

/// Length of an encoded pulse buffer in bytes (24 symbols of 3 bits).
pub const PULSE_BYTES: usize = 9;

/// Largest value that fits in the 24 colour bits, plus one.
pub const COLOR_LIMIT: u32 = 0x100_0000;

/// Bit `i` of `v` (bit 0 is the least significant).
pub open spec fn color_bit(v: u32, i: u32) -> bool {
    (v >> i) & 1u32 == 1u32
}

/// The three-bit symbol for one colour bit: `110` for a one, `100` for a zero.
pub open spec fn symbol(bit: bool) -> u8 {
    if bit {
        0b110u8
    } else {
        0b100u8
    }
}

/// Bit `q` of the pulse train for colour `v`: the symbol of colour bit
/// `q / 3`, at position `q % 3` within it.
pub open spec fn train_bit(v: u32, q: int) -> bool {
    q % 3 == 2 || (q % 3 == 1 && color_bit(v, (q / 3) as u32))
}

/// Bit `q` of a nine-byte buffer read as a big-endian number.
pub open spec fn buffer_bit(buf: Seq<u8>, q: int) -> bool {
    (buf[8 - q / 8] >> ((q % 8) as u8)) & 1u8 == 1u8
}

/// `buf` is the pulse train of `v`: nine bytes whose 72 bits are the 24
/// symbols of `v`, the symbol of bit 23 first.
pub open spec fn is_pulse_train(v: u32, buf: Seq<u8>) -> bool {
    &&& buf.len() == PULSE_BYTES
    &&& forall|q: int| 0 <= q < 72 ==> #[trigger] buffer_bit(buf, q) == train_bit(v, q)
}

/// The three-bit group of `buf` that carries colour bit `i`.
pub open spec fn group(buf: Seq<u8>, i: int) -> u8 {
    let high: int = if buffer_bit(buf, 3 * i + 2) { 4 } else { 0 };
    let mid: int = if buffer_bit(buf, 3 * i + 1) { 2 } else { 0 };
    let low: int = if buffer_bit(buf, 3 * i) { 1 } else { 0 };
    (high + mid + low) as u8
}

proof fn lemma_or_bit(b: u8, s: u8, t: u8)
    requires
        s < 8,
        t < 8,
    ensures
        ((b | (1u8 << s)) >> t) & 1u8 == 1u8 <==> (t == s || (b >> t) & 1u8 == 1u8),
{
    assert(((b | (1u8 << s)) >> t) & 1u8 == 1u8 <==> (t == s || (b >> t) & 1u8 == 1u8))
        by (bit_vector)
        requires
            s < 8,
            t < 8,
    ;
}

/// Sets bit `q` of the buffer and leaves the other 71 as they were.
fn set_bit(buf: &mut [u8; 9], q: usize)
    requires
        q < 72,
    ensures
        forall|p: int|
            0 <= p < 72 ==> #[trigger] buffer_bit(final(buf)@, p) == (p == q || buffer_bit(
                old(buf)@,
                p,
            )),
{
    let k: usize = 8 - q / 8;
    let s: u8 = (q % 8) as u8;
    let b: u8 = buf[k];
    buf[k] = b | (1u8 << s);
    assert forall|p: int| 0 <= p < 72 implies #[trigger] buffer_bit(buf@, p) == (p == q
        || buffer_bit(old(buf)@, p)) by {
        if 8 - p / 8 == k {
            lemma_or_bit(b, s, (p % 8) as u8);
        }
    }
}

/// Encodes a 24-bit packed colour as its pulse train: for each colour bit
/// `i`, the group at output bits `3i .. 3i + 3` is `110` if the bit is one
/// and `100` if it is zero.
pub fn encode(packed: u32) -> (pulses: [u8; 9])
    requires
        packed < COLOR_LIMIT,
    ensures
        pulses@.len() == PULSE_BYTES,
        is_pulse_train(packed, pulses@),
{
    let mut out: [u8; 9] = [0u8; 9];
    assert forall|q: int| 0 <= q < 72 implies !#[trigger] buffer_bit(out@, q) by {
        let t: u8 = (q % 8) as u8;
        assert((0u8 >> t) & 1u8 == 0u8) by (bit_vector);
    }
    let mut i: usize = 0;
    while i < COLOR_BITS
        invariant
            i <= COLOR_BITS,
            forall|q: int|
                0 <= q < 72 ==> #[trigger] buffer_bit(out@, q) == (q < 3 * i && train_bit(
                    packed,
                    q,
                )),
        decreases COLOR_BITS - i,
    {
        set_bit(&mut out, 3 * i + 2);
        if (packed >> i as u32) & 1u32 == 1u32 {
            set_bit(&mut out, 3 * i + 1);
        }
        i = i + 1;
    }
    out
}

proof fn lemma_byte_from_bits(x: u8, y: u8)
    requires
        (x >> 0u8) & 1u8 == (y >> 0u8) & 1u8,
        (x >> 1u8) & 1u8 == (y >> 1u8) & 1u8,
        (x >> 2u8) & 1u8 == (y >> 2u8) & 1u8,
        (x >> 3u8) & 1u8 == (y >> 3u8) & 1u8,
        (x >> 4u8) & 1u8 == (y >> 4u8) & 1u8,
        (x >> 5u8) & 1u8 == (y >> 5u8) & 1u8,
        (x >> 6u8) & 1u8 == (y >> 6u8) & 1u8,
        (x >> 7u8) & 1u8 == (y >> 7u8) & 1u8,
    ensures
        x == y,
{
    assert(x == y) by (bit_vector)
        requires
            (x >> 0u8) & 1u8 == (y >> 0u8) & 1u8,
            (x >> 1u8) & 1u8 == (y >> 1u8) & 1u8,
            (x >> 2u8) & 1u8 == (y >> 2u8) & 1u8,
            (x >> 3u8) & 1u8 == (y >> 3u8) & 1u8,
            (x >> 4u8) & 1u8 == (y >> 4u8) & 1u8,
            (x >> 5u8) & 1u8 == (y >> 5u8) & 1u8,
            (x >> 6u8) & 1u8 == (y >> 6u8) & 1u8,
            (x >> 7u8) & 1u8 == (y >> 7u8) & 1u8,
    ;
}

proof fn lemma_bit_of_byte(buf: Seq<u8>, k: int, t: int)
    requires
        0 <= k < 9,
        0 <= t < 8,
    ensures
        buffer_bit(buf, 8 * (8 - k) + t) == ((buf[k] >> (t as u8)) & 1u8 == 1u8),
{
    let q = 8 * (8 - k) + t;
    assert(q / 8 == 8 - k && q % 8 == t);
}

proof fn lemma_bit_values(x: u8, t: u8)
    ensures
        (x >> t) & 1u8 == 0u8 || (x >> t) & 1u8 == 1u8,
{
    assert((x >> t) & 1u8 == 0u8 || (x >> t) & 1u8 == 1u8) by (bit_vector);
}

proof fn lemma_same_bit(v: u32, a: Seq<u8>, b: Seq<u8>, k: int, t: u8)
    requires
        is_pulse_train(v, a),
        is_pulse_train(v, b),
        0 <= k < 9,
        t < 8,
    ensures
        (a[k] >> t) & 1u8 == (b[k] >> t) & 1u8,
{
    lemma_bit_of_byte(a, k, t as int);
    lemma_bit_of_byte(b, k, t as int);
    assert(buffer_bit(a, 8 * (8 - k) + t) == buffer_bit(b, 8 * (8 - k) + t));
    lemma_bit_values(a[k], t);
    lemma_bit_values(b[k], t);
}

/// The pulse train of a colour is unique: the contract of `encode` fixes
/// every byte it returns.
pub proof fn lemma_pulse_train_unique(v: u32, a: Seq<u8>, b: Seq<u8>)
    requires
        is_pulse_train(v, a),
        is_pulse_train(v, b),
    ensures
        a == b,
{
    assert forall|k: int| 0 <= k < 9 implies a[k] == b[k] by {
        lemma_same_bit(v, a, b, k, 0u8);
        lemma_same_bit(v, a, b, k, 1u8);
        lemma_same_bit(v, a, b, k, 2u8);
        lemma_same_bit(v, a, b, k, 3u8);
        lemma_same_bit(v, a, b, k, 4u8);
        lemma_same_bit(v, a, b, k, 5u8);
        lemma_same_bit(v, a, b, k, 6u8);
        lemma_same_bit(v, a, b, k, 7u8);
        lemma_byte_from_bits(a[k], b[k]);
    }
    assert(a =~= b);
}

/// Every colour bit is carried by its own group: for each `i` in `0 .. 24`
/// the group at output bits `3i .. 3i + 3` is `110` when bit `i` of the
/// colour is one and `100` when it is zero.
pub proof fn lemma_group_carries_bit(v: u32, buf: Seq<u8>, i: int)
    requires
        is_pulse_train(v, buf),
        0 <= i < 24,
    ensures
        group(buf, i) == symbol(color_bit(v, i as u32)),
        color_bit(v, i as u32) ==> group(buf, i) == 0b110u8,
        !color_bit(v, i as u32) ==> group(buf, i) == 0b100u8,
{
    assert(buffer_bit(buf, 3 * i + 2) == train_bit(v, 3 * i + 2));
    assert(buffer_bit(buf, 3 * i + 1) == train_bit(v, 3 * i + 1));
    assert(buffer_bit(buf, 3 * i) == train_bit(v, 3 * i));
    assert((3 * i + 1) / 3 == i && (3 * i + 1) % 3 == 1);
    assert((3 * i + 2) % 3 == 2 && (3 * i) % 3 == 0);
}

/// A byte sequence read as one big-endian number, the first byte most
/// significant. For the nine bytes of a pulse train this is the 72-bit
/// word whose bit `q` is `buffer_bit(buf, q)`.
pub open spec fn buffer_word(buf: Seq<u8>) -> u128
    decreases buf.len(),
{
    if buf.len() == 0 {
        0u128
    } else {
        (buffer_word(buf.drop_last()) << 8u128) | (buf.last() as u128)
    }
}

/// The colour read back from a pulse word: bit `i` of the result is the
/// middle bit of group `i`, for `i` below `n`.
pub open spec fn decode_word(w: u128, n: nat) -> u32
    decreases n,
{
    if n == 0 {
        0u32
    } else {
        let i = (n - 1) as nat;
        decode_word(w, i) | ((((w >> (3 * i + 1) as u128) & 1u128) as u32) << (i as u32))
    }
}

proof fn lemma_word_bit(buf: Seq<u8>, q: int)
    requires
        buf.len() <= 16,
        0 <= q < 8 * buf.len(),
    ensures
        (buffer_word(buf) >> (q as u128)) & 1u128 == ((buf[buf.len() - 1 - q / 8] >> ((q
            % 8) as u8)) & 1u8) as u128,
    decreases buf.len(),
{
    let w: u128 = buffer_word(buf.drop_last());
    let b: u8 = buf.last();
    let qq: u128 = q as u128;
    if q < 8 {
        let t: u8 = q as u8;
        assert((((w << 8u128) | (b as u128)) >> qq) & 1u128 == ((b >> t) & 1u8) as u128)
            by (bit_vector)
            requires
                qq < 8,
                t as u128 == qq,
        ;
    } else {
        let r: u128 = (q - 8) as u128;
        lemma_word_bit(buf.drop_last(), q - 8);
        assert((((w << 8u128) | (b as u128)) >> qq) & 1u128 == (w >> r) & 1u128)
            by (bit_vector)
            requires
                qq < 128,
                qq == r + 8,
        ;
        assert((q - 8) / 8 == q / 8 - 1 && (q - 8) % 8 == q % 8);
    }
}

proof fn lemma_group_of_word(w: u128, s: u128, x: u128)
    requires
        s < 126,
        x <= 1,
        (w >> s) & 1u128 == 0u128,
        (w >> (s + 1) as u128) & 1u128 == x,
        (w >> (s + 2) as u128) & 1u128 == 1u128,
    ensures
        (w >> s) & 7u128 == 4 + 2 * x,
{
    assert((w >> s) & 7u128 == 4 + 2 * x) by (bit_vector)
        requires
            s < 126,
            x <= 1,
            (w >> s) & 1u128 == 0u128,
            (w >> (s + 1) as u128) & 1u128 == x,
            (w >> (s + 2) as u128) & 1u128 == 1u128,
    ;
}

proof fn lemma_train_word_bit(v: u32, buf: Seq<u8>, q: int)
    requires
        is_pulse_train(v, buf),
        0 <= q < 72,
    ensures
        ((buffer_word(buf) >> (q as u128)) & 1u128 == 1u128) == train_bit(v, q),
        (buffer_word(buf) >> (q as u128)) & 1u128 <= 1u128,
{
    lemma_word_bit(buf, q);
    lemma_bit_values(buf[8 - q / 8], (q % 8) as u8);
    assert(buffer_bit(buf, q) == train_bit(v, q));
}

proof fn lemma_word_high_zero(buf: Seq<u8>)
    requires
        buf.len() <= 15,
    ensures
        buffer_word(buf) >> (8 * buf.len()) as u128 == 0u128,
    decreases buf.len(),
{
    if buf.len() > 0 {
        let w: u128 = buffer_word(buf.drop_last());
        let b: u8 = buf.last();
        let s: u128 = (8 * buf.drop_last().len()) as u128;
        lemma_word_high_zero(buf.drop_last());
        assert(((w << 8u128) | (b as u128)) >> (s + 8) as u128 == 0u128) by (bit_vector)
            requires
                s <= 112,
                w >> s == 0u128,
        ;
        assert((8 * buf.len()) as u128 == (s + 8) as u128);
    } else {
        assert(0u128 >> 0u128 == 0u128) by (bit_vector);
    }
}

/// Read as one 72-bit big-endian number `R`, the pulse train of `v` has
/// nothing above bit 71, and `(R >> 3i) & 7` equal to `110` where bit `i` of
/// `v` is one and to `100` where it is zero, for every `i` in `0 .. 24`:
/// bit 23's group is the top three bits of the first byte, bit 0's the low
/// three bits of the last.
pub proof fn lemma_word_groups(v: u32, buf: Seq<u8>, i: int)
    requires
        is_pulse_train(v, buf),
        0 <= i < 24,
    ensures
        buffer_word(buf) >> 72u128 == 0u128,
        (buffer_word(buf) >> (3 * i) as u128) & 7u128 == symbol(color_bit(v, i as u32)) as u128,
{
    lemma_word_high_zero(buf);
    let w = buffer_word(buf);
    lemma_train_word_bit(v, buf, 3 * i);
    lemma_train_word_bit(v, buf, 3 * i + 1);
    lemma_train_word_bit(v, buf, 3 * i + 2);
    assert((3 * i + 1) / 3 == i && (3 * i + 1) % 3 == 1);
    assert((3 * i + 2) % 3 == 2 && (3 * i) % 3 == 0);
    let x: u128 = (w >> (3 * i + 1) as u128) & 1u128;
    lemma_group_of_word(w, (3 * i) as u128, x);
}

proof fn lemma_decode_step(d: u32, v: u32, m: u32, x: u32)
    requires
        m < 24,
        d == v & ((1u32 << m) - 1u32) as u32,
        x == (v >> m) & 1u32,
    ensures
        d | (x << m) == v & ((1u32 << (m + 1) as u32) - 1u32) as u32,
{
    assert(d | (x << m) == v & ((1u32 << (m + 1) as u32) - 1u32) as u32) by (bit_vector)
        requires
            m < 24,
            d == v & ((1u32 << m) - 1u32) as u32,
            x == (v >> m) & 1u32,
    ;
}

proof fn lemma_decode_prefix(v: u32, buf: Seq<u8>, n: nat)
    requires
        is_pulse_train(v, buf),
        n <= 24,
    ensures
        decode_word(buffer_word(buf), n) == v & ((1u32 << n as u32) - 1u32) as u32,
    decreases n,
{
    if n == 0 {
        assert(v & ((1u32 << 0u32) - 1u32) as u32 == 0u32) by (bit_vector);
    } else {
        let i = (n - 1) as nat;
        let m: u32 = i as u32;
        lemma_decode_prefix(v, buf, i);
        lemma_train_word_bit(v, buf, (3 * i + 1) as int);
        assert((3 * i + 1) / 3 == i && (3 * i + 1) % 3 == 1);
        let xw: u128 = (buffer_word(buf) >> (3 * i + 1) as u128) & 1u128;
        assert((v >> m) & 1u32 == 0u32 || (v >> m) & 1u32 == 1u32) by (bit_vector);
        assert(xw as u32 == (v >> m) & 1u32);
        lemma_decode_step(decode_word(buffer_word(buf), i), v, m, xw as u32);
    }
}

/// Reading the middle bit of every three-bit group of the 72-bit word gives
/// back the colour, so the encoding has a left inverse.
pub proof fn lemma_encode_decodes(v: u32, buf: Seq<u8>)
    requires
        v < COLOR_LIMIT,
        is_pulse_train(v, buf),
    ensures
        decode_word(buffer_word(buf), 24) == v,
{
    lemma_decode_prefix(v, buf, 24);
    assert(v < 0x100_0000u32 ==> v & ((1u32 << 24u32) - 1u32) as u32 == v) by (bit_vector);
}

/// Encoding is injective: distinct 24-bit colours have distinct pulse
/// trains.
pub proof fn lemma_encode_injective(v1: u32, v2: u32, a: Seq<u8>, b: Seq<u8>)
    requires
        v1 < COLOR_LIMIT,
        v2 < COLOR_LIMIT,
        v1 != v2,
        is_pulse_train(v1, a),
        is_pulse_train(v2, b),
    ensures
        a != b,
{
    lemma_encode_decodes(v1, a);
    lemma_encode_decodes(v2, b);
}

} // verus!
