//! Eight WS2812B RGB LEDs on the SPI bus, in green-red-blue order.
//!
//! One SPI byte stands for one LED bit: `0xF8` for a 1, `0x80` for a 0.
use vstd::prelude::*;

verus! {

pub const LED_COUNT: usize = 8;

/// Colours of the strip, as sent: green, red, blue per LED.
#[derive(Debug)]
pub struct LedStrip {
    pub buf: Vec<u8>,
    pub brightness: u8,
}

/// A channel value scaled by the brightness, rounded to the nearest.
pub open spec fn scaled(v: u8, brightness: u8) -> u8 {
    ((2 * (v * brightness) + 255) / 510) as u8
}

/// The SPI byte of bit `k` of a byte, highest bit first.
pub open spec fn spi_byte(b: u8, k: int) -> u8 {
    if (b >> ((7 - k) as u8)) & 1u8 == 1 {
        0xF8
    } else {
        0x80
    }
}

/// The SPI bytes of a colour buffer.
pub open spec fn spi_frame(buf: Seq<u8>) -> Seq<u8> {
    Seq::new(buf.len() * 8, |p: int| spi_byte(buf[p / 8], p % 8))
}

fn scale(v: u8, brightness: u8) -> (r: u8)
    ensures
        r == scaled(v, brightness),
{
    assert(0 <= v * brightness <= 255 * 255) by (nonlinear_arith)
        requires
            0 <= v <= 255,
            0 <= brightness <= 255,
    ;
    ((2 * (v as u32 * brightness as u32) + 255) / 510) as u8
}

impl LedStrip {
    pub open spec fn wf(&self) -> bool {
        self.buf@.len() == 3 * LED_COUNT
    }

    /// A dark strip.
    pub fn new(brightness: u8) -> (r: Self)
        ensures
            r.wf(),
            r.brightness == brightness,
            forall|i: int| 0 <= i < r.buf@.len() ==> #[trigger] r.buf@[i] == 0,
    {
        LedStrip { buf: vec![0u8; 24], brightness }
    }

    /// Sets the colour of one LED.
    pub fn set(&mut self, index: usize, r: u8, g: u8, b: u8)
        requires
            old(self).wf(),
            index < LED_COUNT,
        ensures
            final(self).wf(),
            final(self).brightness == old(self).brightness,
            final(self).buf@ == old(self).buf@.update(
                3 * index,
                scaled(g, old(self).brightness),
            ).update(3 * index + 1, scaled(r, old(self).brightness)).update(
                3 * index + 2,
                scaled(b, old(self).brightness),
            ),
    {
        let s: u8 = self.brightness;
        self.buf.set(3 * index, scale(g, s));
        self.buf.set(3 * index + 1, scale(r, s));
        self.buf.set(3 * index + 2, scale(b, s));
    }

    /// Sets all LEDs to one colour.
    pub fn set_all(&mut self, r: u8, g: u8, b: u8)
        requires
            old(self).wf(),
        ensures
            final(self).wf(),
            final(self).brightness == old(self).brightness,
            forall|i: int|
                0 <= i < 24 ==> #[trigger] final(self).buf@[i] == scaled(
                    if i % 3 == 0 {
                        g
                    } else if i % 3 == 1 {
                        r
                    } else {
                        b
                    },
                    old(self).brightness,
                ),
    {
        let ghost s = self.brightness;
        let mut n: usize = 0;
        while n < LED_COUNT
            invariant
                n <= LED_COUNT,
                self.wf(),
                self.brightness == s,
                forall|i: int|
                    0 <= i < 3 * n ==> #[trigger] self.buf@[i] == scaled(
                        if i % 3 == 0 {
                            g
                        } else if i % 3 == 1 {
                            r
                        } else {
                            b
                        },
                        s,
                    ),
            decreases LED_COUNT - n,
        {
            self.set(n, r, g, b);
            n = n + 1;
        }
    }

    /// The bytes to send to show the colours.
    pub fn frame(&self) -> (r: Vec<u8>)
        requires
            self.wf(),
        ensures
            r@ == spi_frame(self.buf@),
    {
        let mut tx: Vec<u8> = Vec::new();
        let mut n: usize = 0;
        while n < 24
            invariant
                n <= 24,
                self.wf(),
                tx@.len() == 8 * n,
                forall|p: int| 0 <= p < tx@.len() ==> #[trigger] tx@[p] == spi_byte(
                    self.buf@[p / 8],
                    p % 8,
                ),
            decreases 24 - n,
        {
            let byte: u8 = self.buf[n];
            let mut k: u8 = 0;
            while k < 8
                invariant
                    k <= 8,
                    n < 24,
                    self.wf(),
                    byte == self.buf@[n as int],
                    tx@.len() == 8 * n + k,
                    forall|p: int| 0 <= p < tx@.len() ==> #[trigger] tx@[p] == spi_byte(
                        self.buf@[p / 8],
                        p % 8,
                    ),
                decreases 8 - k,
            {
                let shift: u8 = 7 - k;
                let v: u8 = if (byte >> shift) & 1 == 1 {
                    0xF8
                } else {
                    0x80
                };
                assert((8 * n + k) / 8 == n as int && (8 * n + k) % 8 == k as int);
                tx.push(v);
                k = k + 1;
            }
            n = n + 1;
        }
        assert(tx@ =~= spi_frame(self.buf@));
        tx
    }

    /// Turns all LEDs dark and returns the bytes to send.
    pub fn clear(&mut self) -> (r: Vec<u8>)
        requires
            old(self).wf(),
        ensures
            final(self).wf(),
            final(self).brightness == old(self).brightness,
            forall|i: int| 0 <= i < 24 ==> #[trigger] final(self).buf@[i] == 0,
            r@ == spi_frame(final(self).buf@),
    {
        let ghost s = self.brightness;
        self.set_all(0, 0, 0);
        assert(scaled(0, s) == 0) by {
            assert(0 * s == 0);
        }
        self.frame()
    }
}

/// At full brightness colours are sent as they are.
pub proof fn law_full_brightness_is_exact(v: u8)
    ensures
        scaled(v, 255) == v,
{
}

/// A dimmed channel is the nearest to its share of the value: as much of it as the
/// brightness is of full.
pub proof fn law_dimming_is_proportional(v: u8, brightness: u8)
    ensures
        2 * v * brightness - 255 <= 510 * scaled(v, brightness) <= 2 * v * brightness + 255,
        scaled(v, brightness) <= v,
        scaled(v, 0) == 0,
{
    assert(v * brightness <= v * 255 && 0 <= v * brightness) by (nonlinear_arith)
        requires
            0 <= v,
            0 <= brightness <= 255,
    ;
    assert(2 * v * brightness == 2 * (v * brightness)) by (nonlinear_arith);
    assert(v * 0 == 0) by (nonlinear_arith);
}

/// A long pulse stands for a one, a short one for a nought, most significant bit first:
/// the eight bytes of a colour spell it.
pub proof fn law_pulses_spell_the_colour(buf: Seq<u8>, i: int)
    requires
        0 <= i < buf.len(),
    ensures
        spi_frame(buf).len() == 8 * buf.len(),
        forall|k: int|
            0 <= k < 8 ==> #[trigger] spi_frame(buf)[8 * i + k] == 0xF8 || spi_frame(buf)[8 * i + k]
                == 0x80,
        buf[i] == bit_of(spi_frame(buf)[8 * i]) * 128 + bit_of(spi_frame(buf)[8 * i + 1]) * 64
            + bit_of(spi_frame(buf)[8 * i + 2]) * 32 + bit_of(spi_frame(buf)[8 * i + 3]) * 16
            + bit_of(spi_frame(buf)[8 * i + 4]) * 8 + bit_of(spi_frame(buf)[8 * i + 5]) * 4 + bit_of(
            spi_frame(buf)[8 * i + 6],
        ) * 2 + bit_of(spi_frame(buf)[8 * i + 7]),
{
    let b = buf[i];
    assert forall|k: int| 0 <= k < 8 implies #[trigger] spi_frame(buf)[8 * i + k] == spi_byte(
        b,
        k,
    ) by {
        assert((8 * i + k) / 8 == i && (8 * i + k) % 8 == k);
    }
    assert(spi_frame(buf)[8 * i + 0] == spi_byte(b, 0));
    assert(b == ((b >> 7u8) & 1u8) * 128 + ((b >> 6u8) & 1u8) * 64 + ((b >> 5u8) & 1u8) * 32 + ((b
        >> 4u8) & 1u8) * 16 + ((b >> 3u8) & 1u8) * 8 + ((b >> 2u8) & 1u8) * 4 + ((b >> 1u8) & 1u8)
        * 2 + ((b >> 0u8) & 1u8)) by (bit_vector);
    assert(forall|s: u8| #[trigger] (b >> s) & 1u8 == 0 || (b >> s) & 1u8 == 1) by (bit_vector);
}

/// The bit that a pulse stands for.
pub open spec fn bit_of(pulse: u8) -> int {
    if pulse == 0xF8 {
        1
    } else {
        0
    }
}

} // verus!
