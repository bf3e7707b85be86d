//! Color values for tile borders and labels: ARGB colors parsed from hex
//! strings, and opacity expressed in percent.

use vstd::prelude::*;

verus! {

/// Whether the character is a hexadecimal digit.
pub open spec fn is_hex_digit(c: char) -> bool {
    (48 <= c as u32 && c as u32 <= 57) || (97 <= c as u32 && c as u32 <= 102) || (65 <= c as u32
        && c as u32 <= 70)
}

/// The value of a hexadecimal digit (meaningful only for hex digits).
pub open spec fn hex_digit_value(c: char) -> int {
    if 48 <= c as u32 && c as u32 <= 57 {
        c as u32 - 48
    } else if 97 <= c as u32 && c as u32 <= 102 {
        c as u32 - 97 + 10
    } else {
        c as u32 - 65 + 10
    }
}

/// Whether every character of the sequence is a hexadecimal digit.
pub open spec fn all_hex(s: Seq<char>) -> bool {
    forall|i: int| 0 <= i < s.len() ==> is_hex_digit(#[trigger] s[i])
}

/// The big-endian numeric value of a sequence of hexadecimal digits.
pub open spec fn hex_value(s: Seq<char>) -> int
    decreases s.len(),
{
    if s.len() == 0 {
        0
    } else {
        hex_value(s.drop_last()) * 16 + hex_digit_value(s.last())
    }
}

/// Powers of 16, for bounding hex values.
pub open spec fn pow16(n: nat) -> int
    decreases n,
{
    if n == 0 {
        1
    } else {
        16 * pow16((n - 1) as nat)
    }
}

proof fn lemma_hex_value_bound(s: Seq<char>)
    requires
        all_hex(s),
    ensures
        0 <= hex_value(s) < pow16(s.len()),
    decreases s.len(),
{
    if s.len() > 0 {
        lemma_hex_value_bound(s.drop_last());
        assert(is_hex_digit(s.last()));
        assert(0 <= hex_digit_value(s.last()) <= 15);
    }
}

proof fn lemma_pow16_mono(a: nat, b: nat)
    requires
        a <= b,
    ensures
        pow16(a) <= pow16(b),
    decreases b,
{
    if a < b && b > 0 {
        lemma_pow16_mono(a, (b - 1) as nat);
        assert(pow16((b - 1) as nat) >= 1) by {
            lemma_pow16_mono(0, (b - 1) as nat);
        }
    }
}

/// The digits of a color string: one leading '#' is accepted and skipped.
pub open spec fn color_digits(s: Seq<char>) -> Seq<char> {
    if s.len() > 0 && s[0] == '#' {
        s.skip(1)
    } else {
        s
    }
}

/// What parsing a hex color string yields: 8 hex digits are AARRGGBB; 6 hex
/// digits are RRGGBB with full opacity; anything else is rejected.
pub open spec fn parsed_color(s: Seq<char>) -> Option<u32> {
    let d = color_digits(s);
    if d.len() == 8 && all_hex(d) {
        Some(hex_value(d) as u32)
    } else if d.len() == 6 && all_hex(d) {
        Some((0xFF000000 + hex_value(d)) as u32)
    } else {
        None
    }
}

/// The alpha channel of an ARGB color (0-255).
pub open spec fn argb_a(c: u32) -> u32 {
    c / 0x1000000
}

/// The red channel of an ARGB color (0-255).
pub open spec fn argb_r(c: u32) -> u32 {
    (c / 0x10000) % 0x100
}

/// The green channel of an ARGB color (0-255).
pub open spec fn argb_g(c: u32) -> u32 {
    (c / 0x100) % 0x100
}

/// The blue channel of an ARGB color (0-255).
pub open spec fn argb_b(c: u32) -> u32 {
    c % 0x100
}

/// An ARGB color, 8 bits per channel.
#[derive(Debug, Clone, Copy, PartialEq, Eq, Structural)]
pub struct HexColor {
    argb: u32,
}

/// A color in the rendering system's representation: 16 bits per channel,
/// where each 8-bit channel is widened by repetition (multiplied by 257).
#[derive(Debug, Clone, Copy, PartialEq, Eq, Structural)]
pub struct RenderColor {
    pub red: u16,
    pub green: u16,
    pub blue: u16,
    pub alpha: u16,
}

impl HexColor {
    /// The packed 32-bit ARGB value.
    pub closed spec fn value(&self) -> u32 {
        self.argb
    }

    pub fn from_argb32(argb: u32) -> (r: Self)
        ensures
            r.value() == argb,
    {
        Self { argb }
    }

    /// The packed 32-bit ARGB value.
    pub fn argb32(&self) -> (r: u32)
        ensures
            r == self.value(),
    {
        self.argb
    }

    /// Parse "#AARRGGBB", "AARRGGBB", "#RRGGBB" or "RRGGBB"; a 6-digit color
    /// gets full opacity. Anything else is rejected.
    pub fn parse(s: &str) -> (r: Option<Self>)
        ensures
            r matches Some(c) ==> parsed_color(s@) == Some(c.value()),
            r is None ==> parsed_color(s@) is None,
    {
        let len = s.unicode_len();
        let mut start: usize = 0;
        if len > 0 && s.get_char(0) == '#' {
            start = 1;
        }
        let digits = len - start;
        let ghost d = color_digits(s@);
        proof {
            if start == 1 {
                assert(d =~= s@.skip(1));
            } else {
                assert(d =~= s@);
            }
        }
        if digits != 6 && digits != 8 {
            assert(d.len() != 6 && d.len() != 8);
            assert(parsed_color(s@) is None);
            return None;
        }
        let mut value: u32 = 0;
        let mut i: usize = start;
        while i < len
            invariant
                len == s@.len(),
                start <= i <= len,
                start <= 1,
                len - start == 6 || len - start == 8,
                d == color_digits(s@),
                d.len() == len - start,
                forall|k: int| 0 <= k < d.len() ==> d[k] == s@[k + start],
                all_hex(d.take(i - start)),
                value == hex_value(d.take(i - start)),
            decreases len - i,
        {
            let c = s.get_char(i);
            let cv = c as u32;
            let digit: u32 = if cv >= 48 && cv <= 57 {
                cv - 48
            } else if cv >= 97 && cv <= 102 {
                cv - 97 + 10
            } else if cv >= 65 && cv <= 70 {
                cv - 65 + 10
            } else {
                assert(d[i - start] == s@[i as int]);
                assert(!is_hex_digit(d[i - start]));
                assert(!all_hex(d));
                assert(parsed_color(s@) is None);
                return None;
            };
            proof {
                assert(d.take(i - start + 1).drop_last() =~= d.take(i - start));
                assert(d.take(i - start + 1).last() == s@[i as int]);
                assert(is_hex_digit(s@[i as int]));
                assert(digit == hex_digit_value(s@[i as int]));
                lemma_hex_value_bound(d.take(i - start + 1));
                lemma_pow16_mono((i - start + 1) as nat, 8);
                assert(pow16(0) == 1);
                assert(pow16(1) == 16);
                assert(pow16(2) == 256);
                assert(pow16(3) == 0x1000);
                assert(pow16(4) == 0x10000);
                assert(pow16(5) == 0x100000);
                assert(pow16(6) == 0x1000000);
                assert(pow16(7) == 0x10000000);
                assert(pow16(8) == 0x100000000);
            }
            value = value * 16 + digit;
            i = i + 1;
        }
        proof {
            assert(d.take(len - start) =~= d);
            lemma_hex_value_bound(d);
            lemma_pow16_mono(6, 8);
            assert(pow16(0) == 1);
            assert(pow16(1) == 16);
            assert(pow16(2) == 256);
            assert(pow16(3) == 0x1000);
            assert(pow16(4) == 0x10000);
            assert(pow16(5) == 0x100000);
            assert(pow16(6) == 0x1000000);
            assert(pow16(7) == 0x10000000);
            assert(pow16(8) == 0x100000000);
        }
        if digits == 6 {
            Some(Self { argb: 0xFF000000u32 + value })
        } else {
            Some(Self { argb: value })
        }
    }

    /// Widen each channel to the rendering system's 16-bit form.
    pub fn to_x11_color(&self) -> (r: RenderColor)
        ensures
            r.red == argb_r(self.value()) * 257,
            r.green == argb_g(self.value()) * 257,
            r.blue == argb_b(self.value()) * 257,
            r.alpha == argb_a(self.value()) * 257,
    {
        let red = ((self.argb / 0x10000) % 0x100) as u16 * 257;
        let green = ((self.argb / 0x100) % 0x100) as u16 * 257;
        let blue = (self.argb % 0x100) as u16 * 257;
        let alpha = (self.argb / 0x1000000) as u16 * 257;
        RenderColor { red, green, blue, alpha }
    }
}

/// Tile opacity as a percentage (0-100).
#[derive(Debug, Clone, Copy, PartialEq, Eq, Structural)]
pub struct Opacity {
    percent: u8,
}

impl Opacity {
    /// The percentage this opacity stands for.
    pub closed spec fn as_percent(&self) -> u8 {
        self.percent
    }

    /// An opacity percentage never exceeds 100.
    pub closed spec fn wf(&self) -> bool {
        self.percent <= 100
    }

    /// Opacity from a percentage; values over 100 are clamped.
    pub fn from_percent(percent: u8) -> (r: Self)
        ensures
            r.wf(),
            r.as_percent() == if percent > 100 {
                100 as u8
            } else {
                percent
            },
    {
        Self { percent: if percent > 100 {
            100
        } else {
            percent
        } }
    }

    /// Opacity from the alpha channel of a packed ARGB value.
    pub fn from_argb32(argb: u32) -> (r: Self)
        ensures
            r.wf(),
            r.as_percent() == argb_a(argb) * 100 / 255,
    {
        let alpha = argb / 0x1000000;
        assert(alpha <= 255) by (nonlinear_arith)
            requires
                alpha == argb / 0x1000000,
                argb <= 0xFFFFFFFFu32,
        ;
        let percent = (alpha * 100 / 255) as u8;
        Self { percent }
    }

    pub fn percent(&self) -> (r: u8)
        ensures
            r == self.as_percent(),
    {
        self.percent
    }

    /// The packed ARGB value with this opacity in the alpha channel: the
    /// percentage scaled to 0-255, truncating.
    pub fn to_argb32(&self) -> (r: u32)
        requires
            self.wf(),
        ensures
            r == (self.as_percent() as int) * 255 / 100 * 0x1000000,
    {
        (self.percent as u32 * 255 / 100) * 0x1000000
    }
}

} // verus!
