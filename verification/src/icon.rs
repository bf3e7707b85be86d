//! Pixel-format conversions for tray icon data: decoded RGBA or RGB bytes
//! into the ARGB byte order the tray expects. Complete pixels only; trailing
//! bytes of an incomplete pixel are dropped.

use vstd::prelude::*;

verus! {

/// RGBA bytes reordered to ARGB, pixel by pixel.
pub open spec fn rgba_as_argb(s: Seq<u8>) -> Seq<u8> {
    Seq::new(
        (s.len() / 4) * 4,
        |i: int|
            if i % 4 == 0 {
                s[(i / 4) * 4 + 3]
            } else {
                s[(i / 4) * 4 + (i % 4) - 1]
            },
    )
}

/// RGB bytes widened to ARGB with full alpha, pixel by pixel.
pub open spec fn rgb_as_argb(s: Seq<u8>) -> Seq<u8> {
    Seq::new(
        (s.len() / 3) * 4,
        |i: int|
            if i % 4 == 0 {
                0xFFu8
            } else {
                s[(i / 4) * 3 + (i % 4) - 1]
            },
    )
}

/// Reorder decoded RGBA pixel bytes into ARGB order.
pub fn convert_rgba_to_argb(raw: &[u8]) -> (r: Vec<u8>)
    ensures
        r@ == rgba_as_argb(raw@),
{
    let len = raw.len();
    let n = len / 4;
    let mut out: Vec<u8> = Vec::new();
    let mut p: usize = 0;
    while p < n
        invariant
            len == raw@.len(),
            n == raw@.len() / 4,
            n * 4 <= raw@.len(),
            p <= n,
            out@.len() == p * 4,
            forall|i: int| 0 <= i < p * 4 ==> out@[i] == rgba_as_argb(raw@)[i],
        decreases n - p,
    {
        proof {
            assert(4 * (p as int) + 3 < 4 * (n as int));
        }
        let red = raw[4 * p];
        let green = raw[4 * p + 1];
        let blue = raw[4 * p + 2];
        let alpha = raw[4 * p + 3];
        out.push(alpha);
        out.push(red);
        out.push(green);
        out.push(blue);
        proof {
            assert forall|i: int| 0 <= i < (p + 1) * 4 implies out@[i] == rgba_as_argb(raw@)[i] by {
                if i >= p * 4 {
                    assert(i / 4 == p as int);
                    assert(i % 4 == i - p * 4);
                }
            }
        }
        p = p + 1;
    }
    proof {
        assert(out@ =~= rgba_as_argb(raw@));
    }
    out
}

/// Widen decoded RGB pixel bytes into ARGB order with full alpha.
pub fn convert_rgb_to_argb(raw: &[u8]) -> (r: Vec<u8>)
    ensures
        r@ == rgb_as_argb(raw@),
{
    let len = raw.len();
    let n = len / 3;
    let mut out: Vec<u8> = Vec::new();
    let mut p: usize = 0;
    while p < n
        invariant
            len == raw@.len(),
            n == raw@.len() / 3,
            n * 3 <= raw@.len(),
            p <= n,
            out@.len() == p * 4,
            forall|i: int| 0 <= i < p * 4 ==> out@[i] == rgb_as_argb(raw@)[i],
        decreases n - p,
    {
        proof {
            assert(3 * (p as int) + 2 < 3 * (n as int));
        }
        let red = raw[3 * p];
        let green = raw[3 * p + 1];
        let blue = raw[3 * p + 2];
        out.push(0xFF);
        out.push(red);
        out.push(green);
        out.push(blue);
        proof {
            assert forall|i: int| 0 <= i < (p + 1) * 4 implies out@[i] == rgb_as_argb(raw@)[i] by {
                if i >= p * 4 {
                    assert(i / 4 == p as int);
                    assert(i % 4 == i - p * 4);
                }
            }
        }
        p = p + 1;
    }
    proof {
        assert(out@ =~= rgb_as_argb(raw@));
    }
    out
}

} // verus!
