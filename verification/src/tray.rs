//! The system tray icon: a disc in the accent color on a transparent square.
use vstd::prelude::*;

verus! {

/// The icon's width and height in pixels.
pub const ICON_SIZE: u32 = 32;

/// Whether the pixel at column `x`, row `y` lies in the disc: its centre is at most 14
/// pixels from the icon's centre. With the pixel's centre at `(x + ½, y + ½)` and the
/// icon's at `(16, 16)`, that is `(2x − 31)² + (2y − 31)² ≤ 28²`.
pub open spec fn in_disc(x: int, y: int) -> bool {
    (2 * x - 31) * (2 * x - 31) + (2 * y - 31) * (2 * y - 31) <= 784
}

/// Byte `i` of the icon's RGBA pixels, row by row: inside the disc the accent color, fully
/// opaque; outside, transparent black.
pub open spec fn icon_byte(r: u8, g: u8, b: u8, i: int) -> u8 {
    let p = i / 4;
    if in_disc(p % 32, p / 32) {
        let c = i % 4;
        if c == 0 {
            r
        } else if c == 1 {
            g
        } else if c == 2 {
            b
        } else {
            255
        }
    } else {
        0
    }
}

/// The tray icon's pixels, 32 × 32 in RGBA.
pub fn tray_icon_rgba(r: u8, g: u8, b: u8) -> (rgba: Vec<u8>)
    ensures
        rgba.len() == 4096,
        forall|i: int| 0 <= i < 4096 ==> #[trigger] rgba[i] == icon_byte(r, g, b, i),
{
    let mut rgba: Vec<u8> = vec![0u8; 4096];
    let mut p: usize = 0;
    while p < 1024
        invariant
            rgba.len() == 4096,
            p <= 1024,
            forall|i: int| 0 <= i < 4096 ==> #[trigger] rgba[i] == if i / 4 < p {
                icon_byte(r, g, b, i)
            } else {
                0
            },
        decreases 1024 - p,
    {
        let x = (p % 32) as i64;
        let y = (p / 32) as i64;
        let dx = 2 * x - 31;
        let dy = 2 * y - 31;
        assert(0 <= dx * dx <= 1089 && 0 <= dy * dy <= 1089) by (nonlinear_arith)
            requires
                -31 <= dx <= 33,
                -31 <= dy <= 33,
        ;
        if dx * dx + dy * dy <= 784 {
            let idx = p * 4;
            rgba.set(idx, r);
            rgba.set(idx + 1, g);
            rgba.set(idx + 2, b);
            rgba.set(idx + 3, 255);
        }
        proof {
            assert forall|i: int| 0 <= i < 4096 implies #[trigger] rgba[i] == if i / 4 < p + 1 {
                icon_byte(r, g, b, i)
            } else {
                0
            } by {
                if i / 4 == p {
                    assert(i == 4 * p + i % 4);
                }
            }
        }
        p += 1;
    }
    rgba
}

} // verus!
