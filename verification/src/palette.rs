//! The colour registers of the decoder.

use crate::color::{
    blue_of, green_of, hls_to_rgb, hls_to_rgb_spec, pack_rgb, pack_rgb_spec, percent_to_byte,
    percent_to_byte_spec, red_of,
};
use crate::limits::SIXEL_PALETTE_MAX;
use vstd::prelude::*;

verus! {

/// Percentages of the sixteen base colours, in register order.
pub open spec fn base_percent(i: int) -> (int, int, int) {
    if i == 0 {
        (0, 0, 0)
    } else if i == 1 {
        (20, 20, 80)
    } else if i == 2 {
        (80, 13, 13)
    } else if i == 3 {
        (20, 80, 20)
    } else if i == 4 {
        (80, 20, 80)
    } else if i == 5 {
        (20, 80, 80)
    } else if i == 6 {
        (80, 80, 20)
    } else if i == 7 {
        (53, 53, 53)
    } else if i == 8 {
        (26, 26, 26)
    } else if i == 9 {
        (33, 33, 60)
    } else if i == 10 {
        (60, 26, 26)
    } else if i == 11 {
        (33, 60, 33)
    } else if i == 12 {
        (60, 33, 60)
    } else if i == 13 {
        (33, 60, 60)
    } else if i == 14 {
        (60, 60, 33)
    } else {
        (80, 80, 80)
    }
}

/// The packed colour of three percentages.
pub open spec fn percent_color(r: int, g: int, b: int) -> int {
    pack_rgb_spec(percent_to_byte_spec(r), percent_to_byte_spec(g), percent_to_byte_spec(b))
}

/// The colour that register `i` holds at the start: sixteen base
/// colours, a 6x6x6 cube in steps of 20 percent, then 24 grays.
pub open spec fn default_color(i: int) -> int {
    if i < 16 {
        let c = base_percent(i);
        percent_color(c.0, c.1, c.2)
    } else if i < 232 {
        let k = i - 16;
        percent_color((k / 36) * 20, ((k / 6) % 6) * 20, (k % 6) * 20)
    } else {
        let v = ((i - 232) * 100) / 23;
        percent_color(v, v, v)
    }
}

/// The registers as they are at the start.
pub open spec fn default_registers() -> Seq<u32> {
    Seq::new(SIXEL_PALETTE_MAX as nat, |i: int| default_color(i) as u32)
}

/// The register that an index selects: indices past the end select the
/// last one.
pub open spec fn clamp_register(index: int) -> int {
    if index >= SIXEL_PALETTE_MAX {
        SIXEL_PALETTE_MAX - 1
    } else {
        index
    }
}

/// The four bytes of an opaque pixel of a packed colour.
pub open spec fn opaque_pixel(color: int) -> Seq<u8> {
    seq![red_of(color) as u8, green_of(color) as u8, blue_of(color) as u8, 0xFFu8]
}

/// The four bytes of a fully transparent pixel.
pub open spec fn transparent_pixel() -> Seq<u8> {
    seq![0u8, 0u8, 0u8, 0u8]
}

/// The registers after `index` was given three percentages.
pub open spec fn set_rgb_percent_spec(regs: Seq<u32>, index: int, r: int, g: int, b: int) -> Seq<
    u32,
> {
    if 0 <= index < SIXEL_PALETTE_MAX {
        regs.update(index, percent_color(r, g, b) as u32)
    } else {
        regs
    }
}

/// The registers after `index` was given an HLS colour.
pub open spec fn set_hls_spec(regs: Seq<u32>, index: int, h: int, l: int, s: int) -> Seq<u32> {
    if 0 <= index < SIXEL_PALETTE_MAX {
        let c = hls_to_rgb_spec(h, l, s);
        regs.update(index, pack_rgb_spec(c.0, c.1, c.2) as u32)
    } else {
        regs
    }
}

/// 256 colour registers, each a packed 24-bit colour.
pub struct Palette {
    pub colors: [u32; 256],
}

impl View for Palette {
    type V = Seq<u32>;

    open spec fn view(&self) -> Seq<u32> {
        self.colors@
    }
}

fn base_color(i: usize) -> (out: (i32, i32, i32))
    requires
        i < 16,
    ensures
        (out.0 as int, out.1 as int, out.2 as int) == base_percent(i as int),
{
    if i == 0 {
        (0, 0, 0)
    } else if i == 1 {
        (20, 20, 80)
    } else if i == 2 {
        (80, 13, 13)
    } else if i == 3 {
        (20, 80, 20)
    } else if i == 4 {
        (80, 20, 80)
    } else if i == 5 {
        (20, 80, 80)
    } else if i == 6 {
        (80, 80, 20)
    } else if i == 7 {
        (53, 53, 53)
    } else if i == 8 {
        (26, 26, 26)
    } else if i == 9 {
        (33, 33, 60)
    } else if i == 10 {
        (60, 26, 26)
    } else if i == 11 {
        (33, 60, 33)
    } else if i == 12 {
        (60, 33, 60)
    } else if i == 13 {
        (33, 60, 60)
    } else if i == 14 {
        (60, 60, 33)
    } else {
        (80, 80, 80)
    }
}

impl Palette {
    /// The registers at the start of every image.
    pub fn new() -> (out: Palette)
        ensures
            out@ == default_registers(),
    {
        let mut colors: [u32; 256] = [0u32; 256];
        let mut i: usize = 0;
        while i < 16
            invariant
                i <= 16,
                forall|j: int| 0 <= j < i ==> colors@[j] == default_color(j),
            decreases 16 - i,
        {
            let c = base_color(i);
            colors[i] = pack_rgb(percent_to_byte(c.0), percent_to_byte(c.1), percent_to_byte(c.2));
            i += 1;
        }
        let mut k: usize = 0;
        while k < 216
            invariant
                k <= 216,
                forall|j: int| 0 <= j < 16 + k ==> colors@[j] == default_color(j),
            decreases 216 - k,
        {
            let r: i32 = (k / 36) as i32;
            let g: i32 = ((k / 6) % 6) as i32;
            let b: i32 = (k % 6) as i32;
            colors[16 + k] = pack_rgb(
                percent_to_byte(r * 20),
                percent_to_byte(g * 20),
                percent_to_byte(b * 20),
            );
            k += 1;
        }
        let mut level: usize = 0;
        while level < 24
            invariant
                level <= 24,
                forall|j: int| 0 <= j < 232 + level ==> colors@[j] == default_color(j),
            decreases 24 - level,
        {
            let value = percent_to_byte(((level * 100) / 23) as i32);
            colors[232 + level] = pack_rgb(value, value, value);
            level += 1;
        }
        let out = Palette { colors };
        assert(out@ =~= default_registers());
        out
    }

    /// The RGBA bytes of a register, always opaque. Indices past the end
    /// read the last register.
    pub fn rgb_bytes(&self, index: usize) -> (out: [u8; 4])
        ensures
            out@ == opaque_pixel(self@[clamp_register(index as int)] as int),
    {
        let slot: usize = if index >= SIXEL_PALETTE_MAX {
            SIXEL_PALETTE_MAX - 1
        } else {
            index
        };
        let color: u32 = self.colors[slot];
        let out: [u8; 4] = [
            ((color / 65536) % 256) as u8,
            ((color / 256) % 256) as u8,
            (color % 256) as u8,
            0xFF,
        ];
        assert(out@ =~= opaque_pixel(color as int));
        out
    }

    /// Gives a register the colour of three percentages; an index past
    /// the end changes nothing.
    pub fn set_rgb_percent(&mut self, index: usize, r: i32, g: i32, b: i32)
        ensures
            final(self)@ == set_rgb_percent_spec(
                old(self)@,
                index as int,
                r as int,
                g as int,
                b as int,
            ),
    {
        let red = percent_to_byte(r);
        let green = percent_to_byte(g);
        let blue = percent_to_byte(b);
        if index < SIXEL_PALETTE_MAX {
            self.colors[index] = pack_rgb(red, green, blue);
        }
    }

    /// Gives a register an HLS colour; an index past the end changes
    /// nothing.
    pub fn set_hls(&mut self, index: usize, h: i32, l: i32, s: i32)
        ensures
            final(self)@ == set_hls_spec(old(self)@, index as int, h as int, l as int, s as int),
    {
        if index >= SIXEL_PALETTE_MAX {
            return ;
        }
        let rgb = hls_to_rgb(h, l, s);
        self.colors[index] = pack_rgb(rgb[0], rgb[1], rgb[2]);
    }
}

} // verus!
