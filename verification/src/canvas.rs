//! A plain RGBA pixel buffer and the alpha-blending rule used when
//! compositing glyph coverage onto it.

use vstd::prelude::*;

verus! {

/// One pixel, 8 bits per channel.
#[derive(Clone, Copy, PartialEq, Eq, Structural, Debug)]
pub struct Rgba {
    pub r: u8,
    pub g: u8,
    pub b: u8,
    pub a: u8,
}

/// Source-over blending of one channel: the draw color `s` weighted by
/// the coverage `c / 255` over the existing value `d`, rounded to nearest.
pub open spec fn blend_channel(d: u8, s: u8, c: u8) -> u8 {
    (((d * (255 - c) + s * c + 127) / 255) as u8)
}

/// Source-over blending of a whole pixel with coverage `c / 255`; the
/// alpha channel is blended like the color channels.
pub open spec fn blend(d: Rgba, s: Rgba, c: u8) -> Rgba {
    Rgba {
        r: blend_channel(d.r, s.r, c),
        g: blend_channel(d.g, s.g, c),
        b: blend_channel(d.b, s.b, c),
        a: blend_channel(d.a, s.a, c),
    }
}

fn blend_channel_exec(d: u8, s: u8, c: u8) -> (r: u8)
    ensures
        r == blend_channel(d, s, c),
{
    proof {
        assert(d * (255 - c) + s * c <= 255 * 255) by (nonlinear_arith)
            requires
                d <= 255,
                s <= 255,
                c <= 255,
        ;
    }
    let v: u32 = (d as u32) * (255 - c as u32) + (s as u32) * (c as u32) + 127;
    (v / 255) as u8
}

pub fn blend_exec(d: Rgba, s: Rgba, c: u8) -> (r: Rgba)
    ensures
        r == blend(d, s, c),
{
    Rgba {
        r: blend_channel_exec(d.r, s.r, c),
        g: blend_channel_exec(d.g, s.g, c),
        b: blend_channel_exec(d.b, s.b, c),
        a: blend_channel_exec(d.a, s.a, c),
    }
}

/// A `width` x `height` pixel buffer, row-major: the pixel at `(x, y)`
/// is `pixels[y * width + x]`.
pub struct Canvas {
    pub width: u32,
    pub height: u32,
    pub pixels: Vec<Rgba>,
}

impl Canvas {
    pub open spec fn wf(self) -> bool {
        &&& self.pixels@.len() == self.width * self.height
        &&& self.width * self.height <= 0x4000_0000
    }

    /// A fresh canvas with every pixel set to `background`.
    pub fn new(width: u32, height: u32, background: Rgba) -> (r: Canvas)
        requires
            width * height <= 0x4000_0000,
        ensures
            r.wf(),
            r.width == width,
            r.height == height,
            forall|i: int| 0 <= i < r.pixels@.len() ==> r.pixels@[i] == background,
    {
        let n: usize = (width as usize) * (height as usize);
        let mut pixels: Vec<Rgba> = Vec::new();
        while pixels.len() < n
            invariant
                n == width * height,
                pixels@.len() <= n,
                forall|i: int| 0 <= i < pixels@.len() ==> pixels@[i] == background,
            decreases n - pixels@.len(),
        {
            pixels.push(background);
        }
        Canvas { width, height, pixels }
    }

    pub fn get_pixel(&self, x: u32, y: u32) -> (r: Rgba)
        requires
            self.wf(),
            x < self.width,
            y < self.height,
        ensures
            r == self.pixels@[y * self.width + x],
    {
        proof {
            assert(y * self.width + x < self.width * self.height) by (nonlinear_arith)
                requires
                    x < self.width,
                    y < self.height,
            ;
        }
        self.pixels[(y as usize) * (self.width as usize) + (x as usize)]
    }

    /// Overwrite the pixel at linear index `idx`.
    pub fn put_pixel_at(&mut self, idx: usize, p: Rgba)
        requires
            idx < old(self).pixels@.len(),
        ensures
            final(self).width == old(self).width,
            final(self).height == old(self).height,
            final(self).pixels@ == old(self).pixels@.update(idx as int, p),
    {
        let slot = &mut self.pixels[idx];
        *slot = p;
    }
}

} // verus!
