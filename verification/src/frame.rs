//! The rendering boundary: dimension negotiation, the fixed-capacity RGBA
//! framebuffer, and the step that turns the tracer's findings into pixels.

use vstd::prelude::*;
use crate::colorspace;
use crate::colorspace::hsv_rgb;
use crate::ratio::Ratio;

verus! {

/// Width of the framebuffer, in pixels.
pub const STATIC_WIDTH: usize = 1024;

/// Height of the framebuffer, in pixels.
pub const STATIC_HEIGHT: usize = 768;

/// Number of pixels that the framebuffer holds.
pub const CAPACITY: usize = 786432;

/// The value that every hit is shaded with.
pub const HIT_VALUE: u8 = 100;

/// The dimensions that `set_dimensions` selects for a preferred size.
pub open spec fn negotiated(preferred_width: i32, preferred_height: i32) -> (i32, i32) {
    if preferred_width < STATIC_WIDTH && preferred_height < STATIC_HEIGHT {
        (preferred_width, preferred_height)
    } else {
        (1024i32, 768i32)
    }
}

/// Chooses the frame size for a host: the preferred size where both of its
/// dimensions are strictly below the framebuffer's, the framebuffer's own
/// size otherwise. The resolution hint and the bounds take no part.
pub fn set_dimensions(
    dpi: i32,
    min_width: i32,
    min_height: i32,
    preferred_width: i32,
    preferred_height: i32,
    max_width: i32,
    max_height: i32,
) -> (size: (i32, i32))
    ensures
        size == negotiated(preferred_width, preferred_height),
{
    if preferred_width < STATIC_WIDTH as i32 && preferred_height < STATIC_HEIGHT as i32 {
        (preferred_width, preferred_height)
    } else {
        (STATIC_WIDTH as i32, STATIC_HEIGHT as i32)
    }
}

/// One pixel: red, green, blue and opacity.
#[derive(Clone, Copy, Debug, PartialEq, Eq, Structural)]
pub struct Rgba {
    pub r: u8,
    pub g: u8,
    pub b: u8,
    pub a: u8,
}

/// The bytes that a sequence of pixels is stored as: four per pixel, in the
/// order red, green, blue, opacity.
pub open spec fn encode(pixels: Seq<Rgba>) -> Seq<u8> {
    Seq::new(
        4 * pixels.len(),
        |i: int|
            {
                let p = pixels[i / 4];
                if i % 4 == 0 {
                    p.r
                } else if i % 4 == 1 {
                    p.g
                } else if i % 4 == 2 {
                    p.b
                } else {
                    p.a
                }
            },
    )
}

/// A row-major RGBA image of `CAPACITY` pixels. A frame of a given width
/// keeps the pixel at column `x` of row `y` in cell `y * width + x`.
pub struct Framebuffer {
    bytes: Vec<u8>,
}

impl View for Framebuffer {
    type V = Seq<Rgba>;

    /// The pixels, cell by cell.
    closed spec fn view(&self) -> Seq<Rgba> {
        Seq::new(
            CAPACITY as nat,
            |k: int|
                Rgba {
                    r: self.bytes@[4 * k],
                    g: self.bytes@[4 * k + 1],
                    b: self.bytes@[4 * k + 2],
                    a: self.bytes@[4 * k + 3],
                },
        )
    }
}

impl Framebuffer {
    #[verifier::type_invariant]
    spec fn sized(self) -> bool {
        self.bytes@.len() == 4 * CAPACITY
    }

    /// A framebuffer always holds `CAPACITY` pixels.
    pub proof fn lemma_len(self)
        ensures
            self@.len() == CAPACITY,
    {
    }

    /// A framebuffer whose every pixel is transparent black.
    pub fn new() -> (buf: Framebuffer)
        ensures
            buf@.len() == CAPACITY,
            buf@ == Seq::new(CAPACITY as nat, |k: int| Rgba { r: 0, g: 0, b: 0, a: 0 }),
    {
        let bytes: Vec<u8> = vec![0u8; 4 * CAPACITY];
        let buf = Framebuffer { bytes };
        assert(buf@ =~= Seq::new(CAPACITY as nat, |k: int| Rgba { r: 0, g: 0, b: 0, a: 0 }));
        buf
    }

    /// The pixel in cell `index`, if there is such a cell.
    pub fn pixel(&self, index: usize) -> (p: Option<Rgba>)
        ensures
            p == if index < CAPACITY {
                Some(self@[index as int])
            } else {
                None
            },
    {
        proof {
            use_type_invariant(self);
        }
        if index < CAPACITY {
            Some(
                Rgba {
                    r: self.bytes[4 * index],
                    g: self.bytes[4 * index + 1],
                    b: self.bytes[4 * index + 2],
                    a: self.bytes[4 * index + 3],
                },
            )
        } else {
            None
        }
    }

    /// The stored bytes, as a host reads them.
    pub fn as_bytes(&self) -> (bytes: &Vec<u8>)
        ensures
            bytes@ == encode(self@),
    {
        proof {
            use_type_invariant(self);
            assert(self.bytes@ =~= encode(self@));
        }
        &self.bytes
    }
}

/// Writes one pixel of a frame that is `width` pixels wide: the one at column
/// `x` of row `y`. Every other pixel stays as it was.
pub fn set_px(buf: &mut Framebuffer, x: usize, y: usize, width: usize, r: u8, g: u8, b: u8, a: u8)
    requires
        y * width + x < CAPACITY,
    ensures
        old(buf)@.len() == CAPACITY,
        final(buf)@ == old(buf)@.update(y * width + x, Rgba { r, g, b, a }),
{
    proof {
        use_type_invariant(&*buf);
    }
    let cell: usize = y * width + x;
    buf.bytes[4 * cell] = r;
    buf.bytes[4 * cell + 1] = g;
    buf.bytes[4 * cell + 2] = b;
    buf.bytes[4 * cell + 3] = a;
    assert(buf@ =~= old(buf)@.update(cell as int, Rgba { r, g, b, a }));
}

/// Converts hue, saturation and value, each given in 255ths, to red, green
/// and blue in eight-bit channels; a hue of 255 is a full turn.
pub fn hsv_to_rgb(h: u8, s: u8, v: u8) -> (rgb: (u8, u8, u8))
    ensures
        rgb == hsv_rgb(h as int, 255, s as int, 255, v as int, 255),
{
    colorspace::hsv_to_rgb(Ratio::from_byte(h), Ratio::from_byte(s), Ratio::from_byte(v))
}

/// What the tracer found along the ray of one pixel.
#[derive(Clone, Copy, Debug, PartialEq, Eq, Structural)]
pub enum Sample {
    /// The ray left the scene without meeting a surface.
    Miss,
    /// The ray met a surface that faces the viewer with this intensity, from
    /// 0 for edge-on to 255 for head-on.
    Hit { intensity: u8 },
}

/// The pixel for a sample: opaque black for a miss; for a hit the opaque
/// colour of the frame's hue whose saturation is the intensity, at the
/// fixed value `HIT_VALUE`.
pub open spec fn shaded(hue: u8, sample: Sample) -> Rgba {
    match sample {
        Sample::Miss => Rgba { r: 0, g: 0, b: 0, a: 255 },
        Sample::Hit { intensity } => {
            let rgb = hsv_rgb(hue as int, 255, intensity as int, 255, HIT_VALUE as int, 255);
            Rgba { r: rgb.0, g: rgb.1, b: rgb.2, a: 255 }
        },
    }
}

/// Shades one sample.
pub fn shade(hue: u8, sample: Sample) -> (p: Rgba)
    ensures
        p == shaded(hue, sample),
{
    match sample {
        Sample::Miss => Rgba { r: 0, g: 0, b: 0, a: 255 },
        Sample::Hit { intensity } => {
            let (r, g, b) = hsv_to_rgb(hue, intensity, HIT_VALUE);
            Rgba { r, g, b, a: 255 }
        },
    }
}

/// Why a frame was not rendered.
#[derive(Clone, Copy, Debug, PartialEq, Eq, Structural)]
pub enum RenderError {
    /// A dimension is negative, or the frame has more pixels than the
    /// framebuffer.
    CapacityExceeded,
    /// The number of samples is not the number of pixels of the frame.
    SampleCount,
}

/// Whether a frame of these dimensions fits the framebuffer.
pub open spec fn fits(width: i32, height: i32) -> bool {
    0 <= width && 0 <= height && width * height <= CAPACITY
}

/// A framebuffer after a frame of `count` pixels was rendered into it: the
/// first `count` cells hold the shaded samples, the others what they held
/// before.
pub open spec fn rendered(before: Seq<Rgba>, hue: u8, count: int, samples: Seq<Sample>) -> Seq<
    Rgba,
> {
    Seq::new(
        before.len(),
        |k: int|
            if k < count {
                shaded(hue, samples[k])
            } else {
                before[k]
            },
    )
}

/// Renders a frame of `width` by `height` pixels: shades the sample of each
/// pixel with the frame's hue and writes it to the pixel's cell. The sample
/// of the pixel at column `x` of row `y` is `samples[y * width + x]`.
/// A frame that does not fit, or that comes with the wrong number of
/// samples, is refused and leaves the framebuffer as it was.
pub fn render(
    buf: &mut Framebuffer,
    hue: u8,
    width: i32,
    height: i32,
    samples: &Vec<Sample>,
) -> (res: Result<(), RenderError>)
    ensures
        old(buf)@.len() == CAPACITY,
        final(buf)@.len() == CAPACITY,
        res == if !fits(width, height) {
            Err::<(), RenderError>(RenderError::CapacityExceeded)
        } else if samples@.len() != width * height {
            Err::<(), RenderError>(RenderError::SampleCount)
        } else {
            Ok::<(), RenderError>(())
        },
        res is Err ==> final(buf)@ == old(buf)@,
        res is Ok ==> final(buf)@ == rendered(old(buf)@, hue, width * height, samples@),
{
    if width < 0 || height < 0 {
        return Err(RenderError::CapacityExceeded);
    }
    let w: usize = width as usize;
    let h: usize = height as usize;
    assert(0 <= w * h <= 0x4000_0000_0000_0000) by (nonlinear_arith)
        requires
            0 <= w < 0x8000_0000,
            0 <= h < 0x8000_0000,
    ;
    if (w as u64) * (h as u64) > CAPACITY as u64 {
        return Err(RenderError::CapacityExceeded);
    }
    let count: usize = w * h;
    if samples.len() != count {
        return Err(RenderError::SampleCount);
    }
    proof {
        buf.lemma_len();
    }
    let mut y: usize = 0;
    while y < h
        invariant
            0 <= y <= h,
            count == w * h,
            count <= CAPACITY,
            samples@.len() == count,
            buf@.len() == CAPACITY,
            old(buf)@.len() == CAPACITY,
            buf@ == rendered(old(buf)@, hue, y * w, samples@),
        decreases h - y,
    {
        let mut x: usize = 0;
        while x < w
            invariant
                0 <= x <= w,
                0 <= y < h,
                count == w * h,
                count <= CAPACITY,
                samples@.len() == count,
                buf@.len() == CAPACITY,
                old(buf)@.len() == CAPACITY,
                buf@ == rendered(old(buf)@, hue, y * w + x, samples@),
            decreases w - x,
        {
            assert(y * w + x < w * h) by (nonlinear_arith)
                requires
                    0 <= x < w,
                    0 <= y < h,
            ;
            let p = shade(hue, samples[y * w + x]);
            set_px(buf, x, y, w, p.r, p.g, p.b, p.a);
            assert(buf@ =~= rendered(old(buf)@, hue, y * w + x + 1, samples@));
            x = x + 1;
        }
        assert(y * w + w == (y + 1) * w) by (nonlinear_arith);
        y = y + 1;
    }
    assert(y * w == width * height) by (nonlinear_arith)
        requires
            y == height,
            w == width,
    ;
    Ok(())
}

} // verus!
