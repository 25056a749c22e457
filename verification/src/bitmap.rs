//! The decoded image that every transform consumes and produces.
use vstd::prelude::*;

verus! {

/// How the samples of one pixel are laid out in the buffer.
#[derive(Clone, Copy, PartialEq, Eq, Debug, Structural)]
pub enum Layout {
    /// One grey sample.
    Luma,
    /// Red, green, blue.
    Rgb,
    /// Red, green, blue, alpha.
    Rgba,
}

impl Layout {
    /// Samples per pixel.
    pub open spec fn samples(self) -> int {
        match self {
            Layout::Luma => 1,
            Layout::Rgb => 3,
            Layout::Rgba => 4,
        }
    }

    /// Samples per pixel.
    pub fn channels(self) -> (r: usize)
        ensures
            r == self.samples(),
    {
        match self {
            Layout::Luma => 1,
            Layout::Rgb => 3,
            Layout::Rgba => 4,
        }
    }
}

/// What a bitmap holds: its size, its layout and its samples, row by row.
pub struct BitmapView {
    pub width: int,
    pub height: int,
    pub layout: Layout,
    pub data: Seq<u8>,
}

impl BitmapView {
    /// Number of pixels.
    pub open spec fn pixels(self) -> int {
        self.width * self.height
    }

    /// The buffer holds exactly the samples of `width * height` pixels.
    pub open spec fn well_formed(self) -> bool {
        &&& 0 <= self.width <= u32::MAX
        &&& 0 <= self.height <= u32::MAX
        &&& self.data.len() == self.pixels() * self.layout.samples()
    }

    /// Channel `c` (0 red, 1 green, 2 blue) of pixel `p` once the bitmap is
    /// read as RGB: a grey sample stands for all three, alpha is left out.
    pub open spec fn rgb_sample(self, p: int, c: int) -> u8 {
        match self.layout {
            Layout::Luma => self.data[p],
            Layout::Rgb => self.data[3 * p + c],
            Layout::Rgba => self.data[4 * p + c],
        }
    }

    /// The samples of the bitmap read as RGB, three per pixel.
    pub open spec fn rgb_data(self) -> Seq<u8> {
        Seq::new((3 * self.pixels()) as nat, |k: int| self.rgb_sample(k / 3, k % 3))
    }

    /// Sample `c` (0 red, 1 green, 2 blue, 3 alpha) of pixel `p` once the
    /// bitmap is read as RGBA: a bitmap without alpha is opaque.
    pub open spec fn rgba_sample(self, p: int, c: int) -> u8 {
        if c < 3 {
            self.rgb_sample(p, c)
        } else {
            match self.layout {
                Layout::Rgba => self.data[4 * p + 3],
                _ => 255u8,
            }
        }
    }

    /// The samples of the bitmap read as RGBA, four per pixel.
    pub open spec fn rgba_data(self) -> Seq<u8> {
        Seq::new((4 * self.pixels()) as nat, |k: int| self.rgba_sample(k / 4, k % 4))
    }
}

/// `p < w * h` leaves room for every sample of pixel `p`.
pub proof fn lemma_sample_in_range(pixels: int, samples: int, p: int, c: int)
    by (nonlinear_arith)
    requires
        0 <= p < pixels,
        0 <= c < samples,
    ensures
        0 <= samples * p + c < pixels * samples,
{
}

/// A decoded image: 8 bits per sample, rows from the top, pixels from the left.
pub struct Bitmap {
    width: u32,
    height: u32,
    layout: Layout,
    data: Vec<u8>,
}

impl View for Bitmap {
    type V = BitmapView;

    closed spec fn view(&self) -> BitmapView {
        BitmapView {
            width: self.width as int,
            height: self.height as int,
            layout: self.layout,
            data: self.data@,
        }
    }
}

impl Bitmap {
    #[verifier::type_invariant]
    spec fn inv(self) -> bool {
        self.data@.len() == (self.width as int) * (self.height as int) * self.layout.samples()
    }

    /// A bitmap over `data`, if it holds exactly `width * height` pixels.
    pub fn new(width: u32, height: u32, layout: Layout, data: Vec<u8>) -> (r: Option<Bitmap>)
        ensures
            r.is_some() <==> data@.len() == width * height * layout.samples(),
            r matches Some(b) ==> b@ == (BitmapView {
                width: width as int,
                height: height as int,
                layout,
                data: data@,
            }) && b@.well_formed(),
    {
        assert(width * height <= 0xffff_ffff * 0xffff_ffff) by (nonlinear_arith)
            requires
                0 <= width <= 0xffff_ffff,
                0 <= height <= 0xffff_ffff,
        ;
        let pixels: u128 = (width as u128) * (height as u128);
        let want: u128 = pixels * (layout.channels() as u128);
        if data.len() as u128 == want {
            Some(Bitmap { width, height, layout, data })
        } else {
            None
        }
    }

    /// Width in pixels.
    pub fn width(&self) -> (r: u32)
        ensures
            r == self@.width,
            self@.well_formed(),
    {
        proof {
            use_type_invariant(self);
        }
        self.width
    }

    /// Height in pixels.
    pub fn height(&self) -> (r: u32)
        ensures
            r == self@.height,
            self@.well_formed(),
    {
        proof {
            use_type_invariant(self);
        }
        self.height
    }

    /// Layout of the samples.
    pub fn layout(&self) -> (r: Layout)
        ensures
            r == self@.layout,
    {
        self.layout
    }

    /// The samples.
    pub fn data(&self) -> (r: &Vec<u8>)
        ensures
            r@ == self@.data,
            self@.well_formed(),
    {
        proof {
            use_type_invariant(self);
        }
        &self.data
    }

    /// The samples, the bitmap given up.
    pub fn into_raw(self) -> (r: Vec<u8>)
        ensures
            r@ == self@.data,
    {
        self.data
    }

    /// Number of pixels.
    pub fn pixel_count(&self) -> (r: usize)
        ensures
            r == self@.pixels(),
            self@.well_formed(),
    {
        let len: usize = self.data.len();
        proof {
            use_type_invariant(self);
            let w = self.width as int;
            let h = self.height as int;
            let s = self.layout.samples();
            assert(w * h <= w * h * s) by (nonlinear_arith)
                requires
                    0 <= w,
                    0 <= h,
                    1 <= s,
            ;
            assert(w * h <= 0xffff_ffff * 0xffff_ffff) by (nonlinear_arith)
                requires
                    0 <= w <= 0xffff_ffff,
                    0 <= h <= 0xffff_ffff,
            ;
        }
        ((self.width as u64) * (self.height as u64)) as usize
    }

    /// The samples read as RGB, three per pixel.
    pub fn to_rgb8(&self) -> (r: Vec<u8>)
        ensures
            r@ == self@.rgb_data(),
            self@.well_formed(),
    {
        let n: usize = self.pixel_count();
        let step: usize = self.layout.channels();
        let mut out: Vec<u8> = Vec::new();
        let mut p: usize = 0;
        let len: usize = self.data.len();
        proof {
            use_type_invariant(self);
        }
        while p < n
            invariant
                p <= n,
                n == self@.pixels(),
                step == self@.layout.samples(),
                len == n * step,
                len == self.data@.len(),
                out@.len() == 3 * p,
                forall|k: int| 0 <= k < 3 * p ==> out@[k] == self@.rgb_sample(k / 3, k % 3),
            decreases n - p,
        {
            proof {
                lemma_sample_in_range(n as int, step as int, p as int, 0);
                lemma_sample_in_range(n as int, step as int, p as int, step - 1);
            }
            let base: usize = step * p;
            let r: u8 = self.data[base];
            let g: u8 = if step == 1 {
                r
            } else {
                self.data[base + 1]
            };
            let b: u8 = if step == 1 {
                r
            } else {
                self.data[base + 2]
            };
            out.push(r);
            out.push(g);
            out.push(b);
            p = p + 1;
        }
        assert(out@ =~= self@.rgb_data());
        out
    }

    /// The samples read as RGBA, four per pixel.
    pub fn to_rgba8(&self) -> (r: Vec<u8>)
        ensures
            r@ == self@.rgba_data(),
            self@.well_formed(),
    {
        let n: usize = self.pixel_count();
        let step: usize = self.layout.channels();
        let mut out: Vec<u8> = Vec::new();
        let mut p: usize = 0;
        let len: usize = self.data.len();
        proof {
            use_type_invariant(self);
        }
        while p < n
            invariant
                p <= n,
                n == self@.pixels(),
                step == self@.layout.samples(),
                len == n * step,
                len == self.data@.len(),
                out@.len() == 4 * p,
                forall|k: int| 0 <= k < 4 * p ==> out@[k] == self@.rgba_sample(k / 4, k % 4),
            decreases n - p,
        {
            proof {
                lemma_sample_in_range(n as int, step as int, p as int, 0);
                lemma_sample_in_range(n as int, step as int, p as int, step - 1);
            }
            let base: usize = step * p;
            let r: u8 = self.data[base];
            let g: u8 = if step == 1 {
                r
            } else {
                self.data[base + 1]
            };
            let b: u8 = if step == 1 {
                r
            } else {
                self.data[base + 2]
            };
            let a: u8 = if step == 4 {
                self.data[base + 3]
            } else {
                255
            };
            out.push(r);
            out.push(g);
            out.push(b);
            out.push(a);
            p = p + 1;
        }
        assert(out@ =~= self@.rgba_data());
        out
    }

    /// The RGBA bitmap of `width * height` pixels over `data`.
    pub fn from_rgba8(width: u32, height: u32, data: Vec<u8>) -> (r: Bitmap)
        requires
            data@.len() == 4 * (width * height),
        ensures
            r@ == (BitmapView {
                width: width as int,
                height: height as int,
                layout: Layout::Rgba,
                data: data@,
            }),
            r@.well_formed(),
    {
        assert(width * height * 4 == 4 * (width * height)) by (nonlinear_arith);
        Bitmap { width, height, layout: Layout::Rgba, data }
    }

    /// The grey bitmap of `width * height` pixels over `data`.
    pub fn from_luma8(width: u32, height: u32, data: Vec<u8>) -> (r: Bitmap)
        requires
            data@.len() == width * height,
        ensures
            r@ == (BitmapView {
                width: width as int,
                height: height as int,
                layout: Layout::Luma,
                data: data@,
            }),
            r@.well_formed(),
    {
        Bitmap { width, height, layout: Layout::Luma, data }
    }

    /// The RGB bitmap of `width * height` pixels over `data`.
    pub fn from_rgb8(width: u32, height: u32, data: Vec<u8>) -> (r: Bitmap)
        requires
            data@.len() == 3 * (width * height),
        ensures
            r@ == (BitmapView { width: width as int, height: height as int, layout: Layout::Rgb, data: data@ }),
            r@.well_formed(),
    {
        assert(width * height * 3 == 3 * (width * height)) by (nonlinear_arith);
        Bitmap { width, height, layout: Layout::Rgb, data }
    }
}

} // verus!
