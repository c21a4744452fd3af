//! Decoded images: grids of RGBA pixels.

use vstd::prelude::*;

verus! {

/// One pixel: red, green, blue and opacity.
#[derive(Clone, Copy, Debug, PartialEq, Eq, Structural)]
pub struct Rgba {
    pub red: u8,
    pub green: u8,
    pub blue: u8,
    pub alpha: u8,
}

/// What a raster is: its dimensions and its pixels, row after row from the
/// top, each row from the left.
pub ghost struct RasterView {
    pub width: int,
    pub height: int,
    pub pixels: Seq<Rgba>,
}

impl RasterView {
    /// There is one pixel for each place of the grid.
    pub open spec fn well_formed(self) -> bool {
        &&& 0 <= self.width
        &&& 0 <= self.height
        &&& self.pixels.len() == self.width * self.height
    }

    /// The pixel in column `x` of row `y`.
    pub open spec fn pixel(self, x: int, y: int) -> Rgba {
        self.pixels[y * self.width + x]
    }
}

/// A grid of `width` by `height` RGBA pixels.
#[derive(Debug, PartialEq, Eq)]
pub struct Raster {
    width: u32,
    height: u32,
    pixels: Vec<Rgba>,
}

impl View for Raster {
    type V = RasterView;

    closed spec fn view(&self) -> RasterView {
        RasterView { width: self.width as int, height: self.height as int, pixels: self.pixels@ }
    }
}

impl Clone for Raster {
    fn clone(&self) -> (copy: Self)
        ensures
            copy@ == self@,
    {
        proof {
            use_type_invariant(self);
        }
        let pixels: Vec<Rgba> = self.pixels.clone();
        assert(pixels@ =~= self.pixels@);
        Raster { width: self.width, height: self.height, pixels }
    }
}

impl Raster {
    #[verifier::type_invariant]
    spec fn grid_is_full(self) -> bool {
        self.pixels@.len() == self.width * self.height
    }

    /// The raster of the given dimensions that holds `pixels` row after row.
    pub(crate) fn assemble(width: u32, height: u32, pixels: Vec<Rgba>) -> (raster: Raster)
        requires
            pixels@.len() == width * height,
        ensures
            raster@ == (RasterView { width: width as int, height: height as int, pixels: pixels@ }),
            raster@.well_formed(),
    {
        Raster { width, height, pixels }
    }

    /// The raster of the given dimensions that holds `pixels` row after row,
    /// or `None` where `pixels` does not hold one pixel for each place.
    pub fn from_pixels(width: u32, height: u32, pixels: Vec<Rgba>) -> (raster: Option<Raster>)
        ensures
            pixels@.len() == width * height ==> raster is Some && raster.unwrap()@ == (RasterView {
                width: width as int,
                height: height as int,
                pixels: pixels@,
            }),
            pixels@.len() != width * height ==> raster is None,
    {
        assert(width * height <= u32::MAX * u32::MAX) by (nonlinear_arith)
            requires
                0 <= width <= u32::MAX,
                0 <= height <= u32::MAX,
        ;
        let places: u64 = width as u64 * height as u64;
        if pixels.len() as u64 == places {
            Some(Raster::assemble(width, height, pixels))
        } else {
            None
        }
    }

    /// The number of columns.
    pub fn width(&self) -> (width: u32)
        ensures
            width == self@.width,
            self@.well_formed(),
    {
        proof {
            use_type_invariant(self);
        }
        self.width
    }

    /// The number of rows.
    pub fn height(&self) -> (height: u32)
        ensures
            height == self@.height,
            self@.well_formed(),
    {
        proof {
            use_type_invariant(self);
        }
        self.height
    }

    /// The pixels, row after row from the top.
    pub fn pixels(&self) -> (pixels: &[Rgba])
        ensures
            pixels@ == self@.pixels,
            self@.well_formed(),
    {
        proof {
            use_type_invariant(self);
        }
        self.pixels.as_slice()
    }

    /// The pixel in column `x` of row `y`, or `None` outside the grid.
    pub fn pixel(&self, x: u32, y: u32) -> (pixel: Option<Rgba>)
        ensures
            self@.well_formed(),
            x < self@.width && y < self@.height ==> pixel == Some(self@.pixel(x as int, y as int)),
            !(x < self@.width && y < self@.height) ==> pixel is None,
    {
        proof {
            use_type_invariant(self);
        }
        if x >= self.width || y >= self.height {
            return None;
        }
        let count: usize = self.pixels.len();
        assert(y * self.width + x < self.width * self.height) by (nonlinear_arith)
            requires
                x < self.width,
                y < self.height,
        ;
        assert(y * self.width <= u32::MAX * u32::MAX) by (nonlinear_arith)
            requires
                y <= u32::MAX,
                self.width <= u32::MAX,
        ;
        let place: u64 = y as u64 * self.width as u64 + x as u64;
        assert(place < count);
        Some(self.pixels[place as usize])
    }

    /// The pixels as bytes, four for each pixel: red, green, blue, opacity.
    pub fn to_rgba_bytes(&self) -> (bytes: Vec<u8>)
        ensures
            bytes@.len() == 4 * self@.pixels.len(),
            forall|i: int|
                0 <= i < self@.pixels.len() ==> {
                    &&& bytes@[4 * i] == (#[trigger] self@.pixels[i]).red
                    &&& bytes@[4 * i + 1] == self@.pixels[i].green
                    &&& bytes@[4 * i + 2] == self@.pixels[i].blue
                    &&& bytes@[4 * i + 3] == self@.pixels[i].alpha
                },
    {
        let mut bytes: Vec<u8> = Vec::new();
        let count: usize = self.pixels.len();
        let mut place: usize = 0;
        while place < count
            invariant
                place <= count,
                count == self.pixels@.len(),
                bytes@.len() == 4 * place,
                forall|i: int|
                    0 <= i < place ==> {
                        &&& bytes@[4 * i] == (#[trigger] self.pixels@[i]).red
                        &&& bytes@[4 * i + 1] == self.pixels@[i].green
                        &&& bytes@[4 * i + 2] == self.pixels@[i].blue
                        &&& bytes@[4 * i + 3] == self.pixels@[i].alpha
                    },
            decreases count - place,
        {
            let pixel: Rgba = self.pixels[place];
            bytes.push(pixel.red);
            bytes.push(pixel.green);
            bytes.push(pixel.blue);
            bytes.push(pixel.alpha);
            place = place + 1;
        }
        bytes
    }
}

} // verus!
