//! Decoding one image record into a raster.
//!
//! A record is a header of 32 bytes and a payload. The payload holds the
//! colours of all pixels, three bytes each in the order blue, green, red, row
//! after row from the top; where the record carries opacity, one byte for
//! each pixel follows the colours. Rows always have an even number of pixels:
//! a record that declares an odd width holds one more column than it
//! declares.

use vstd::prelude::*;
use vstd::arithmetic::div_mod::{
    lemma_fundamental_div_mod, lemma_fundamental_div_mod_converse, lemma_mod_pos_bound,
};
use crate::bytes::{in_bounds, le_u16, le_u32};
use crate::cursor::ByteCursor;
use crate::error::ExtractError;
use crate::raster::{Raster, RasterView, Rgba};

verus! {

/// The size of the header of a record: checksum (4), reference count (4),
/// size of the payload (4), width (2), height (2), graphic mode (1), flags
/// (1), two bytes kept free, hotspot (2, 2), action point (2, 2) and the
/// colour key (4).
pub const RECORD_HEADER_SIZE: u64 = 32;

/// The bit of the flags that says that the record carries opacity.
pub const ALPHA_FLAG: u8 = 0x10;

/// The flags say that the record carries one byte of opacity for each pixel.
pub open spec fn has_alpha(flags: u8) -> bool {
    flags & ALPHA_FLAG == ALPHA_FLAG
}

/// The number of pixels in each row of a record that declares `declared`.
pub open spec fn even_width(declared: int) -> int {
    if declared % 2 == 1 {
        declared + 1
    } else {
        declared
    }
}

/// The number of bytes that hold the colours.
pub open spec fn color_region_size(width: int, height: int) -> int {
    width * height * 3
}

/// The rows of the opacity region are two bytes longer than the rows of the
/// image. This is taken to be so wherever the bytes behind the colours are
/// not exactly one for each pixel.
pub open spec fn has_stride_quirk(alpha: bool, payload_size: int, color_region: int) -> bool {
    alpha && payload_size - color_region != color_region / 3
}

/// The place, within the opacity region, of the opacity of the pixel in
/// column `x` of row `y`.
pub open spec fn alpha_place(width: int, x: int, y: int, quirk: bool) -> int {
    x + y * width + if quirk {
        2 * y
    } else {
        0
    }
}

/// The payload holds every byte that the pixels of the grid are read from.
pub open spec fn payload_suffices(payload_size: int, width: int, height: int, alpha: bool) -> bool {
    let region = color_region_size(width, height);
    let quirk = has_stride_quirk(alpha, payload_size, region);
    width * height == 0 || (region <= payload_size && (alpha ==> region + alpha_place(
        width,
        width - 1,
        height - 1,
        quirk,
    ) < payload_size))
}

/// The pixel in column `x` of row `y` that `payload` holds.
pub open spec fn decoded_pixel(
    payload: Seq<u8>,
    width: int,
    height: int,
    alpha: bool,
    x: int,
    y: int,
) -> Rgba {
    let color = 3 * (x + y * width);
    let region = color_region_size(width, height);
    let quirk = has_stride_quirk(alpha, payload.len() as int, region);
    Rgba {
        red: payload[color + 2],
        green: payload[color + 1],
        blue: payload[color],
        alpha: if alpha {
            payload[region + alpha_place(width, x, y, quirk)]
        } else {
            0xFF
        },
    }
}

/// The raster of `width` by `height` pixels that `payload` holds, or
/// `OutOfBounds` where the payload is too short for it.
pub open spec fn payload_raster(payload: Seq<u8>, width: int, height: int, alpha: bool) -> Result<
    RasterView,
    ExtractError,
> {
    if !payload_suffices(payload.len() as int, width, height, alpha) {
        Err(ExtractError::OutOfBounds)
    } else {
        Ok(
            RasterView {
                width,
                height,
                pixels: Seq::new(
                    (width * height) as nat,
                    |i: int| decoded_pixel(payload, width, height, alpha, i % width, i / width),
                ),
            },
        )
    }
}

/// What a parsed image record is: the width that it declares, its height,
/// whether it carries opacity, and its payload.
pub ghost struct ImageRecordView {
    pub declared_width: int,
    pub height: int,
    pub alpha: bool,
    pub payload: Seq<u8>,
}

impl ImageRecordView {
    /// The raster that the record holds.
    pub open spec fn raster(self) -> Result<RasterView, ExtractError> {
        payload_raster(self.payload, even_width(self.declared_width), self.height, self.alpha)
    }
}

/// An image record as it stands after inflation, parsed but not yet decoded.
/// The payload is borrowed from the inflated bytes.
#[derive(Clone, Copy, Debug)]
pub struct ImageRecord<'a> {
    pub declared_width: u16,
    pub height: u16,
    pub alpha: bool,
    pub payload: &'a [u8],
}

impl<'a> View for ImageRecord<'a> {
    type V = ImageRecordView;

    open spec fn view(&self) -> ImageRecordView {
        ImageRecordView {
            declared_width: self.declared_width as int,
            height: self.height as int,
            alpha: self.alpha,
            payload: self.payload@,
        }
    }
}

/// The image record that `record` holds: what its header says, and the
/// payload of the size that the header gives.
pub open spec fn parsed_record(record: Seq<u8>) -> Result<ImageRecordView, ExtractError> {
    if !in_bounds(record, 0, RECORD_HEADER_SIZE as int) {
        Err(ExtractError::OutOfBounds)
    } else if !in_bounds(record, RECORD_HEADER_SIZE as int, le_u32(record, 8)) {
        Err(ExtractError::OutOfBounds)
    } else {
        Ok(
            ImageRecordView {
                declared_width: le_u16(record, 12),
                height: le_u16(record, 14),
                alpha: has_alpha(record[17]),
                payload: record.subrange(
                    RECORD_HEADER_SIZE as int,
                    RECORD_HEADER_SIZE + le_u32(record, 8),
                ),
            },
        )
    }
}

/// The raster that the image record `record` holds.
pub open spec fn record_raster(record: Seq<u8>) -> Result<RasterView, ExtractError> {
    match parsed_record(record) {
        Ok(parsed) => parsed.raster(),
        Err(reason) => Err(reason),
    }
}

/// Places in a grid: the pixel in column `x` of row `y` is pixel number
/// `x + y * width`, which names that column and row and no other.
pub proof fn lemma_place_in_grid(width: int, height: int, x: int, y: int)
    requires
        0 <= x < width,
        0 <= y < height,
    ensures
        0 <= y * width,
        x + y * width < width * height,
        y * width <= (height - 1) * width,
        (x + y * width) % width == x,
        (x + y * width) / width == y,
{
    assert(0 <= y * width) by (nonlinear_arith)
        requires
            0 <= y,
            0 <= width,
    ;
    assert(y * width <= (height - 1) * width) by (nonlinear_arith)
        requires
            y <= height - 1,
            0 <= width,
    ;
    assert((height - 1) * width + width == width * height) by (nonlinear_arith);
    lemma_fundamental_div_mod_converse(x + y * width, width, y, x);
}

/// Rows are even: a record that declares an even width has that width, one
/// that declares an odd width has one column more.
pub proof fn lemma_even_width(declared: int)
    requires
        0 <= declared,
    ensures
        even_width(declared) % 2 == 0,
        declared % 2 == 0 <==> even_width(declared) == declared,
        declared % 2 == 1 ==> even_width(declared) == declared + 1,
{
}

/// A payload that is long enough gives a raster of exactly the width and
/// height asked for, whose pixels are those that the payload holds for each
/// column and row.
pub proof fn lemma_payload_raster_pixels(payload: Seq<u8>, width: int, height: int, alpha: bool)
    requires
        0 <= width,
        0 <= height,
        payload_suffices(payload.len() as int, width, height, alpha),
    ensures
        payload_raster(payload, width, height, alpha) is Ok,
        payload_raster(payload, width, height, alpha).unwrap().well_formed(),
        payload_raster(payload, width, height, alpha).unwrap().width == width,
        payload_raster(payload, width, height, alpha).unwrap().height == height,
        forall|x: int, y: int|
            0 <= x < width && 0 <= y < height ==> #[trigger] payload_raster(
                payload,
                width,
                height,
                alpha,
            ).unwrap().pixel(x, y) == decoded_pixel(payload, width, height, alpha, x, y),
{
    let raster = payload_raster(payload, width, height, alpha).unwrap();
    assert(0 <= width * height) by (nonlinear_arith)
        requires
            0 <= width,
            0 <= height,
    ;
    assert forall|x: int, y: int| 0 <= x < width && 0 <= y < height implies #[trigger] raster.pixel(
        x,
        y,
    ) == decoded_pixel(payload, width, height, alpha, x, y) by {
        lemma_place_in_grid(width, height, x, y);
        assert(y * width + x == x + y * width);
    }
}

/// A record without opacity whose payload holds one colour for every pixel
/// decodes to a raster of the width and height asked for in which every
/// pixel has that colour and is fully opaque.
pub proof fn lemma_solid_opaque_payload(
    payload: Seq<u8>,
    width: int,
    height: int,
    red: u8,
    green: u8,
    blue: u8,
)
    requires
        0 <= width,
        0 <= height,
        color_region_size(width, height) <= payload.len(),
        forall|place: int|
            0 <= place < width * height ==> {
                &&& #[trigger] payload[3 * place] == blue
                &&& payload[3 * place + 1] == green
                &&& payload[3 * place + 2] == red
            },
    ensures
        payload_raster(payload, width, height, false) is Ok,
        payload_raster(payload, width, height, false).unwrap().width == width,
        payload_raster(payload, width, height, false).unwrap().height == height,
        payload_raster(payload, width, height, false).unwrap().pixels.len() == width * height,
        forall|i: int|
            0 <= i < width * height ==> #[trigger] payload_raster(
                payload,
                width,
                height,
                false,
            ).unwrap().pixels[i] == (Rgba { red, green, blue, alpha: 0xFF }),
{
    let raster = payload_raster(payload, width, height, false).unwrap();
    assert(0 <= width * height) by (nonlinear_arith)
        requires
            0 <= width,
            0 <= height,
    ;
    assert forall|i: int| 0 <= i < width * height implies #[trigger] raster.pixels[i] == (Rgba {
        red,
        green,
        blue,
        alpha: 0xFF,
    }) by {
        assert(width > 0) by (nonlinear_arith)
            requires
                0 <= i < width * height,
                0 <= width,
        ;
        lemma_fundamental_div_mod(i, width);
        lemma_mod_pos_bound(i, width);
        let x = i % width;
        let y = i / width;
        assert(x + y * width == i) by (nonlinear_arith)
            requires
                i == width * y + x,
        ;
        assert(payload[3 * i] == blue);
    }
}

/// Whether the rows of the opacity region are two bytes longer than the rows
/// of the image.
pub fn stride_quirk(alpha: bool, payload_size: u64, color_region: u64) -> (quirk: bool)
    ensures
        quirk == has_stride_quirk(alpha, payload_size as int, color_region as int),
{
    alpha && (payload_size < color_region || payload_size - color_region != color_region / 3)
}

/// Builds the raster that `payload` holds for a record that declares
/// `declared_width` columns and `height` rows.
pub fn decode_payload(payload: &[u8], declared_width: u16, height: u16, alpha: bool) -> (decoded:
    Result<Raster, ExtractError>)
    ensures
        match payload_raster(payload@, even_width(declared_width as int), height as int, alpha) {
            Ok(raster) => decoded is Ok && decoded.unwrap()@ == raster,
            Err(reason) => decoded == Err::<Raster, ExtractError>(reason),
        },
{
    let width: u32 = if declared_width % 2 == 1 {
        declared_width as u32 + 1
    } else {
        declared_width as u32
    };
    let w: u64 = width as u64;
    let h: u64 = height as u64;
    let len: u64 = payload.len() as u64;
    assert(w * h <= 65536 * 65535) by (nonlinear_arith)
        requires
            0 <= w <= 65536,
            0 <= h <= 65535,
    ;
    let area: u64 = w * h;
    let region: u64 = area * 3;
    let quirk: bool = stride_quirk(alpha, len, region);
    let mut pixels: Vec<Rgba> = Vec::new();
    if area == 0 {
        assert(pixels@ =~= payload_raster(payload@, w as int, h as int, alpha).unwrap().pixels);
        return Ok(Raster::assemble(width, height as u32, pixels));
    }
    assert(w > 0 && h > 0) by (nonlinear_arith)
        requires
            w * h != 0,
            0 <= w,
            0 <= h,
    ;
    proof {
        lemma_place_in_grid(w as int, h as int, w - 1, h - 1);
    }
    if len < region {
        return Err(ExtractError::OutOfBounds);
    }
    if alpha {
        let last: u64 = region + (w - 1) + (h - 1) * w + if quirk {
            2 * (h - 1)
        } else {
            0
        };
        if last >= len {
            return Err(ExtractError::OutOfBounds);
        }
    }
    let mut y: u64 = 0;
    while y < h
        invariant
            y <= h,
            0 < w <= 65536,
            0 < h <= 65535,
            area == w * h,
            area <= 65536 * 65535,
            region == color_region_size(w as int, h as int),
            len == payload@.len(),
            len <= usize::MAX,
            quirk == has_stride_quirk(alpha, len as int, region as int),
            payload_suffices(len as int, w as int, h as int, alpha),
            pixels@ == Seq::new(
                (y * w) as nat,
                |i: int| decoded_pixel(payload@, w as int, h as int, alpha, i % (w as int), i / (w as int)),
            ),
        decreases h - y,
    {
        let mut x: u64 = 0;
        while x < w
            invariant
                x <= w,
                y < h,
                0 < w <= 65536,
                0 < h <= 65535,
                area == w * h,
                area <= 65536 * 65535,
                region == color_region_size(w as int, h as int),
                len == payload@.len(),
                len <= usize::MAX,
                quirk == has_stride_quirk(alpha, len as int, region as int),
                payload_suffices(len as int, w as int, h as int, alpha),
                pixels@ == Seq::new(
                    (y * w + x) as nat,
                    |i: int| decoded_pixel(payload@, w as int, h as int, alpha, i % (w as int), i / (w as int)),
                ),
            decreases w - x,
        {
            proof {
                lemma_place_in_grid(w as int, h as int, x as int, y as int);
                lemma_place_in_grid(w as int, h as int, w - 1, h - 1);
            }
            let place: u64 = x + y * w;
            assert(3 * place + 2 < region <= len);
            let color: usize = (3 * place) as usize;
            let opacity: u8 = if alpha {
                let shift: u64 = if quirk {
                    2 * y
                } else {
                    0
                };
                payload[(region + place + shift) as usize]
            } else {
                0xFF
            };
            let pixel = Rgba {
                red: payload[color + 2],
                green: payload[color + 1],
                blue: payload[color],
                alpha: opacity,
            };
            assert(pixel == decoded_pixel(payload@, w as int, h as int, alpha, x as int, y as int));
            pixels.push(pixel);
            x = x + 1;
            assert(pixels@ =~= Seq::new(
                (y * w + x) as nat,
                |i: int| decoded_pixel(payload@, w as int, h as int, alpha, i % (w as int), i / (w as int)),
            ));
        }
        y = y + 1;
        assert(y * w == (y - 1) * w + w) by (nonlinear_arith);
    }
    assert(h * w == w * h) by (nonlinear_arith);
    Ok(Raster::assemble(width, height as u32, pixels))
}

impl<'a> ImageRecord<'a> {
    /// Parses the header of an image record and takes its payload.
    pub fn parse(record: &'a [u8]) -> (parsed: Result<ImageRecord<'a>, ExtractError>)
        ensures
            match parsed_record(record@) {
                Ok(view) => parsed is Ok && parsed.unwrap()@ == view,
                Err(reason) => parsed is Err && parsed.unwrap_err() == reason,
            },
    {
        let mut cursor = ByteCursor::new(record);
        let _checksum: u32 = cursor.read_u32()?;
        let _references: u32 = cursor.read_u32()?;
        let payload_size: u32 = cursor.read_u32()?;
        let declared_width: u16 = cursor.read_u16()?;
        let height: u16 = cursor.read_u16()?;
        let _graphic_mode: u8 = cursor.read_u8()?;
        let flags: u8 = cursor.read_u8()?;
        cursor.skip(2);
        let _hotspot_x: u16 = cursor.read_u16()?;
        let _hotspot_y: u16 = cursor.read_u16()?;
        let _action_x: u16 = cursor.read_u16()?;
        let _action_y: u16 = cursor.read_u16()?;
        let _color_key: (u8, u8, u8) = cursor.read_color_rgb_padded()?;
        let payload: &'a [u8] = cursor.read_bytes(payload_size as usize)?;
        Ok(ImageRecord { declared_width, height, alpha: flags & ALPHA_FLAG == ALPHA_FLAG, payload })
    }

    /// Builds the raster that the record holds.
    pub fn decode(&self) -> (decoded: Result<Raster, ExtractError>)
        ensures
            match self@.raster() {
                Ok(raster) => decoded is Ok && decoded.unwrap()@ == raster,
                Err(reason) => decoded == Err::<Raster, ExtractError>(reason),
            },
    {
        decode_payload(self.payload, self.declared_width, self.height, self.alpha)
    }
}

/// Decodes one image record, as it stands after inflation, into its raster.
pub fn decode_image_record(record: &[u8]) -> (decoded: Result<Raster, ExtractError>)
    ensures
        match record_raster(record@) {
            Ok(raster) => decoded is Ok && decoded.unwrap()@ == raster,
            Err(reason) => decoded == Err::<Raster, ExtractError>(reason),
        },
{
    let parsed: ImageRecord = ImageRecord::parse(record)?;
    parsed.decode()
}

} // verus!
