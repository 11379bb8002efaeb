//! Raster frames: RGB samples, luminance, binarisation and cropping.
use vstd::prelude::*;

verus! {

/// An RGB frame: `width * height` pixels, row by row, three samples each.
pub struct Frame {
    pub width: u32,
    pub height: u32,
    pub rgb: Vec<u8>,
}

impl Frame {
    /// The sample buffer holds exactly three bytes per pixel.
    pub open spec fn wf(&self) -> bool {
        self.rgb@.len() == 3 * self.width * self.height
    }

    /// A frame of the given size over `rgb`, if it holds three bytes per pixel.
    pub fn from_rgb(width: u32, height: u32, rgb: Vec<u8>) -> (r: Option<Frame>)
        ensures
            r.is_some() <==> rgb@.len() == 3 * width * height,
            r matches Some(f) ==> f.wf() && f.width == width && f.height == height && f.rgb@ == rgb@,
    {
        let n = rgb.len() as u128;
        proof {
            assert((width as int) * (height as int) <= 0xffff_ffff * 0xffff_ffff) by (nonlinear_arith)
                requires
                    width <= 0xffff_ffff,
                    height <= 0xffff_ffff,
            ;
            assert(3 * width * height == 3 * ((width as int) * (height as int))) by (nonlinear_arith);
        }
        if n == 3 * ((width as u128) * (height as u128)) {
            Some(Frame { width, height, rgb })
        } else {
            None
        }
    }
}

/// sRGB luma of one pixel, as integer arithmetic on 8-bit samples.
pub open spec fn luma(r: u8, g: u8, b: u8) -> u8 {
    ((2126 * r + 7152 * g + 722 * b) / 10000) as u8
}

/// The luminance of each pixel of an RGB sample sequence.
pub open spec fn gray_of(rgb: Seq<u8>, pixels: nat) -> Seq<u8> {
    Seq::new(pixels, |i: int| luma(rgb[3 * i], rgb[3 * i + 1], rgb[3 * i + 2]))
}

/// Foreground (255) where the luminance is below the threshold, else 0.
pub open spec fn mask_of(gray: Seq<u8>, threshold: u8) -> Seq<u8> {
    Seq::new(gray.len(), |i: int| if gray[i] < threshold { 255u8 } else { 0u8 })
}

/// Relies on `image::imageops::grayscale` on an `RgbImage`: each output pixel
/// is the luma `(2126 r + 7152 g + 722 b) / 10000` of the input pixel, in the
/// same row-major order.
#[verifier::external_body]
fn grayscale(frame: &Frame) -> (r: Vec<u8>)
    requires
        frame.wf(),
    ensures
        r@ == gray_of(frame.rgb@, (frame.width * frame.height) as nat),
{
    let img = image::RgbImage::from_raw(frame.width, frame.height, frame.rgb.clone()).unwrap();
    image::imageops::grayscale(&img).into_raw()
}

/// Luminance of every pixel of the frame.
pub fn luminance(frame: &Frame) -> (r: Vec<u8>)
    requires
        frame.wf(),
    ensures
        r@ == gray_of(frame.rgb@, (frame.width * frame.height) as nat),
{
    grayscale(frame)
}

/// Binarises a luminance image: 255 (a hole) where darker than `threshold`.
pub fn threshold_mask(gray: &Vec<u8>, threshold: u8) -> (r: Vec<u8>)
    ensures
        r@ == mask_of(gray@, threshold),
{
    let mut out: Vec<u8> = Vec::new();
    let mut i: usize = 0;
    while i < gray.len()
        invariant
            i <= gray@.len(),
            out@ == mask_of(gray@, threshold).take(i as int),
        decreases gray@.len() - i,
    {
        let v: u8 = if gray[i] < threshold {
            255
        } else {
            0
        };
        out.push(v);
        i = i + 1;
        assert(out@ =~= mask_of(gray@, threshold).take(i as int));
    }
    assert(out@ =~= mask_of(gray@, threshold));
    out
}

/// Margins, in pixels, to cut from each side of a frame.
pub struct CropMargins {
    pub left: u32,
    pub right: u32,
    pub top: u32,
    pub bottom: u32,
}

/// Whether the margins leave at least one pixel each way.
pub open spec fn crop_fits(width: u32, height: u32, m: CropMargins) -> bool {
    m.left + m.right < width && m.top + m.bottom < height
}

/// The samples of the `cw` by `ch` window at `(x0, y0)` of an RGB frame
/// `width` pixels wide, row by row.
pub open spec fn window_of(rgb: Seq<u8>, width: u32, x0: u32, y0: u32, cw: u32, ch: u32) -> Seq<u8> {
    Seq::new(
        (3 * cw * ch) as nat,
        |i: int|
            {
                let p = i / 3;
                rgb[3 * ((y0 + p / cw as int) * width + x0 + p % cw as int) + i % 3]
            },
    )
}

/// Relies on `image::imageops::crop_imm` and `SubImage::to_image`: with the
/// window inside the image, the result holds the window's pixels row by row.
#[verifier::external_body]
fn crop_window(frame: &Frame, x0: u32, y0: u32, cw: u32, ch: u32) -> (r: Vec<u8>)
    requires
        frame.wf(),
        x0 + cw <= frame.width,
        y0 + ch <= frame.height,
    ensures
        r@ == window_of(frame.rgb@, frame.width, x0, y0, cw, ch),
{
    let img = image::RgbImage::from_raw(frame.width, frame.height, frame.rgb.clone()).unwrap();
    image::imageops::crop_imm(&img, x0, y0, cw, ch).to_image().into_raw()
}

/// Cuts the margins off a frame; margins that would leave no pixel in
/// either direction leave the frame as it is.
pub fn crop(frame: Frame, margins: &CropMargins) -> (r: Frame)
    requires
        frame.wf(),
    ensures
        r.wf(),
        crop_fits(frame.width, frame.height, *margins) ==> {
            &&& r.width == frame.width - margins.left - margins.right
            &&& r.height == frame.height - margins.top - margins.bottom
            &&& r.rgb@ == window_of(frame.rgb@, frame.width, margins.left, margins.top, r.width, r.height)
        },
        !crop_fits(frame.width, frame.height, *margins) ==> r.width == frame.width && r.height == frame.height
            && r.rgb@ == frame.rgb@,
{
    let horizontal = margins.left as u64 + margins.right as u64;
    let vertical = margins.top as u64 + margins.bottom as u64;
    if horizontal < frame.width as u64 && vertical < frame.height as u64 {
        let cw = frame.width - margins.left - margins.right;
        let ch = frame.height - margins.top - margins.bottom;
        let rgb = crop_window(&frame, margins.left, margins.top, cw, ch);
        Frame { width: cw, height: ch, rgb }
    } else {
        frame
    }
}

} // verus!
