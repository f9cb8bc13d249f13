//! Decoded images.

use vstd::prelude::*;

verus! {

/// Bytes per pixel: red, green, blue and alpha, one byte each.
pub const BYTES_PER_PIXEL: u32 = 4;

/// A decoded image: rows of pixels, top row first.
pub struct Image {
    width: u32,
    height: u32,
    pixels: Vec<u8>,
}

/// Why pixel data was not accepted as an image.
#[derive(Clone, Copy, Debug, PartialEq, Eq, Structural)]
pub enum ImageError {
    /// The data does not hold four bytes for each pixel of the given size.
    WrongLength,
}

impl Image {
    pub closed spec fn width(&self) -> u32 {
        self.width
    }

    pub closed spec fn height(&self) -> u32 {
        self.height
    }

    /// The pixel data, four bytes a pixel.
    pub closed spec fn data(&self) -> Seq<u8> {
        self.pixels@
    }

    /// The data holds four bytes for each pixel.
    pub closed spec fn wf(&self) -> bool {
        self.pixels@.len() == self.width * self.height * BYTES_PER_PIXEL
    }

    /// An image of the given size from its pixel data, which must hold four
    /// bytes for each pixel.
    pub fn from_pixels(width: u32, height: u32, pixels: Vec<u8>) -> (image: Result<
        Image,
        ImageError,
    >)
        ensures
            image.is_ok() <==> pixels@.len() == width * height * BYTES_PER_PIXEL,
            image matches Ok(i) ==> i.wf() && i.width() == width && i.height() == height
                && i.data() == pixels@,
            image matches Err(e) ==> e == ImageError::WrongLength,
    {
        assert(width * height <= 0xffff_ffff * 0xffff_ffff) by (nonlinear_arith)
            requires
                width <= 0xffff_ffff,
                height <= 0xffff_ffff,
        ;
        let area: u128 = (width as u128) * (height as u128);
        let expected: u128 = area * 4;
        if pixels.len() as u128 == expected {
            Ok(Image { width, height, pixels })
        } else {
            Err(ImageError::WrongLength)
        }
    }

    pub fn dimensions(&self) -> (size: (u32, u32))
        ensures
            size == (self.width(), self.height()),
    {
        (self.width, self.height)
    }

    pub fn pixels(&self) -> (pixels: &[u8])
        ensures
            pixels@ == self.data(),
    {
        self.pixels.as_slice()
    }

    /// Number of bytes of pixel data.
    pub fn len(&self) -> (len: usize)
        ensures
            len == self.data().len(),
    {
        self.pixels.len()
    }
}

} // verus!
