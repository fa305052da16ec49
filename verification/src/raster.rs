//! A flat in-memory RGB image: positive dimensions and exactly three color
//! bytes per pixel, in row-major, R-G-B order.

use vstd::prelude::*;

verus! {

/// An RGB image held as a flat byte buffer. Invariant: `width` and `height`
/// are positive and the buffer holds exactly `width * height * 3` bytes.
pub struct Image {
    width: u32,
    height: u32,
    bytes: Vec<u8>,
}

impl View for Image {
    type V = Seq<u8>;

    closed spec fn view(&self) -> Seq<u8> {
        self.bytes@
    }
}

impl Image {
    /// The image's width, in pixels.
    pub closed spec fn spec_width(&self) -> u32 {
        self.width
    }

    /// The image's height, in pixels.
    pub closed spec fn spec_height(&self) -> u32 {
        self.height
    }

    /// Well-formed: positive dimensions, three bytes per pixel.
    pub open spec fn wf(&self) -> bool {
        &&& 1 <= self.spec_width()
        &&& 1 <= self.spec_height()
        &&& self@.len() == self.spec_width() * self.spec_height() * 3
    }

    /// Build an image from its dimensions and flat RGB bytes. Returns `None`
    /// when a dimension is zero or the byte count is not `width * height * 3`.
    pub fn new(width: u32, height: u32, bytes: Vec<u8>) -> (r: Option<Image>)
        ensures
            r is Some <==> (1 <= width && 1 <= height && bytes@.len() == width * height * 3),
            r matches Some(img) ==> img.wf() && img@ == bytes@ && img.spec_width() == width
                && img.spec_height() == height,
    {
        if width == 0 || height == 0 {
            return None;
        }
        proof {
            assert((width as int) * (height as int) * 3 < 0x1_0000_0000_0000_0000_0000)
                by (nonlinear_arith)
                requires
                    0 <= (width as int) < 0x1_0000_0000,
                    0 <= (height as int) < 0x1_0000_0000,
            ;
        }
        let expected: u128 = (width as u128) * (height as u128) * 3;
        if (bytes.len() as u128) == expected {
            Some(Image { width, height, bytes })
        } else {
            None
        }
    }

    /// The image's width, in pixels.
    pub fn width(&self) -> (w: u32)
        ensures
            w == self.spec_width(),
    {
        self.width
    }

    /// The image's height, in pixels.
    pub fn height(&self) -> (h: u32)
        ensures
            h == self.spec_height(),
    {
        self.height
    }

    /// The image's flat RGB bytes.
    pub fn bytes(&self) -> (b: &Vec<u8>)
        ensures
            b@ == self@,
    {
        &self.bytes
    }
}

} // verus!
