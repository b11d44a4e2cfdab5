use vstd::prelude::*;
use crate::error::ProjectError;

verus! {

/// What a frame is: its size in pixels and its RGBA bytes, row by row.
#[verifier::ext_equal]
pub struct FrameView {
    pub width: u32,
    pub height: u32,
    pub pixels: Seq<u8>,
}

/// The number of bytes of an RGBA image of the given size.
pub open spec fn rgba_len(width: u32, height: u32) -> int {
    4 * (width as int) * (height as int)
}

/// A decoded image: `width` by `height` pixels, four bytes each.
#[derive(Debug)]
pub struct Frame {
    width: u32,
    height: u32,
    pixels: Vec<u8>,
}

impl View for Frame {
    type V = FrameView;

    closed spec fn view(&self) -> FrameView {
        FrameView { width: self.width, height: self.height, pixels: self.pixels@ }
    }
}

#[verifier::external_type_specification]
#[verifier::external_body]
pub struct ExImageError(image::ImageError);

/// Relies on image::load_from_memory, which decodes the bytes (which format
/// and decoder it picks may depend on hooks registered in the process), and on
/// DynamicImage::to_rgba8 with ImageBuffer::into_raw, which give the image's
/// size and its bytes, four per pixel.
#[verifier::external_body]
fn decode_rgba(bytes: &[u8]) -> (r: Result<(u32, u32, Vec<u8>), image::ImageError>)
    ensures
        r matches Ok((w, h, px)) ==> px@.len() == rgba_len(w, h),
{
    let img = image::load_from_memory(bytes)?.to_rgba8();
    Ok((img.width(), img.height(), img.into_raw()))
}

impl Frame {
    #[verifier::type_invariant]
    spec fn well_sized(self) -> bool {
        self.pixels@.len() == rgba_len(self.width, self.height)
    }

    /// A frame from raw RGBA bytes; `None` where their number is not four
    /// times `width` times `height`.
    pub fn from_rgba(width: u32, height: u32, pixels: Vec<u8>) -> (r: Option<Frame>)
        ensures
            pixels@.len() == rgba_len(width, height) <==> r is Some,
            r matches Some(f) ==> f@ == (FrameView { width, height, pixels: pixels@ }),
    {
        let w: u128 = width as u128;
        let h: u128 = height as u128;
        assert(w * h <= 0xffff_ffff_0000_0001u128) by (nonlinear_arith)
            requires
                w <= 0xffff_ffffu128,
                h <= 0xffff_ffffu128,
        ;
        let expected: u128 = w * h * 4;
        assert(expected as int == rgba_len(width, height)) by (nonlinear_arith)
            requires
                expected == w * h * 4,
                w == width,
                h == height,
        ;
        if pixels.len() as u128 == expected {
            Some(Frame { width, height, pixels })
        } else {
            None
        }
    }

    /// The frame of what a decoder gave: its size and its RGBA bytes, in
    /// order; `Decode` where it failed or its bytes do not fit its size.
    pub fn from_decoded(d: Result<(u32, u32, Vec<u8>), image::ImageError>) -> (r: Result<Frame, ProjectError>)
        ensures
            match d {
                Ok((w, h, px)) => if px@.len() == rgba_len(w, h) {
                    r matches Ok(f) && f@ == (FrameView { width: w, height: h, pixels: px@ })
                } else {
                    r == Err::<Frame, ProjectError>(ProjectError::Decode)
                },
                Err(_) => r == Err::<Frame, ProjectError>(ProjectError::Decode),
            },
    {
        match d {
            Ok((width, height, pixels)) => match Frame::from_rgba(width, height, pixels) {
                Some(f) => Ok(f),
                None => Err(ProjectError::Decode),
            },
            Err(_) => Err(ProjectError::Decode),
        }
    }

    /// Decodes an image file held in memory (PNG) and keeps what the decoder
    /// gave; a failure is `Decode`.
    pub fn decode(bytes: &Vec<u8>) -> (r: Result<Frame, ProjectError>)
        ensures
            r matches Ok(f) ==> f@.pixels.len() == rgba_len(f@.width, f@.height),
            r matches Err(e) ==> e == ProjectError::Decode,
    {
        Frame::from_decoded(decode_rgba(bytes.as_slice()))
    }

    pub fn width(&self) -> (r: u32)
        ensures
            r == self@.width,
    {
        self.width
    }

    pub fn height(&self) -> (r: u32)
        ensures
            r == self@.height,
    {
        self.height
    }

    /// The RGBA bytes, row by row.
    pub fn pixels(&self) -> (r: &Vec<u8>)
        ensures
            r@ == self@.pixels,
    {
        &self.pixels
    }

    /// A copy whose view is known to verified callers.
    pub fn duplicate(&self) -> (r: Frame)
        ensures
            r@ == self@,
    {
        proof {
            use_type_invariant(self);
        }
        let pixels = self.pixels.clone();
        assert(pixels@ =~= self.pixels@);
        Frame { width: self.width, height: self.height, pixels }
    }

    /// Whether the two frames have the same size and the same bytes.
    pub fn same_as(&self, other: &Frame) -> (r: bool)
        ensures
            r == (self@ == other@),
    {
        if self.width != other.width || self.height != other.height
            || self.pixels.len() != other.pixels.len() {
            return false;
        }
        let mut i: usize = 0;
        while i < self.pixels.len()
            invariant
                self.pixels.len() == other.pixels.len(),
                0 <= i <= self.pixels.len(),
                forall|j: int| 0 <= j < i ==> self.pixels@[j] == other.pixels@[j],
            decreases self.pixels.len() - i,
        {
            if self.pixels[i] != other.pixels[i] {
                return false;
            }
            i = i + 1;
        }
        assert(self.pixels@ =~= other.pixels@);
        true
    }
}


impl PartialEq for Frame {
    fn eq(&self, other: &Frame) -> (r: bool) {
        self.same_as(other)
    }
}

impl vstd::std_specs::cmp::PartialEqSpecImpl for Frame {
    open spec fn obeys_eq_spec() -> bool {
        true
    }

    open spec fn eq_spec(&self, other: &Frame) -> bool {
        self@ == other@
    }
}

} // verus!
