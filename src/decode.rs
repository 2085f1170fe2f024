//! The pixel decoder adapter: a compressed still image in, raw RGBA samples
//! of known dimensions out.
use vstd::prelude::*;

verus! {

/// Samples per pixel in a raw frame (red, green, blue, alpha).
pub const CHANNELS: u32 = 4;

/// What decoding `bytes` as a PNG image yields: its width, its height and
/// its pixels as RGBA bytes, row by row; `None` where the bytes are no PNG
/// image.
pub uninterp spec fn png_rgba_decoding(bytes: Seq<u8>) -> Option<(u32, u32, Seq<u8>)>;

/// Relies on `image::load_from_memory_with_format` with the built-in PNG
/// format, which decodes with the crate's own PNG decoder and consults no
/// registered format hook, so its result depends on the bytes alone; and on
/// `DynamicImage::into_rgba8`, `ImageBuffer::width`, `ImageBuffer::height`
/// and `ImageBuffer::into_raw` to hand the pixels out as plain RGBA bytes.
#[verifier::external_body]
fn load_png_rgba(bytes: &[u8]) -> (r: Option<(u32, u32, Vec<u8>)>)
    ensures
        match r {
            Some(t) => png_rgba_decoding(bytes@) == Some((t.0, t.1, t.2@)),
            None => png_rgba_decoding(bytes@) is None,
        },
{
    match image::load_from_memory_with_format(bytes, image::ImageFormat::Png) {
        Ok(img) => {
            let rgba = img.into_rgba8();
            Some((rgba.width(), rgba.height(), rgba.into_raw()))
        },
        Err(_) => None,
    }
}

/// Why a payload gave no frame.
#[derive(Clone, Copy, Debug, PartialEq, Eq, Structural)]
pub enum DecodeError {
    /// The payload was empty: the capture failed.
    Empty,
    /// The payload is not a well-formed PNG image.
    Malformed,
    /// The image decoded, at dimensions other than the configured ones.
    DimensionMismatch { width: u32, height: u32 },
}

/// A decoded frame: `width * height` pixels of `CHANNELS` bytes each.
pub struct RawFrameView {
    pub width: u32,
    pub height: u32,
    pub samples: Seq<u8>,
}

pub open spec fn samples_fit(width: u32, height: u32, samples: Seq<u8>) -> bool {
    samples.len() == width * height * CHANNELS
}

/// A raw frame whose samples always cover exactly its dimensions.
pub struct RawFrame {
    width: u32,
    height: u32,
    samples: Vec<u8>,
}

impl View for RawFrame {
    type V = RawFrameView;

    closed spec fn view(&self) -> RawFrameView {
        RawFrameView { width: self.width, height: self.height, samples: self.samples@ }
    }
}

impl RawFrame {
    #[verifier::type_invariant]
    spec fn inv(self) -> bool {
        samples_fit(self.width, self.height, self.samples@)
    }

    pub fn width(&self) -> (r: u32)
        ensures
            r == self@.width,
            samples_fit(self@.width, self@.height, self@.samples),
    {
        proof {
            use_type_invariant(self);
        }
        self.width
    }

    pub fn height(&self) -> (r: u32)
        ensures
            r == self@.height,
    {
        self.height
    }

    pub fn samples(&self) -> (r: &Vec<u8>)
        ensures
            r@ == self@.samples,
    {
        &self.samples
    }

    /// Gives up the frame for its samples.
    pub fn into_samples(self) -> (r: Vec<u8>)
        ensures
            r@ == self@.samples,
    {
        self.samples
    }
}

/// The outcome of checking what the decoder returned: a frame of the
/// expected dimensions whose samples cover them.
pub open spec fn check_decoded_spec(
    decoded: Option<(u32, u32, Seq<u8>)>,
    expected_width: u32,
    expected_height: u32,
) -> Result<RawFrameView, DecodeError> {
    match decoded {
        None => Err(DecodeError::Malformed),
        Some((width, height, samples)) => if !samples_fit(width, height, samples) {
            Err(DecodeError::Malformed)
        } else if width != expected_width || height != expected_height {
            Err(DecodeError::DimensionMismatch { width, height })
        } else {
            Ok(RawFrameView { width, height, samples })
        },
    }
}

/// The outcome of decoding a payload into a frame of the given dimensions.
pub open spec fn decode_spec(bytes: Seq<u8>, expected_width: u32, expected_height: u32) -> Result<
    RawFrameView,
    DecodeError,
> {
    if bytes.len() == 0 {
        Err(DecodeError::Empty)
    } else {
        check_decoded_spec(png_rgba_decoding(bytes), expected_width, expected_height)
    }
}

/// A decoding outcome as a value.
pub open spec fn decoded_view(r: Result<RawFrame, DecodeError>) -> Result<RawFrameView, DecodeError> {
    match r {
        Ok(frame) => Ok(frame@),
        Err(e) => Err(e),
    }
}

/// Checks what the decoder returned against the expected dimensions.
pub fn check_decoded(decoded: Option<(u32, u32, Vec<u8>)>, expected_width: u32, expected_height: u32) -> (r: Result<
    RawFrame,
    DecodeError,
>)
    ensures
        decoded_view(r) == check_decoded_spec(
                match decoded {
                    Some(t) => Some((t.0, t.1, t.2@)),
                    None => None,
                },
                expected_width,
                expected_height,
            ),
{
    match decoded {
        None => Err(DecodeError::Malformed),
        Some((width, height, samples)) => {
            let w = width as u128;
            let h = height as u128;
            assert(w * h <= 0xffff_ffffu128 * 0xffff_ffffu128) by (nonlinear_arith)
                requires
                    w <= 0xffff_ffffu128,
                    h <= 0xffff_ffffu128,
            ;
            let needed: u128 = w * h * CHANNELS as u128;
            if samples.len() as u128 != needed {
                Err(DecodeError::Malformed)
            } else if width != expected_width || height != expected_height {
                Err(DecodeError::DimensionMismatch { width, height })
            } else {
                Ok(RawFrame { width, height, samples })
            }
        },
    }
}

/// Decodes a captured payload into a raw frame of the configured
/// dimensions: `Empty` for an empty payload, `Malformed` where the bytes are
/// no PNG image, `DimensionMismatch` where the image has other dimensions.
pub fn decode_frame(bytes: &[u8], expected_width: u32, expected_height: u32) -> (r: Result<
    RawFrame,
    DecodeError,
>)
    ensures
        decoded_view(r) == decode_spec(bytes@, expected_width, expected_height),
{
    if bytes.len() == 0 {
        Err(DecodeError::Empty)
    } else {
        check_decoded(load_png_rgba(bytes), expected_width, expected_height)
    }
}

} // verus!
