//! Decoding of one encoded image record into a pixel buffer whose channel
//! order matches the display surface.
//!
//! The image format itself is the `qoi` crate's business. What this module
//! takes from it on trust is stated in the contracts of `read_header` and
//! `decode_into`; everything built on top of them is verified.

use vstd::prelude::*;

verus! {

/// Largest number of pixels an image header may announce.
pub const MAX_PIXELS: u64 = 400_000_000;

/// What the header of an encoded image says about the image.
#[derive(Clone, Copy, Debug, PartialEq, Eq)]
pub struct ImageHeader {
    /// Width in pixels.
    pub width: u32,
    /// Height in pixels.
    pub height: u32,
    /// Bytes per decoded pixel: 3 or 4.
    pub channels: u8,
    /// Colour space tag: 0 or 1. It does not affect the decoded bytes.
    pub colorspace: u8,
}

impl ImageHeader {
    /// Number of pixels in the image.
    pub open spec fn pixel_count(self) -> nat {
        (self.width as nat) * (self.height as nat)
    }

    /// Number of bytes the decoded image takes.
    pub open spec fn byte_len(self) -> nat {
        self.pixel_count() * (self.channels as nat)
    }

    /// The limits every header that the decoder accepts stays within.
    pub open spec fn in_limits(self) -> bool {
        &&& (self.channels == 3 || self.channels == 4)
        &&& (self.colorspace == 0 || self.colorspace == 1)
        &&& 1 <= self.pixel_count() <= MAX_PIXELS
    }
}

/// How one attempt to decode an image into a buffer ended.
#[derive(Clone, Copy, Debug, PartialEq, Eq)]
pub enum DecodeOutcome {
    /// The buffer now holds the image that the header describes.
    Decoded(ImageHeader),
    /// The buffer is too small; the image needs `required` bytes.
    TooSmall { required: usize },
    /// The bytes are not a well-formed image.
    Invalid,
}

/// The header that `qoi::decode_header` reads from `data`, or `None` where
/// it reports an error.
pub uninterp spec fn qoi_header(data: Seq<u8>) -> Option<ImageHeader>;

/// The pixel bytes that `qoi::decode_to_buf` writes for `data` into a buffer
/// of exactly the required length, or `None` where it reports an error.
pub uninterp spec fn qoi_pixels(data: Seq<u8>) -> Option<Seq<u8>>;

/// Reads the image header with `qoi::decode_header`.
///
/// Trusted: the result is the header the crate reads, named `qoi_header`;
/// an accepted header has 3 or 4 channels, colour space 0 or 1, and between
/// 1 and 400 million pixels, which is what the crate's header validation
/// checks before it returns one.
#[verifier::external_body]
fn read_header(data: &[u8]) -> (header: Option<ImageHeader>)
    ensures
        header == qoi_header(data@),
        header matches Some(h) ==> h.in_limits(),
{
    match qoi::decode_header(data) {
        Ok(h) => Some(
            ImageHeader {
                width: h.width,
                height: h.height,
                channels: h.channels.as_u8(),
                colorspace: h.colorspace.as_u8(),
            },
        ),
        Err(_) => None,
    }
}

/// Decodes `data` into `buf` with `qoi::decode_to_buf`.
///
/// Trusted, as the crate's source shows it: the call first reads the header
/// as `qoi::decode_header` does and fails where that fails; with a buffer
/// shorter than the image it reports the required length and leaves the
/// buffer alone; with a buffer of exactly that length it either fills the
/// whole buffer with the decoded pixels, named `qoi_pixels`, and returns the
/// header, or reports an error. A longer buffer is left out: the crate hands
/// the whole buffer to its pixel loop, which then panics or fails.
#[verifier::external_body]
fn decode_into(buf: &mut Vec<u8>, data: &[u8]) -> (outcome: DecodeOutcome)
    requires
        qoi_header(data@) matches Some(h) ==> old(buf)@.len() <= h.byte_len(),
    ensures
        final(buf)@.len() == old(buf)@.len(),
        qoi_header(data@) is None ==> outcome is Invalid,
        qoi_header(data@) matches Some(h) ==> if old(buf)@.len() < h.byte_len() {
            outcome matches DecodeOutcome::TooSmall { required } && required == h.byte_len()
                && final(buf)@ == old(buf)@
        } else {
            match qoi_pixels(data@) {
                Some(pixels) => outcome == DecodeOutcome::Decoded(h) && final(buf)@ == pixels,
                None => outcome is Invalid,
            }
        },
{
    match qoi::decode_to_buf(buf.as_mut_slice(), data) {
        Ok(h) => DecodeOutcome::Decoded(
            ImageHeader {
                width: h.width,
                height: h.height,
                channels: h.channels.as_u8(),
                colorspace: h.colorspace.as_u8(),
            },
        ),
        Err(qoi::Error::OutputBufferTooSmall { required, .. }) => DecodeOutcome::TooSmall {
            required,
        },
        Err(_) => DecodeOutcome::Invalid,
    }
}

/// The image that `data` encodes: its header and its pixel bytes in the
/// order the decoder produces them. `None` where the decoder rejects the
/// header or the pixel stream.
pub open spec fn encoded_image(data: Seq<u8>) -> Option<(ImageHeader, Seq<u8>)> {
    match (qoi_header(data), qoi_pixels(data)) {
        (Some(header), Some(pixels)) => Some((header, pixels)),
        _ => None,
    }
}

/// `pixels` with the bytes at positions 0 and 2 of every complete four-byte
/// group exchanged. Bytes of an incomplete last group stay where they are.
pub open spec fn swap_red_blue(pixels: Seq<u8>) -> Seq<u8> {
    Seq::new(
        pixels.len(),
        |i: int|
            if (i / 4) * 4 + 4 <= pixels.len() {
                if i % 4 == 0 {
                    pixels[i + 2]
                } else if i % 4 == 2 {
                    pixels[i - 2]
                } else {
                    pixels[i]
                }
            } else {
                pixels[i]
            },
    )
}

/// Exchanges the first and third byte of every complete four-byte pixel.
pub fn swap_channels(pixels: &mut Vec<u8>)
    ensures
        final(pixels)@ == swap_red_blue(old(pixels)@),
{
    let len: usize = pixels.len();
    let mut i: usize = 0;
    while len - i >= 4
        invariant
            i <= len,
            i % 4 == 0,
            pixels@.len() == len,
            old(pixels)@.len() == len,
            forall|j: int| 0 <= j < i ==> pixels@[j] == #[trigger] swap_red_blue(old(pixels)@)[j],
            forall|j: int| i <= j < len ==> #[trigger] pixels@[j] == old(pixels)@[j],
        decreases len - i,
    {
        let first: u8 = pixels[i];
        let third: u8 = pixels[i + 2];
        pixels.set(i, third);
        pixels.set(i + 2, first);
        i += 4;
    }
    assert(pixels@ =~= swap_red_blue(old(pixels)@));
}

/// One decoded image with its channel order already matched to the display.
#[derive(Debug)]
pub struct DecodedFrame {
    /// Width in pixels.
    pub width: u32,
    /// Height in pixels.
    pub height: u32,
    /// Bytes per pixel that the decoder produced.
    pub channels: u8,
    /// Pixel bytes, row after row.
    pub pixels: Vec<u8>,
}

/// The mathematical content of a `DecodedFrame`.
pub struct FrameView {
    pub width: nat,
    pub height: nat,
    pub channels: nat,
    pub pixels: Seq<u8>,
}

impl View for DecodedFrame {
    type V = FrameView;

    open spec fn view(&self) -> FrameView {
        FrameView {
            width: self.width as nat,
            height: self.height as nat,
            channels: self.channels as nat,
            pixels: self.pixels@,
        }
    }
}

/// The frame made of a decoded image: same dimensions, channels swapped.
pub open spec fn frame_of(header: ImageHeader, pixels: Seq<u8>) -> FrameView {
    FrameView {
        width: header.width as nat,
        height: header.height as nat,
        channels: header.channels as nat,
        pixels: swap_red_blue(pixels),
    }
}

/// The frame that a record's payload decodes to, or `None` where the
/// payload is not a well-formed image and the record is dropped.
pub open spec fn decoded_frame(data: Seq<u8>) -> Option<FrameView> {
    match encoded_image(data) {
        Some((header, pixels)) => Some(frame_of(header, pixels)),
        None => None,
    }
}

impl DecodedFrame {
    /// Builds the frame from what the decoder returned, swapping the red
    /// and blue channels so that the bytes match the display's order.
    pub fn from_decoded(header: ImageHeader, pixels: Vec<u8>) -> (frame: DecodedFrame)
        ensures
            frame@ == frame_of(header, pixels@),
    {
        let mut pixels = pixels;
        swap_channels(&mut pixels);
        DecodedFrame {
            width: header.width,
            height: header.height,
            channels: header.channels,
            pixels,
        }
    }
}

/// Decodes one image into a buffer of its own. The buffer starts empty;
/// when the decoder says it is too small it is grown to the required size
/// and the decode is tried once more. Any other failure gives `None`.
pub fn decode_image(data: &[u8]) -> (image: Option<(ImageHeader, Vec<u8>)>)
    ensures
        match encoded_image(data@) {
            Some((header, pixels)) => image matches Some(found) && found.0 == header && found.1@
                == pixels,
            None => image is None,
        },
        image matches Some(found) ==> found.1@.len() == found.0.byte_len(),
{
    let mut buf: Vec<u8> = Vec::new();
    let mut outcome = decode_into(&mut buf, data);
    if let DecodeOutcome::TooSmall { required } = outcome {
        buf.resize(required, 0u8);
        outcome = decode_into(&mut buf, data);
    }
    match outcome {
        DecodeOutcome::Decoded(header) => Some((header, buf)),
        _ => None,
    }
}

/// Decodes one image into `buf`, which is first resized to the length that
/// the image's header asks for. On failure the buffer's contents are left
/// unspecified.
pub fn decode_to_buffer(buf: &mut Vec<u8>, data: &[u8]) -> (header: Option<ImageHeader>)
    ensures
        match encoded_image(data@) {
            Some((expected, pixels)) => header == Some(expected) && final(buf)@ == pixels,
            None => header is None,
        },
        header matches Some(h) ==> h.in_limits() && final(buf)@.len() == h.byte_len(),
{
    match read_header(data) {
        None => None,
        Some(announced) => {
            proof {
                assert(announced.width * announced.height <= 0xFFFF_FFFF * 0xFFFF_FFFF)
                    by (nonlinear_arith)
                    requires
                        0 <= announced.width <= 0xFFFF_FFFF,
                        0 <= announced.height <= 0xFFFF_FFFF,
                ;
                assert(announced.pixel_count() * announced.channels <= 400_000_000 * 4)
                    by (nonlinear_arith)
                    requires
                        0 <= announced.pixel_count() <= 400_000_000,
                        0 <= announced.channels <= 4,
                ;
            }
            let pixel_count: u64 = announced.width as u64 * announced.height as u64;
            let needed: u64 = pixel_count * announced.channels as u64;
            buf.resize(needed as usize, 0u8);
            match decode_into(buf, data) {
                DecodeOutcome::Decoded(header) => Some(header),
                _ => None,
            }
        },
    }
}

/// Decodes one record into a frame. A record that does not decode is
/// dropped.
pub fn decode_record(data: &[u8]) -> (frame: Option<DecodedFrame>)
    ensures
        match decoded_frame(data@) {
            Some(expected) => frame matches Some(f) && f@ == expected,
            None => frame is None,
        },
{
    match decode_image(data) {
        Some((header, pixels)) => Some(DecodedFrame::from_decoded(header, pixels)),
        None => None,
    }
}

/// Reads only the header of a record's payload.
pub fn record_header(data: &[u8]) -> (header: Option<ImageHeader>)
    ensures
        header == qoi_header(data@),
        header matches Some(h) ==> h.in_limits(),
{
    read_header(data)
}

} // verus!
