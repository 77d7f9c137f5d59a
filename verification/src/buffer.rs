//! The buffers a frame passes through on its way to the screen: the encoded
//! record, the decoded pixel bytes, and the pixels in the layout the display
//! service takes. Also the two in-memory frame sources: one that hands out
//! encoded records, one that holds every frame already decoded.

use vstd::prelude::*;
use crate::codec::{ImageHeader, FrameView, DecodedFrame};
use crate::container::{has_record, next_record, record_end, record_payload};
use crate::decoder::{container_frames, decode_container, frame_views};
use crate::partition::zeros;

verus! {

/// Holds the encoded bytes of one record.
#[derive(Debug)]
pub struct QoiFrameBuffer(pub Vec<u8>);

impl QoiFrameBuffer {
    /// A buffer of `size` zero bytes.
    pub fn new(size: usize) -> (buffer: Self)
        ensures
            buffer.0@ == zeros(size as nat),
    {
        let bytes: Vec<u8> = vec![0u8; size];
        assert(bytes@ =~= zeros(size as nat));
        QoiFrameBuffer(bytes)
    }
}

/// Holds the decoded bytes of one image and the header they belong to.
#[derive(Debug)]
pub struct RawFrameBuffer {
    /// Decoded pixel bytes.
    pub pixels: Vec<u8>,
    /// Header of the image that `pixels` holds.
    pub header: ImageHeader,
}

impl RawFrameBuffer {
    /// A buffer of `size` zero bytes, with the header of a 1x1 image of
    /// three channels.
    pub fn new(size: usize) -> (buffer: Self)
        ensures
            buffer.pixels@ == zeros(size as nat),
            buffer.header == (ImageHeader { width: 1, height: 1, channels: 3, colorspace: 0 }),
    {
        let pixels: Vec<u8> = vec![0u8; size];
        assert(pixels@ =~= zeros(size as nat));
        RawFrameBuffer {
            pixels,
            header: ImageHeader { width: 1, height: 1, channels: 3, colorspace: 0 },
        }
    }

    /// Number of pixels of the image that the header describes.
    pub fn get_size(&self) -> (count: u64)
        ensures
            count == self.header.pixel_count(),
    {
        proof {
            assert(self.header.width * self.header.height <= 0xFFFF_FFFF * 0xFFFF_FFFF)
                by (nonlinear_arith)
                requires
                    0 <= self.header.width <= 0xFFFF_FFFF,
                    0 <= self.header.height <= 0xFFFF_FFFF,
            ;
        }
        self.header.width as u64 * self.header.height as u64
    }
}

/// One pixel in the layout of the display service: blue first.
#[derive(Clone, Copy, Debug, PartialEq, Eq)]
pub struct BltPixel {
    pub blue: u8,
    pub green: u8,
    pub red: u8,
    pub reserved: u8,
}

impl BltPixel {
    /// A pixel of the given colour; the reserved byte is zero.
    pub fn new(red: u8, green: u8, blue: u8) -> (pixel: Self)
        ensures
            pixel == (BltPixel { blue, green, red, reserved: 0 }),
    {
        BltPixel { blue, green, red, reserved: 0 }
    }
}

/// Holds the pixels of one frame as handed to the display service.
#[derive(Debug)]
pub struct BltFrameBuffer(pub Vec<BltPixel>);

impl BltFrameBuffer {
    /// A buffer of `size` black pixels.
    pub fn new(size: usize) -> (buffer: Self)
        ensures
            buffer.0@.len() == size,
            forall|i: int|
                0 <= i < size ==> #[trigger] buffer.0@[i] == (BltPixel {
                    blue: 0,
                    green: 0,
                    red: 0,
                    reserved: 0,
                }),
    {
        let mut pixels: Vec<BltPixel> = Vec::new();
        let mut i: usize = 0;
        while i < size
            invariant
                i <= size,
                pixels@.len() == i,
                forall|k: int|
                    0 <= k < i ==> #[trigger] pixels@[k] == (BltPixel {
                        blue: 0,
                        green: 0,
                        red: 0,
                        reserved: 0,
                    }),
            decreases size - i,
        {
            pixels.push(BltPixel::new(0, 0, 0));
            i += 1;
        }
        BltFrameBuffer(pixels)
    }
}

/// The pixels that decoded bytes with `step` bytes per pixel stand for: the
/// first three bytes of each pixel are red, green and blue.
pub open spec fn pixel_at(raw: Seq<u8>, step: nat, i: int, reserved: u8) -> BltPixel {
    BltPixel { blue: raw[i * step + 2], green: raw[i * step + 1], red: raw[i * step], reserved }
}

/// How many pixels a conversion of `raw_len` bytes into a buffer of
/// `capacity` pixels fills: as many as both sides have.
pub open spec fn converted_count(raw_len: nat, step: nat, capacity: nat) -> nat {
    if raw_len / step < capacity {
        raw_len / step
    } else {
        capacity
    }
}

/// Sets the colour of the leading pixels of `blt` from decoded bytes with
/// `step` bytes per pixel. As many pixels are set as `raw` holds whole
/// pixels and `blt` has room for; the reserved byte of a pixel and all
/// further pixels keep their value.
pub fn convert_pixels(raw: &[u8], step: usize, blt: &mut Vec<BltPixel>) -> (count: usize)
    requires
        step >= 3,
    ensures
        count == converted_count(raw@.len(), step as nat, old(blt)@.len()),
        final(blt)@.len() == old(blt)@.len(),
        forall|i: int|
            0 <= i < count ==> #[trigger] final(blt)@[i] == pixel_at(
                raw@,
                step as nat,
                i,
                old(blt)@[i].reserved,
            ),
        forall|i: int| count <= i < old(blt)@.len() ==> #[trigger] final(blt)@[i] == old(blt)@[i],
{
    let available: usize = raw.len() / step;
    let count: usize = if available < blt.len() {
        available
    } else {
        blt.len()
    };
    let mut i: usize = 0;
    while i < count
        invariant
            step >= 3,
            i <= count <= raw.len() / step,
            count <= blt.len(),
            blt@.len() == old(blt)@.len(),
            forall|k: int|
                0 <= k < i ==> #[trigger] blt@[k] == pixel_at(
                    raw@,
                    step as nat,
                    k,
                    old(blt)@[k].reserved,
                ),
            forall|k: int| i <= k < blt@.len() ==> #[trigger] blt@[k] == old(blt)@[k],
        decreases count - i,
    {
        proof {
            let whole = raw.len() / step;
            assert(whole * step <= raw.len()) by (nonlinear_arith)
                requires
                    whole == raw.len() / step,
                    step > 0,
            ;
            assert(i * step + step <= whole * step) by (nonlinear_arith)
                requires
                    i + 1 <= whole,
                    step > 0,
            ;
        }
        let base: usize = i * step;
        let reserved: u8 = blt[i].reserved;
        let pixel = BltPixel { blue: raw[base + 2], green: raw[base + 1], red: raw[base], reserved };
        blt.set(i, pixel);
        i += 1;
    }
    count
}

/// The pixels that bytes already in display order stand for, four bytes to
/// a pixel: blue, green, red, reserved.
pub open spec fn display_pixels(bytes: Seq<u8>) -> Seq<BltPixel> {
    Seq::new(
        bytes.len() / 4,
        |i: int|
            BltPixel {
                blue: bytes[4 * i],
                green: bytes[4 * i + 1],
                red: bytes[4 * i + 2],
                reserved: bytes[4 * i + 3],
            },
    )
}

/// Reads bytes in display order as pixels.
pub fn pixels_from_bytes(bytes: &[u8]) -> (pixels: Vec<BltPixel>)
    ensures
        pixels@ == display_pixels(bytes@),
{
    let count: usize = bytes.len() / 4;
    let mut pixels: Vec<BltPixel> = Vec::new();
    let mut i: usize = 0;
    while i < count
        invariant
            count == bytes.len() / 4,
            i <= count,
            pixels@.len() == i,
            forall|k: int| 0 <= k < i ==> #[trigger] pixels@[k] == display_pixels(bytes@)[k],
        decreases count - i,
    {
        let base: usize = 4 * i;
        pixels.push(
            BltPixel {
                blue: bytes[base],
                green: bytes[base + 1],
                red: bytes[base + 2],
                reserved: bytes[base + 3],
            },
        );
        i += 1;
    }
    assert(pixels@ =~= display_pixels(bytes@));
    pixels
}

/// A container held in memory, read record by record.
#[derive(Debug)]
pub struct VideoMemory {
    /// The bytes of the container.
    pub data: Vec<u8>,
    /// Offset of the next record.
    pub cursor: usize,
}

impl VideoMemory {
    /// A source that starts at the first record of `data`.
    pub fn new(data: Vec<u8>) -> (video: Self)
        ensures
            video.data == data,
            video.cursor == 0,
    {
        VideoMemory { data, cursor: 0 }
    }

    /// Copies the payload of the next record into `qoi_buf` and moves past
    /// it. Returns `false`, changing nothing, where no whole record is left.
    pub fn next_frame(&mut self, qoi_buf: &mut Vec<u8>) -> (more: bool)
        ensures
            final(self).data == old(self).data,
            more == has_record(old(self).data@, old(self).cursor as int),
            more ==> final(qoi_buf)@ == record_payload(old(self).data@, old(self).cursor as int)
                && final(self).cursor == record_end(old(self).data@, old(self).cursor as int),
            !more ==> final(qoi_buf)@ == old(qoi_buf)@ && final(self).cursor == old(self).cursor,
    {
        match next_record(self.data.as_slice(), self.cursor) {
            Some(span) => {
                qoi_buf.clear();
                let payload: &[u8] = &self.data.as_slice()[span.start..span.end];
                qoi_buf.extend_from_slice(payload);
                assert(qoi_buf@ =~= payload@);
                self.cursor = span.end;
                true
            },
            None => false,
        }
    }

    /// Goes back to the first record.
    pub fn rewind(&mut self)
        ensures
            final(self).data == old(self).data,
            final(self).cursor == 0,
    {
        self.cursor = 0;
    }
}

/// Whether a frame holds four bytes for each of its pixels.
pub open spec fn is_full_rgba(frame: FrameView) -> bool {
    frame.channels == 4 && frame.pixels.len() == frame.width * frame.height * 4
}

/// The frames among `frames` that hold four bytes per pixel, as pixels.
pub open spec fn display_frames(frames: Seq<FrameView>) -> Seq<Seq<BltPixel>>
    decreases frames.len(),
{
    if frames.len() == 0 {
        Seq::empty()
    } else {
        let earlier = display_frames(frames.drop_last());
        if is_full_rgba(frames.last()) {
            earlier.push(display_pixels(frames.last().pixels))
        } else {
            earlier
        }
    }
}

/// The contents of a sequence of pixel buffers.
pub open spec fn pixel_views(frames: Seq<Vec<BltPixel>>) -> Seq<Seq<BltPixel>> {
    frames.map_values(|f: Vec<BltPixel>| f@)
}

/// Every frame of a container, decoded ahead of time and kept as pixels.
#[derive(Debug)]
pub struct VideoMemoryRaw {
    /// One pixel buffer per frame, in stream order.
    pub frames: Vec<Vec<BltPixel>>,
    /// Index of the next frame to hand out.
    pub cursor: usize,
}

/// Whether `frame` holds four bytes for each of its pixels.
pub fn frame_is_full_rgba(frame: &DecodedFrame) -> (full: bool)
    ensures
        full == is_full_rgba(frame@),
{
    proof {
        assert(frame.width * frame.height * 4 <= 0xFFFF_FFFF * 0xFFFF_FFFF * 4)
            by (nonlinear_arith)
            requires
                0 <= frame.width <= 0xFFFF_FFFF,
                0 <= frame.height <= 0xFFFF_FFFF,
        ;
    }
    let needed: u128 = frame.width as u128 * frame.height as u128 * 4;
    frame.channels == 4 && frame.pixels.len() as u128 == needed
}

impl VideoMemoryRaw {
    /// Decodes every record of `data`. Records that do not decode, and
    /// frames that do not hold four bytes per pixel, are left out.
    pub fn new(data: &[u8]) -> (video: Self)
        ensures
            video.cursor == 0,
            pixel_views(video.frames@) == display_frames(container_frames(data@)),
    {
        let stream = decode_container(data);
        let mut frames: Vec<Vec<BltPixel>> = Vec::new();
        let mut i: usize = 0;
        while i < stream.frames.len()
            invariant
                i <= stream.frames@.len(),
                frame_views(stream.frames@) == container_frames(data@),
                pixel_views(frames@) =~= display_frames(container_frames(data@).take(i as int)),
            decreases stream.frames@.len() - i,
        {
            proof {
                let upto = container_frames(data@).take(i + 1);
                assert(upto.drop_last() =~= container_frames(data@).take(i as int));
                assert(upto.last() == stream.frames@[i as int]@);
            }
            if frame_is_full_rgba(&stream.frames[i]) {
                frames.push(pixels_from_bytes(stream.frames[i].pixels.as_slice()));
            }
            i += 1;
        }
        proof {
            assert(container_frames(data@).take(i as int) =~= container_frames(data@));
        }
        VideoMemoryRaw { frames, cursor: 0 }
    }

    /// Hands out the next frame and moves past it; `None` at the end.
    pub fn next_frame(&mut self) -> (frame: Option<&[BltPixel]>)
        ensures
            final(self).frames == old(self).frames,
            match frame {
                Some(pixels) => {
                    &&& old(self).cursor < old(self).frames@.len()
                    &&& pixels@ == old(self).frames@[old(self).cursor as int]@
                    &&& final(self).cursor == old(self).cursor + 1
                },
                None => {
                    &&& old(self).cursor >= old(self).frames@.len()
                    &&& final(self).cursor == old(self).cursor
                },
            },
    {
        if self.cursor >= self.frames.len() {
            return None;
        }
        let index: usize = self.cursor;
        self.cursor = index + 1;
        Some(self.frames[index].as_slice())
    }

    /// Goes back to the first frame.
    pub fn rewind(&mut self)
        ensures
            final(self).frames == old(self).frames,
            final(self).cursor == 0,
    {
        self.cursor = 0;
    }
}

/// The pixel at index `i` of the test picture of the given width: red
/// follows the column, green the row, blue their sum, each modulo 256.
pub open spec fn pattern_pixel(i: nat, width: nat) -> BltPixel {
    BltPixel {
        blue: ((i % width + i / width) % 256) as u8,
        green: ((i / width) % 256) as u8,
        red: ((i % width) % 256) as u8,
        reserved: 0,
    }
}

/// A test picture of `width` by `height` pixels.
pub fn test_pattern(width: usize, height: usize) -> (pixels: Vec<BltPixel>)
    requires
        width * height <= usize::MAX,
    ensures
        pixels@.len() == width * height,
        forall|i: int|
            0 <= i < pixels@.len() ==> #[trigger] pixels@[i] == pattern_pixel(
                i as nat,
                width as nat,
            ),
{
    let mut pixels: Vec<BltPixel> = Vec::new();
    if width == 0 {
        assert(width * height == 0) by (nonlinear_arith)
            requires
                width == 0,
        ;
        return pixels;
    }
    let count: usize = width * height;
    let mut i: usize = 0;
    while i < count
        invariant
            width > 0,
            i <= count,
            pixels@.len() == i,
            forall|k: int|
                0 <= k < i ==> #[trigger] pixels@[k] == pattern_pixel(k as nat, width as nat),
        decreases count - i,
    {
        let x: usize = i % width;
        let y: usize = i / width;
        let sum: usize = (x % 256) + (y % 256);
        proof {
            assert(((x + y) % 256) == ((x % 256 + y % 256) % 256)) by (nonlinear_arith);
        }
        pixels.push(
            BltPixel {
                blue: (sum % 256) as u8,
                green: (y % 256) as u8,
                red: (x % 256) as u8,
                reserved: 0,
            },
        );
        i += 1;
    }
    pixels
}

} // verus!
