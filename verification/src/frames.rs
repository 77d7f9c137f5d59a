//! One step of single-core playback: take the next record from the source,
//! decode it, and bring its pixels into the layout that the display service
//! takes. Drawing the result is left to the caller.

use vstd::prelude::*;
use crate::buffer::{
    convert_pixels, display_pixels, frame_is_full_rgba, is_full_rgba, pixel_at,
    pixels_from_bytes, BltFrameBuffer, BltPixel, QoiFrameBuffer, RawFrameBuffer, VideoMemory,
};
use crate::codec::{decode_record, decode_to_buffer, decoded_frame, encoded_image, ImageHeader};
use crate::container::{has_record, record_end, record_payload};

verus! {

/// What one step of playback came to.
#[derive(Clone, Copy, Debug, PartialEq, Eq)]
pub enum FrameStep {
    /// A frame of this size is ready in the pixel buffer.
    Show { width: u32, height: u32 },
    /// The record did not decode and was dropped; nothing is to be drawn.
    Dropped,
    /// The source was at its end and has been rewound.
    Rewound,
}

/// The black pixel that fresh buffer space is filled with.
pub open spec fn black() -> BltPixel {
    BltPixel { blue: 0, green: 0, red: 0, reserved: 0 }
}

/// `pixels` extended with black pixels to at least `len` pixels.
pub open spec fn grown(pixels: Seq<BltPixel>, len: nat) -> Seq<BltPixel> {
    if pixels.len() >= len {
        pixels
    } else {
        pixels + Seq::new((len - pixels.len()) as nat, |i: int| black())
    }
}

/// Extends `pixels` with black pixels until it holds at least `len`.
pub fn grow_pixels(pixels: &mut Vec<BltPixel>, len: usize)
    ensures
        final(pixels)@ == grown(old(pixels)@, len as nat),
{
    while pixels.len() < len
        invariant
            pixels@.len() >= old(pixels)@.len(),
            pixels@.len() <= len || pixels@.len() == old(pixels)@.len(),
            forall|i: int| 0 <= i < old(pixels)@.len() ==> pixels@[i] == old(pixels)@[i],
            forall|i: int| old(pixels)@.len() <= i < pixels@.len() ==> pixels@[i] == black(),
        decreases len - pixels.len(),
    {
        pixels.push(BltPixel::new(0, 0, 0));
    }
    assert(pixels@ =~= grown(old(pixels)@, len as nat));
}

/// The pixel buffer after the image `(header, decoded)` has been brought
/// into it: the buffer is grown to the image's pixel count where it is
/// shorter, the image's pixels take the leading places and keep the reserved
/// byte that was there, and all further pixels keep their value.
pub open spec fn shown_pixels(before: Seq<BltPixel>, header: ImageHeader, decoded: Seq<u8>) -> Seq<
    BltPixel,
> {
    let room = grown(before, header.pixel_count());
    Seq::new(
        room.len(),
        |i: int|
            if i < header.pixel_count() {
                pixel_at(decoded, header.channels as nat, i, room[i].reserved)
            } else {
                room[i]
            },
    )
}

/// Decodes the image `data` into `raw` and converts its pixels into `blt`.
/// Returns the image's header, or `None`, with `blt` untouched, where the
/// image does not decode.
pub fn load_frame(data: &[u8], raw: &mut RawFrameBuffer, blt: &mut BltFrameBuffer) -> (shown:
    Option<ImageHeader>)
    ensures
        match encoded_image(data@) {
            Some((header, pixels)) => {
                &&& shown == Some(header)
                &&& final(raw).header == header
                &&& final(raw).pixels@ == pixels
                &&& final(blt).0@ == shown_pixels(old(blt).0@, header, pixels)
            },
            None => {
                &&& shown is None
                &&& final(raw).header == old(raw).header
                &&& final(blt).0@ == old(blt).0@
            },
        },
{
    match decode_to_buffer(&mut raw.pixels, data) {
        None => None,
        Some(header) => {
            raw.header = header;
            let pixel_count: u64 = raw.get_size();
            grow_pixels(&mut blt.0, pixel_count as usize);
            proof {
                let count = header.pixel_count();
                let step = header.channels as nat;
                assert((count * step) / step == count) by (nonlinear_arith)
                    requires
                        step > 0,
                ;
            }
            convert_pixels(raw.pixels.as_slice(), header.channels as usize, &mut blt.0);
            assert(blt.0@ =~= shown_pixels(old(blt).0@, header, raw.pixels@));
            Some(header)
        },
    }
}

/// One step of playback from a container in memory. Where a record is left
/// it is taken and decoded into `raw` and `blt`; where it does not decode it
/// is dropped. At the end of the container the source is rewound.
pub fn advance_frame(
    video: &mut VideoMemory,
    qoi: &mut QoiFrameBuffer,
    raw: &mut RawFrameBuffer,
    blt: &mut BltFrameBuffer,
) -> (step: FrameStep)
    ensures
        final(video).data == old(video).data,
        if has_record(old(video).data@, old(video).cursor as int) {
            let payload = record_payload(old(video).data@, old(video).cursor as int);
            &&& final(video).cursor == record_end(old(video).data@, old(video).cursor as int)
            &&& final(qoi).0@ == payload
            &&& match encoded_image(payload) {
                Some((header, pixels)) => {
                    &&& step == (FrameStep::Show { width: header.width, height: header.height })
                    &&& final(raw).header == header
                    &&& final(raw).pixels@ == pixels
                    &&& final(blt).0@ == shown_pixels(old(blt).0@, header, pixels)
                },
                None => {
                    &&& step == FrameStep::Dropped
                    &&& final(blt).0@ == old(blt).0@
                    &&& final(raw).header == old(raw).header
                },
            }
        } else {
            &&& step == FrameStep::Rewound
            &&& final(video).cursor == 0
            &&& final(qoi).0@ == old(qoi).0@
            &&& final(blt).0@ == old(blt).0@
            &&& final(raw).header == old(raw).header
            &&& final(raw).pixels@ == old(raw).pixels@
        },
{
    if video.next_frame(&mut qoi.0) {
        match load_frame(qoi.0.as_slice(), raw, blt) {
            Some(header) => FrameStep::Show { width: header.width, height: header.height },
            None => FrameStep::Dropped,
        }
    } else {
        video.rewind();
        FrameStep::Rewound
    }
}

/// The pixel buffer after a frame already in display order has been written
/// to its leading places; the buffer is grown where it is shorter.
pub open spec fn placed_pixels(before: Seq<BltPixel>, frame: Seq<BltPixel>) -> Seq<BltPixel> {
    let room = grown(before, frame.len());
    Seq::new(
        room.len(),
        |i: int|
            if i < frame.len() {
                frame[i]
            } else {
                room[i]
            },
    )
}

/// Writes `frame` to the leading places of `pixels`, growing it as needed.
pub fn place_pixels(pixels: &mut Vec<BltPixel>, frame: &[BltPixel])
    ensures
        final(pixels)@ == placed_pixels(old(pixels)@, frame@),
{
    grow_pixels(pixels, frame.len());
    let ghost room = pixels@;
    let mut i: usize = 0;
    while i < frame.len()
        invariant
            i <= frame.len() <= pixels.len(),
            pixels@.len() == room.len(),
            forall|k: int| 0 <= k < i ==> pixels@[k] == frame@[k],
            forall|k: int| i <= k < room.len() ==> pixels@[k] == room[k],
        decreases frame.len() - i,
    {
        pixels.set(i, frame[i]);
        i += 1;
    }
    assert(pixels@ =~= placed_pixels(old(pixels)@, frame@));
}

/// One step of playback that decodes straight into display order: the
/// record is decoded, its red and blue channels are exchanged, and the
/// result is read as pixels. A record that does not decode, or does not hold
/// four bytes per pixel, is dropped.
pub fn advance_frame_direct(
    video: &mut VideoMemory,
    qoi: &mut QoiFrameBuffer,
    blt: &mut BltFrameBuffer,
) -> (step: FrameStep)
    ensures
        final(video).data == old(video).data,
        if has_record(old(video).data@, old(video).cursor as int) {
            let payload = record_payload(old(video).data@, old(video).cursor as int);
            &&& final(video).cursor == record_end(old(video).data@, old(video).cursor as int)
            &&& final(qoi).0@ == payload
            &&& match decoded_frame(payload) {
                Some(frame) if is_full_rgba(frame) => {
                    &&& step == (FrameStep::Show {
                        width: frame.width as u32,
                        height: frame.height as u32,
                    })
                    &&& final(blt).0@ == placed_pixels(old(blt).0@, display_pixels(frame.pixels))
                },
                _ => step == FrameStep::Dropped && final(blt).0@ == old(blt).0@,
            }
        } else {
            &&& step == FrameStep::Rewound
            &&& final(video).cursor == 0
            &&& final(qoi).0@ == old(qoi).0@
            &&& final(blt).0@ == old(blt).0@
        },
{
    if video.next_frame(&mut qoi.0) {
        match decode_record(qoi.0.as_slice()) {
            Some(frame) => {
                if frame_is_full_rgba(&frame) {
                    let pixels = pixels_from_bytes(frame.pixels.as_slice());
                    place_pixels(&mut blt.0, pixels.as_slice());
                    FrameStep::Show { width: frame.width, height: frame.height }
                } else {
                    FrameStep::Dropped
                }
            },
            None => FrameStep::Dropped,
        }
    } else {
        video.rewind();
        FrameStep::Rewound
    }
}

} // verus!
