//! The container decoder: walks the records of a container and decodes each
//! into a frame. A record that does not decode is dropped and counted; the
//! walk goes on with the next one.

use vstd::prelude::*;
use crate::codec::{decode_record, decoded_frame, DecodedFrame, FrameView};
use crate::container::{records, spans_of, split_records, RecordSpan};

verus! {

/// The frames that a sequence of record payloads decodes to, in order.
/// Payloads that do not decode contribute nothing.
pub open spec fn decode_all(payloads: Seq<Seq<u8>>) -> Seq<FrameView>
    decreases payloads.len(),
{
    if payloads.len() == 0 {
        Seq::empty()
    } else {
        let earlier = decode_all(payloads.drop_last());
        match decoded_frame(payloads.last()) {
            Some(frame) => earlier.push(frame),
            None => earlier,
        }
    }
}

/// The frames of a whole container.
pub open spec fn container_frames(data: Seq<u8>) -> Seq<FrameView> {
    decode_all(records(data))
}

/// The views of a sequence of frames.
pub open spec fn frame_views(frames: Seq<DecodedFrame>) -> Seq<FrameView> {
    frames.map_values(|f: DecodedFrame| f@)
}

/// What decoding a container produced.
#[derive(Debug)]
pub struct DecodedStream {
    /// The decoded frames, in stream order.
    pub frames: Vec<DecodedFrame>,
    /// How many records were dropped because they did not decode.
    pub dropped: usize,
}

/// Every payload yields at most one frame.
pub proof fn lemma_decode_all_len(payloads: Seq<Seq<u8>>)
    ensures
        decode_all(payloads).len() <= payloads.len(),
    decreases payloads.len(),
{
    if payloads.len() > 0 {
        lemma_decode_all_len(payloads.drop_last());
    }
}

/// Decodes every record of `data`. Records that fail to decode are skipped
/// and counted in `dropped`; an incomplete tail is ignored.
pub fn decode_container(data: &[u8]) -> (stream: DecodedStream)
    ensures
        frame_views(stream.frames@) == container_frames(data@),
        stream.dropped == records(data@).len() - container_frames(data@).len(),
{
    let spans: Vec<RecordSpan> = split_records(data);
    let mut frames: Vec<DecodedFrame> = Vec::new();
    let mut dropped: usize = 0;
    let mut i: usize = 0;
    while i < spans.len()
        invariant
            i <= spans@.len(),
            spans_of(data@, spans@),
            frame_views(frames@) =~= decode_all(records(data@).take(i as int)),
            frames@.len() + dropped == i,
        decreases spans@.len() - i,
    {
        let span: RecordSpan = spans[i];
        let payload: &[u8] = &data[span.start..span.end];
        proof {
            let upto = records(data@).take(i + 1);
            assert(upto.drop_last() =~= records(data@).take(i as int));
            assert(upto.last() == payload@);
        }
        match decode_record(payload) {
            Some(frame) => {
                frames.push(frame);
            },
            None => {
                dropped += 1;
            },
        }
        i += 1;
    }
    proof {
        assert(records(data@).take(i as int) =~= records(data@));
    }
    DecodedStream { frames, dropped }
}

} // verus!
