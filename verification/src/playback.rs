//! Setting up playback: decode the container, cut every frame into bands,
//! check once that every band fills exactly its core's share of the display
//! surface, and hand each worker what it needs. After that a worker only
//! ever copies a ready band to its own range.

use vstd::prelude::*;
use crate::codec::{DecodedFrame, FrameView};
use crate::container::records;
use crate::copier::{fast_copy, overwritten};
use crate::decoder::{container_frames, decode_container, frame_views};
use crate::error::PlaybackError;
use crate::partition::{
    band_bytes, band_end, band_readable, band_rows, band_start, core_band, fits_memory,
    lemma_band_bounds, lemma_bands_tile_rows, lemma_rows_readable_by_band,
    lemma_single_core_band_is_frame, rows_readable, DisplayGeometry,
};
use crate::sync::{frame_index, frame_index_of};

verus! {

/// Whether the display surface can be addressed: its row pitch and its
/// total size in bytes stay within the machine's range.
pub open spec fn surface_fits(geometry: DisplayGeometry) -> bool {
    &&& geometry.stride_bytes() <= usize::MAX
    &&& geometry.height * geometry.stride_bytes() <= usize::MAX
}

/// Offset of the first byte of the band of `core` on the display surface.
pub open spec fn band_offset(core: nat, cores: nat, geometry: DisplayGeometry) -> nat {
    band_start(core, cores, geometry.height as nat) * geometry.stride_bytes()
}

/// Number of bytes of the display surface that belong to `core`.
pub open spec fn band_len(core: nat, cores: nat, geometry: DisplayGeometry) -> nat {
    ((band_end(core, cores, geometry.height as nat) - band_start(
        core,
        cores,
        geometry.height as nat,
    )) as nat) * geometry.stride_bytes()
}

/// Whether `frame` can be shown on this display: its bands can be built,
/// every video row they show lies inside the pixel buffer, and every band
/// fills exactly its core's share of the surface.
pub open spec fn frame_fits(frame: FrameView, cores: nat, geometry: DisplayGeometry) -> bool {
    &&& fits_memory(frame, geometry)
    &&& rows_readable(frame, geometry.height as nat)
    &&& forall|core: nat|
        core < cores ==> (#[trigger] band_bytes(frame, core, cores, geometry)).len() == band_len(
            core,
            cores,
            geometry,
        )
}

/// Whether every one of `frames` can be shown on this display.
pub open spec fn all_fit(frames: Seq<FrameView>, cores: nat, geometry: DisplayGeometry) -> bool {
    forall|i: int| 0 <= i < frames.len() ==> frame_fits(#[trigger] frames[i], cores, geometry)
}

/// Whether playback of `container` can start, and the reason where it
/// cannot: no core; a geometry that does not fit; not a single frame.
pub open spec fn startup_check(container: Seq<u8>, geometry: DisplayGeometry, cores: nat) -> Result<
    (),
    PlaybackError,
> {
    if cores == 0 {
        Err(PlaybackError::NoCores)
    } else if !surface_fits(geometry) || !all_fit(container_frames(container), cores, geometry) {
        Err(PlaybackError::InvalidParameter)
    } else if container_frames(container).len() == 0 {
        Err(PlaybackError::NoFrames)
    } else {
        Ok(())
    }
}

/// Everything the workers share, built once before the first of them
/// starts and never changed afterwards.
#[derive(Debug)]
pub struct Playback {
    /// Number of cores that take part.
    pub cores: usize,
    /// Geometry of the display surface.
    pub geometry: DisplayGeometry,
    /// Number of decoded frames; the length of every timeline.
    pub total_frames: usize,
    /// Number of records that were dropped because they did not decode.
    pub dropped: usize,
    /// One timeline per core: the core's band of every frame, in order.
    pub timelines: Vec<Vec<Vec<u8>>>,
}

/// What one worker needs to know about its own share of the work.
#[derive(Clone, Copy, Debug, PartialEq, Eq)]
pub struct WorkerContext {
    /// This worker's core; core 0 is the primary one.
    pub core_id: usize,
    /// Number of cores that take part.
    pub cores: usize,
    /// Number of frames in this worker's timeline.
    pub total_frames: usize,
    /// Distance between two rows of the display surface, in bytes.
    pub stride_bytes: usize,
    /// Offset of this worker's range from the start of the surface.
    pub dest_offset: usize,
    /// Length of this worker's range, and of each of its bands.
    pub band_len: usize,
}

impl Playback {
    /// The structural invariant that makes the workers safe to run without
    /// further checks: at least one core and one frame, one timeline per
    /// core, every timeline of the same length, and every band exactly as
    /// long as its core's range of the surface.
    pub open spec fn wf(&self) -> bool {
        &&& self.cores >= 1
        &&& self.total_frames >= 1
        &&& surface_fits(self.geometry)
        &&& self.timelines@.len() == self.cores
        &&& forall|core: int|
            0 <= core < self.cores ==> (#[trigger] self.timelines@[core])@.len()
                == self.total_frames
        &&& forall|core: int, frame: int|
            0 <= core < self.cores && 0 <= frame < self.total_frames ==> (
            #[trigger] self.timelines@[core]@[frame])@.len() == band_len(
                core as nat,
                self.cores as nat,
                self.geometry,
            )
    }

    /// Whether the timelines hold the bands of exactly `frames`.
    pub open spec fn shows(&self, frames: Seq<FrameView>) -> bool {
        &&& self.total_frames == frames.len()
        &&& forall|core: int, frame: int|
            0 <= core < self.cores && 0 <= frame < frames.len() ==> (
            #[trigger] self.timelines@[core]@[frame])@ == band_bytes(
                frames[frame],
                core as nat,
                self.cores as nat,
                self.geometry,
            )
    }

    /// The band that `core` shows in the round that the counter value
    /// `observed` belongs to.
    pub open spec fn band_for(&self, core: int, observed: nat) -> Seq<u8> {
        self.timelines@[core]@[frame_index_of(
            observed,
            self.cores as nat,
            self.total_frames as nat,
        ) as int]@
    }
}

/// The ranges of the cores tile the display surface in core order: the
/// first starts at offset 0, each starts where the one before it ends, and
/// the last ends at the end of the surface. So no two ranges overlap.
pub proof fn lemma_ranges_tile_surface(cores: nat, geometry: DisplayGeometry)
    requires
        cores >= 1,
    ensures
        band_offset(0, cores, geometry) == 0,
        forall|core: nat|
            core + 1 < cores ==> #[trigger] band_offset(core, cores, geometry) + band_len(
                core,
                cores,
                geometry,
            ) == band_offset(core + 1, cores, geometry),
        band_offset((cores - 1) as nat, cores, geometry) + band_len(
            (cores - 1) as nat,
            cores,
            geometry,
        ) == geometry.height * geometry.stride_bytes(),
        forall|core: nat|
            core < cores ==> #[trigger] band_offset(core, cores, geometry) + band_len(
                core,
                cores,
                geometry,
            ) <= geometry.height * geometry.stride_bytes(),
{
    let height = geometry.height as nat;
    let pitch = geometry.stride_bytes();
    lemma_bands_tile_rows(cores, height);
    assert(band_offset(0, cores, geometry) == 0) by (nonlinear_arith)
        requires
            band_offset(0, cores, geometry) == band_start(0, cores, height) * pitch,
            band_start(0, cores, height) == 0,
    ;
    assert forall|core: nat| core < cores implies #[trigger] band_offset(core, cores, geometry)
        + band_len(core, cores, geometry) == band_end(core, cores, height) * pitch && band_end(
        core,
        cores,
        height,
    ) * pitch <= height * pitch by {
        lemma_band_bounds(core, cores, height);
        let first = band_start(core, cores, height);
        let last = band_end(core, cores, height);
        assert(first * pitch + (last - first) * pitch == last * pitch) by (nonlinear_arith)
            requires
                first <= last,
        ;
        assert(last * pitch <= height * pitch) by (nonlinear_arith)
            requires
                last <= height,
                pitch >= 0,
        ;
    }
}

/// Whether the bands of `frame` can be held in memory on this display.
fn frame_fits_memory(frame: &DecodedFrame, geometry: &DisplayGeometry) -> (fits: bool)
    requires
        surface_fits(*geometry),
    ensures
        fits == fits_memory(frame@, *geometry),
{
    let row_len: u128 = frame.width as u128 * 4;
    let pitch: u128 = geometry.stride as u128 * 4;
    if row_len <= pitch {
        true
    } else {
        proof {
            assert(geometry.height * row_len <= 0xFFFF_FFFF_FFFF_FFFF * 0x4_0000_0000)
                by (nonlinear_arith)
                requires
                    0 <= geometry.height <= 0xFFFF_FFFF_FFFF_FFFF,
                    0 <= row_len <= 0x4_0000_0000,
            ;
        }
        geometry.height as u128 * row_len <= usize::MAX as u128
    }
}

/// Decodes `container`, builds the timeline of every core, and checks the
/// conditions without which no worker may start. Fails with `NoCores`
/// where there is no core, with `InvalidParameter` where the surface cannot
/// be addressed or some frame does not fit it, and with `NoFrames` where no
/// record decoded.
pub fn prepare(container: &[u8], geometry: DisplayGeometry, cores: usize) -> (result: Result<
    Playback,
    PlaybackError,
>)
    ensures
        match result {
            Ok(playback) => {
                &&& startup_check(container@, geometry, cores as nat) is Ok
                &&& playback.wf()
                &&& playback.cores == cores
                &&& playback.geometry == geometry
                &&& playback.shows(container_frames(container@))
                &&& playback.dropped == records(container@).len() - container_frames(
                    container@,
                ).len()
            },
            Err(error) => startup_check(container@, geometry, cores as nat) == Err::<
                (),
                PlaybackError,
            >(error),
        },
{
    if cores == 0 {
        return Err(PlaybackError::NoCores);
    }
    let pitch_wide: u128 = geometry.stride as u128 * 4;
    if pitch_wide > usize::MAX as u128 {
        return Err(PlaybackError::InvalidParameter);
    }
    proof {
        assert(geometry.height * pitch_wide <= 0xFFFF_FFFF_FFFF_FFFF * 0xFFFF_FFFF_FFFF_FFFF)
            by (nonlinear_arith)
            requires
                0 <= geometry.height <= 0xFFFF_FFFF_FFFF_FFFF,
                0 <= pitch_wide <= 0xFFFF_FFFF_FFFF_FFFF,
        ;
    }
    if geometry.height as u128 * pitch_wide > usize::MAX as u128 {
        return Err(PlaybackError::InvalidParameter);
    }
    let stride_bytes: usize = pitch_wide as usize;
    let stream = decode_container(container);
    let total_frames: usize = stream.frames.len();
    let ghost frames = container_frames(container@);
    let mut timelines: Vec<Vec<Vec<u8>>> = Vec::new();
    let mut core: usize = 0;
    while core < cores
        invariant
            core <= cores,
            cores >= 1,
            surface_fits(geometry),
            stride_bytes == geometry.stride_bytes(),
            frames == container_frames(container@),
            frame_views(stream.frames@) == frames,
            total_frames == stream.frames@.len(),
            timelines@.len() == core,
            forall|c: int| 0 <= c < core ==> (#[trigger] timelines@[c])@.len() == total_frames,
            forall|c: int, f: int|
                0 <= c < core && 0 <= f < total_frames ==> {
                    &&& (#[trigger] timelines@[c]@[f])@ == band_bytes(
                        frames[f],
                        c as nat,
                        cores as nat,
                        geometry,
                    )
                    &&& timelines@[c]@[f]@.len() == band_len(c as nat, cores as nat, geometry)
                    &&& fits_memory(frames[f], geometry)
                    &&& band_readable(frames[f], c as nat, cores as nat, geometry.height as nat)
                },
        decreases cores - core,
    {
        let (first, last) = band_rows(core, cores, geometry.height);
        proof {
            assert((last - first) * stride_bytes <= geometry.height * stride_bytes)
                by (nonlinear_arith)
                requires
                    0 <= last - first <= geometry.height,
                    stride_bytes >= 0,
            ;
        }
        let expected: usize = (last - first) * stride_bytes;
        let mut timeline: Vec<Vec<u8>> = Vec::new();
        let mut f: usize = 0;
        while f < total_frames
            invariant
                f <= total_frames,
                core < cores,
                surface_fits(geometry),
                frames == container_frames(container@),
                frame_views(stream.frames@) == frames,
                total_frames == stream.frames@.len(),
                expected == band_len(core as nat, cores as nat, geometry),
                timeline@.len() == f,
                forall|k: int|
                    0 <= k < f ==> {
                        &&& (#[trigger] timeline@[k])@ == band_bytes(
                            frames[k],
                            core as nat,
                            cores as nat,
                            geometry,
                        )
                        &&& timeline@[k]@.len() == expected
                        &&& fits_memory(frames[k], geometry)
                        &&& band_readable(
                            frames[k],
                            core as nat,
                            cores as nat,
                            geometry.height as nat,
                        )
                    },
            decreases total_frames - f,
        {
            let frame: &DecodedFrame = &stream.frames[f];
            assert(frame@ == frames[f as int]);
            if !frame_fits_memory(frame, &geometry) {
                return Err(PlaybackError::InvalidParameter);
            }
            match core_band(frame, &geometry, core, cores) {
                Ok(band) => {
                    if band.len() != expected {
                        assert(!frame_fits(frames[f as int], cores as nat, geometry));
                        return Err(PlaybackError::InvalidParameter);
                    }
                    timeline.push(band);
                },
                Err(error) => {
                    proof {
                        lemma_rows_readable_by_band(
                            frame@,
                            cores as nat,
                            geometry.height as nat,
                        );
                    }
                    return Err(error);
                },
            }
            f += 1;
        }
        timelines.push(timeline);
        core += 1;
    }
    proof {
        assert forall|i: int| 0 <= i < frames.len() implies frame_fits(
            #[trigger] frames[i],
            cores as nat,
            geometry,
        ) by {
            let frame = frames[i];
            assert(timelines@[0]@[i]@.len() >= 0);
            lemma_rows_readable_by_band(frame, cores as nat, geometry.height as nat);
            assert forall|c: nat| c < cores implies #[trigger] band_readable(
                frame,
                c,
                cores as nat,
                geometry.height as nat,
            ) by {
                assert(timelines@[c as int]@[i]@.len() >= 0);
            }
            assert forall|c: nat| c < cores implies (#[trigger] band_bytes(
                frame,
                c,
                cores as nat,
                geometry,
            )).len() == band_len(c, cores as nat, geometry) by {
                assert(timelines@[c as int]@[i]@.len() >= 0);
            }
        }
    }
    if total_frames == 0 {
        return Err(PlaybackError::NoFrames);
    }
    Ok(Playback { cores, geometry, total_frames, dropped: stream.dropped, timelines })
}

impl Playback {
    /// What the worker on `core_id` needs to know about its share.
    pub fn worker(&self, core_id: usize) -> (context: WorkerContext)
        requires
            self.wf(),
            core_id < self.cores,
        ensures
            context.core_id == core_id,
            context.cores == self.cores,
            context.total_frames == self.total_frames,
            context.stride_bytes == self.geometry.stride_bytes(),
            context.dest_offset == band_offset(core_id as nat, self.cores as nat, self.geometry),
            context.band_len == band_len(core_id as nat, self.cores as nat, self.geometry),
            context.dest_offset + context.band_len <= self.geometry.height
                * self.geometry.stride_bytes(),
    {
        let (first, last) = band_rows(core_id, self.cores, self.geometry.height);
        let stride_bytes: usize = self.geometry.stride * 4;
        proof {
            lemma_ranges_tile_surface(self.cores as nat, self.geometry);
            assert(first * stride_bytes <= last * stride_bytes) by (nonlinear_arith)
                requires
                    first <= last,
                    stride_bytes >= 0,
            ;
            assert(first * stride_bytes + (last - first) * stride_bytes == last * stride_bytes)
                by (nonlinear_arith)
                requires
                    first <= last,
            ;
            assert(band_offset(core_id as nat, self.cores as nat, self.geometry) + band_len(
                core_id as nat,
                self.cores as nat,
                self.geometry,
            ) <= self.geometry.height * self.geometry.stride_bytes());
        }
        WorkerContext {
            core_id,
            cores: self.cores,
            total_frames: self.total_frames,
            stride_bytes,
            dest_offset: first * stride_bytes,
            band_len: (last - first) * stride_bytes,
        }
    }

    /// The band of `core` for frame `frame`.
    pub fn band(&self, core: usize, frame: usize) -> (band: &[u8])
        requires
            self.wf(),
            core < self.cores,
            frame < self.total_frames,
        ensures
            band@ == self.timelines@[core as int]@[frame as int]@,
            band@.len() == band_len(core as nat, self.cores as nat, self.geometry),
    {
        self.timelines[core][frame].as_slice()
    }

    /// Writes the band that `core` shows in the round of the counter value
    /// `observed` to the core's range of `surface`. Every byte outside that
    /// range keeps its value.
    pub fn present(&self, core: usize, observed: usize, surface: &mut Vec<u8>)
        requires
            self.wf(),
            core < self.cores,
            old(surface)@.len() == self.geometry.height * self.geometry.stride_bytes(),
        ensures
            final(surface)@ == overwritten(
                old(surface)@,
                band_offset(core as nat, self.cores as nat, self.geometry) as int,
                self.band_for(core as int, observed as nat),
            ),
    {
        let context = self.worker(core);
        let index = frame_index(observed, self.cores, self.total_frames);
        let band = self.band(core, index);
        fast_copy(band, surface, context.dest_offset);
    }
}

/// Whether `frame` is exactly as large as the display and its rows are as
/// long as the display's.
pub open spec fn fills_display(frame: FrameView, geometry: DisplayGeometry) -> bool {
    &&& frame.pixels.len() == frame.width * frame.height * 4
    &&& frame.height == geometry.height
    &&& frame.width * 4 == geometry.stride_bytes()
}

/// Single-core round trip: with one core and frames that fill the display
/// exactly, presenting in the round of counter value `observed` leaves the
/// surface holding the pixel buffer of frame `observed` modulo the number
/// of frames, byte for byte.
pub proof fn lemma_single_core_shows_frame(
    playback: Playback,
    frames: Seq<FrameView>,
    observed: nat,
    surface: Seq<u8>,
)
    requires
        playback.wf(),
        playback.cores == 1,
        playback.shows(frames),
        forall|i: int| 0 <= i < frames.len() ==> fills_display(#[trigger] frames[i], playback.geometry),
        surface.len() == playback.geometry.height * playback.geometry.stride_bytes(),
    ensures
        overwritten(
            surface,
            band_offset(0, 1, playback.geometry) as int,
            playback.band_for(0, observed),
        ) == frames[(observed % frames.len()) as int].pixels,
{
    let geometry = playback.geometry;
    let index = frame_index_of(observed, 1, playback.total_frames as nat);
    assert(index == observed % frames.len());
    let frame = frames[index as int];
    assert(fills_display(frame, geometry));
    lemma_single_core_band_is_frame(frame, geometry);
    lemma_ranges_tile_surface(1, geometry);
    let band = playback.band_for(0, observed);
    assert(band == playback.timelines@[0]@[index as int]@);
    assert(band == frame.pixels);
    assert(frame.height * frame.width * 4 == frame.width * frame.height * 4)
        by (nonlinear_arith);
    assert(geometry.height * geometry.stride_bytes() == frame.height * (frame.width * 4));
    assert(frame.height * (frame.width * 4) == frame.height * frame.width * 4)
        by (nonlinear_arith);
    assert(overwritten(surface, 0, band) =~= band);
}

} // verus!
