//! The frame band partitioner: cuts one decoded frame into one band per
//! core, each laid out at the display's row stride, with rows below the
//! video zero-filled.

use vstd::prelude::*;
use crate::codec::{DecodedFrame, FrameView};
use crate::error::PlaybackError;

verus! {

/// Bytes per pixel of the display surface and of the frames written to it.
pub const BYTES_PER_PIXEL: usize = 4;

/// The row geometry of the display surface.
#[derive(Clone, Copy, Debug, PartialEq, Eq)]
pub struct DisplayGeometry {
    /// Visible width in pixels.
    pub width: usize,
    /// Height in rows.
    pub height: usize,
    /// Distance between the starts of two consecutive rows, in pixels.
    pub stride: usize,
}

impl DisplayGeometry {
    /// Distance between the starts of two consecutive rows, in bytes.
    pub open spec fn stride_bytes(&self) -> nat {
        (self.stride as nat) * 4
    }
}

/// Rows that every core but the last owns.
pub open spec fn rows_per_core(cores: nat, height: nat) -> nat {
    height / cores
}

/// First row of the band of `core`.
pub open spec fn band_start(core: nat, cores: nat, height: nat) -> nat {
    core * rows_per_core(cores, height)
}

/// One past the last row of the band of `core`. The last core also takes
/// the rows that the division leaves over.
pub open spec fn band_end(core: nat, cores: nat, height: nat) -> nat {
    if core + 1 == cores {
        height
    } else {
        (core + 1) * rows_per_core(cores, height)
    }
}

/// Whether row `y` lies in the band of `core`.
pub open spec fn owns_row(core: nat, cores: nat, height: nat, y: nat) -> bool {
    band_start(core, cores, height) <= y < band_end(core, cores, height)
}

/// The core whose band holds row `y`.
pub open spec fn row_owner(cores: nat, height: nat, y: nat) -> nat {
    let per = rows_per_core(cores, height);
    if per == 0 || y / per >= cores {
        (cores - 1) as nat
    } else {
        y / per
    }
}

/// `n` zero bytes.
pub open spec fn zeros(n: nat) -> Seq<u8> {
    Seq::new(n, |i: int| 0u8)
}

/// Whether the bytes of video row `y` lie inside the frame's pixel buffer.
/// Rows below the video need no bytes.
pub open spec fn row_readable(frame: FrameView, y: nat) -> bool {
    y < frame.height ==> y * frame.width * 4 + frame.width * 4 <= frame.pixels.len()
}

/// Whether all of the display rows `[0, height)` are readable.
pub open spec fn rows_readable(frame: FrameView, height: nat) -> bool {
    forall|y: nat| y < height ==> #[trigger] row_readable(frame, y)
}

/// The bytes of display row `y`: the video row followed by zeros up to the
/// stride where the stride is longer, or a full stride of zeros where the
/// row lies below the video.
pub open spec fn band_row(frame: FrameView, y: nat, stride_bytes: nat) -> Seq<u8> {
    if y < frame.height {
        let start = y * frame.width * 4;
        let row = frame.pixels.subrange(start as int, (start + frame.width * 4) as int);
        if stride_bytes > frame.width * 4 {
            row + zeros((stride_bytes - frame.width * 4) as nat)
        } else {
            row
        }
    } else {
        zeros(stride_bytes)
    }
}

/// The bytes of the display rows `[from, to)`, in increasing row order.
pub open spec fn rows_bytes(frame: FrameView, from: nat, to: nat, stride_bytes: nat) -> Seq<u8>
    decreases to,
{
    if to <= from {
        Seq::empty()
    } else {
        rows_bytes(frame, from, (to - 1) as nat, stride_bytes) + band_row(
            frame,
            (to - 1) as nat,
            stride_bytes,
        )
    }
}

/// The band of `core` for `frame`.
pub open spec fn band_bytes(frame: FrameView, core: nat, cores: nat, geometry: DisplayGeometry) -> Seq<
    u8,
> {
    rows_bytes(
        frame,
        band_start(core, cores, geometry.height as nat),
        band_end(core, cores, geometry.height as nat),
        geometry.stride_bytes(),
    )
}

/// The length of the longest display row of `frame`.
pub open spec fn longest_row(frame: FrameView, stride_bytes: nat) -> nat {
    if frame.width * 4 > stride_bytes {
        frame.width * 4
    } else {
        stride_bytes
    }
}

/// Whether the bands of `frame` can be held in memory: all rows of the
/// display together stay within the address space.
pub open spec fn fits_memory(frame: FrameView, geometry: DisplayGeometry) -> bool {
    geometry.height * longest_row(frame, geometry.stride_bytes()) <= usize::MAX
}

/// A band never starts after it ends, and both lie within the display.
pub proof fn lemma_band_bounds(core: nat, cores: nat, height: nat)
    requires
        core < cores,
    ensures
        band_start(core, cores, height) <= band_end(core, cores, height) <= height,
        band_start(core, cores, height) + rows_per_core(cores, height) <= band_end(
            core,
            cores,
            height,
        ),
{
    let per = rows_per_core(cores, height);
    assert(cores * per <= height) by (nonlinear_arith)
        requires
            per == height / cores,
            cores > 0,
    ;
    assert((core + 1) * per <= cores * per) by (nonlinear_arith)
        requires
            core + 1 <= cores,
    ;
    assert((core + 1) * per == core * per + per) by (nonlinear_arith);
}

/// The bands cover the rows `[0, height)` exactly once, in core order: the
/// first band starts at row 0, every band starts where the one before it
/// ends, the last band ends at `height`, and every row belongs to the band
/// of exactly one core.
pub proof fn lemma_bands_tile_rows(cores: nat, height: nat)
    requires
        cores >= 1,
    ensures
        band_start(0, cores, height) == 0,
        band_end((cores - 1) as nat, cores, height) == height,
        forall|core: nat|
            core < cores ==> #[trigger] band_start(core, cores, height) <= band_end(
                core,
                cores,
                height,
            ),
        forall|core: nat|
            core + 1 < cores ==> #[trigger] band_end(core, cores, height) == band_start(
                core + 1,
                cores,
                height,
            ),
        forall|core: nat, y: nat|
            core < cores && y < height ==> (#[trigger] owns_row(core, cores, height, y) <==> core
                == row_owner(cores, height, y)),
        forall|y: nat| y < height ==> #[trigger] row_owner(cores, height, y) < cores,
{
    assert forall|core: nat| core < cores implies #[trigger] band_start(core, cores, height)
        <= band_end(core, cores, height) by {
        lemma_band_bounds(core, cores, height);
    }
    assert forall|core: nat, y: nat| core < cores && y < height implies (#[trigger] owns_row(
        core,
        cores,
        height,
        y,
    ) <==> core == row_owner(cores, height, y)) by {
        lemma_row_owner(core, cores, height, y);
    }
}

/// Row `y` lies in the band of `core` exactly when `core` is its owner.
pub proof fn lemma_row_owner(core: nat, cores: nat, height: nat, y: nat)
    requires
        core < cores,
        y < height,
    ensures
        owns_row(core, cores, height, y) <==> core == row_owner(cores, height, y),
        row_owner(cores, height, y) < cores,
{
    let per = rows_per_core(cores, height);
    lemma_band_bounds(core, cores, height);
    if per == 0 {
        assert(core * per == 0) by (nonlinear_arith)
            requires
                per == 0,
        ;
        assert((core + 1) * per == 0) by (nonlinear_arith)
            requires
                per == 0,
        ;
    } else {
        let q = y / per;
        assert(q * per <= y < (q + 1) * per) by (nonlinear_arith)
            requires
                q == y / per,
                per > 0,
        ;
        if core <= q {
            assert(core * per <= q * per) by (nonlinear_arith)
                requires
                    core <= q,
            ;
        }
        if core < q {
            assert((core + 1) * per <= q * per) by (nonlinear_arith)
                requires
                    core + 1 <= q,
            ;
        }
        if core > q {
            assert((q + 1) * per <= core * per) by (nonlinear_arith)
                requires
                    q + 1 <= core,
            ;
        }
    }
}

/// The first and one-past-last row of the band of `core`.
pub fn band_rows(core: usize, cores: usize, height: usize) -> (rows: (usize, usize))
    requires
        core < cores,
    ensures
        rows.0 == band_start(core as nat, cores as nat, height as nat),
        rows.1 == band_end(core as nat, cores as nat, height as nat),
        rows.0 <= rows.1 <= height,
{
    proof {
        lemma_band_bounds(core as nat, cores as nat, height as nat);
        assert((core + 1) * (height / cores) == core * (height / cores) + height / cores)
            by (nonlinear_arith);
    }
    let per: usize = height / cores;
    let start: usize = core * per;
    let end: usize = if core == cores - 1 {
        height
    } else {
        start + per
    };
    (start, end)
}

/// Appends display row `y` of `frame` to `band`. Returns `false`, leaving
/// the band as it was, where the video row lies outside the pixel buffer.
fn append_row(band: &mut Vec<u8>, frame: &DecodedFrame, y: usize, stride_bytes: usize) -> (ok:
    bool)
    requires
        old(band)@.len() + longest_row(frame@, stride_bytes as nat) <= usize::MAX,
    ensures
        ok == row_readable(frame@, y as nat),
        ok ==> final(band)@ == old(band)@ + band_row(frame@, y as nat, stride_bytes as nat),
        !ok ==> final(band)@ == old(band)@,
{
    let ghost before = band@;
    if (y as u128) < frame.height as u128 {
        let row_len: u128 = frame.width as u128 * 4;
        proof {
            assert(y * row_len <= 0xFFFF_FFFF_FFFF_FFFF * 0x4_0000_0000) by (nonlinear_arith)
                requires
                    0 <= y <= 0xFFFF_FFFF_FFFF_FFFF,
                    0 <= row_len <= 0x4_0000_0000,
            ;
            assert(y * row_len == y * frame.width * 4) by (nonlinear_arith)
                requires
                    row_len == frame.width * 4,
            ;
        }
        let start: u128 = y as u128 * row_len;
        let end: u128 = start + row_len;
        if end > frame.pixels.len() as u128 {
            return false;
        }
        let row: &[u8] = &frame.pixels[start as usize..end as usize];
        band.extend_from_slice(row);
        assert(band@ =~= before + row@);
        if stride_bytes as u128 > row_len {
            let filled: usize = band.len();
            band.resize(filled + (stride_bytes - row_len as usize), 0u8);
            assert(band@ =~= before + row@ + zeros((stride_bytes - row_len) as nat));
        }
    } else {
        let filled: usize = band.len();
        band.resize(filled + stride_bytes, 0u8);
        assert(band@ =~= before + zeros(stride_bytes as nat));
    }
    true
}

/// The rows `[from, to)` all have the length of the stride where no video
/// row is longer than the stride; so the bytes of row `y` then start at
/// `(y - from) * stride_bytes`.
pub proof fn lemma_rows_layout(frame: FrameView, from: nat, to: nat, stride_bytes: nat)
    requires
        from <= to,
        frame.width * 4 <= stride_bytes,
        forall|y: nat| from <= y < to ==> #[trigger] row_readable(frame, y),
    ensures
        rows_bytes(frame, from, to, stride_bytes).len() == (to - from) * stride_bytes,
        forall|y: nat|
            from <= y < to ==> rows_bytes(frame, from, to, stride_bytes).subrange(
                (y - from) * stride_bytes,
                (y - from + 1) * stride_bytes,
            ) == #[trigger] band_row(frame, y, stride_bytes),
    decreases to,
{
    if to > from {
        let upto = (to - 1) as nat;
        lemma_rows_layout(frame, from, upto, stride_bytes);
        let head = rows_bytes(frame, from, upto, stride_bytes);
        let last = band_row(frame, upto, stride_bytes);
        let all = rows_bytes(frame, from, to, stride_bytes);
        assert(row_readable(frame, upto));
        assert(last.len() == stride_bytes);
        assert((to - from) * stride_bytes == (upto - from) * stride_bytes + stride_bytes)
            by (nonlinear_arith)
            requires
                upto == to - 1,
        ;
        assert forall|y: nat| from <= y < to implies all.subrange(
            (y - from) * stride_bytes,
            (y - from + 1) * stride_bytes,
        ) == #[trigger] band_row(frame, y, stride_bytes) by {
            assert((y - from + 1) * stride_bytes == (y - from) * stride_bytes + stride_bytes)
                by (nonlinear_arith);
            if y < upto {
                assert((y - from + 1) * stride_bytes <= (upto - from) * stride_bytes)
                    by (nonlinear_arith)
                    requires
                        y - from + 1 <= upto - from,
                ;
                assert(all.subrange((y - from) * stride_bytes, (y - from + 1) * stride_bytes)
                    =~= head.subrange((y - from) * stride_bytes, (y - from + 1) * stride_bytes));
            } else {
                assert(all.subrange((y - from) * stride_bytes, (y - from + 1) * stride_bytes)
                    =~= last);
            }
        }
    } else {
        assert((to - from) * stride_bytes == 0) by (nonlinear_arith)
            requires
                to == from,
        ;
    }
}

/// Where row `y` starts inside the band of `core`: right after the rows
/// of the band that come before it.
pub open spec fn row_offset(
    frame: FrameView,
    core: nat,
    cores: nat,
    geometry: DisplayGeometry,
    y: nat,
) -> nat {
    rows_bytes(
        frame,
        band_start(core, cores, geometry.height as nat),
        y,
        geometry.stride_bytes(),
    ).len()
}

/// A run of rows is the rows before row `y`, then row `y`, then the rows
/// after it.
proof fn lemma_rows_split(frame: FrameView, from: nat, to: nat, stride_bytes: nat, y: nat)
    requires
        from <= y < to,
    ensures
        rows_bytes(frame, from, to, stride_bytes) == rows_bytes(frame, from, y, stride_bytes)
            + band_row(frame, y, stride_bytes) + rows_bytes(frame, y + 1, to, stride_bytes),
    decreases to,
{
    let before = rows_bytes(frame, from, y, stride_bytes);
    let row = band_row(frame, y, stride_bytes);
    if to == y + 1 {
        assert(rows_bytes(frame, from, to, stride_bytes) =~= before + row + Seq::<u8>::empty());
    } else {
        let upto = (to - 1) as nat;
        lemma_rows_split(frame, from, upto, stride_bytes, y);
        assert(rows_bytes(frame, from, to, stride_bytes) =~= before + row + rows_bytes(
            frame,
            y + 1,
            to,
            stride_bytes,
        ));
    }
}

/// Rows below the video are zero-filled in every band: a row `y` at or
/// beyond the video's height takes one stride of the band of the core that
/// owns it, and every byte of it is zero.
pub proof fn lemma_rows_below_video_are_zero(
    frame: FrameView,
    core: nat,
    cores: nat,
    geometry: DisplayGeometry,
    y: nat,
)
    requires
        core < cores,
        owns_row(core, cores, geometry.height as nat, y),
        frame.height <= y,
    ensures
        row_offset(frame, core, cores, geometry, y) + geometry.stride_bytes() <= band_bytes(
            frame,
            core,
            cores,
            geometry,
        ).len(),
        band_bytes(frame, core, cores, geometry).subrange(
            row_offset(frame, core, cores, geometry, y) as int,
            (row_offset(frame, core, cores, geometry, y) + geometry.stride_bytes()) as int,
        ) == zeros(geometry.stride_bytes()),
{
    let height = geometry.height as nat;
    let stride_bytes = geometry.stride_bytes();
    let from = band_start(core, cores, height);
    let to = band_end(core, cores, height);
    lemma_rows_split(frame, from, to, stride_bytes, y);
    let band = band_bytes(frame, core, cores, geometry);
    let at = row_offset(frame, core, cores, geometry, y);
    assert(band.subrange(at as int, (at + stride_bytes) as int) =~= zeros(stride_bytes));
}

/// Where the video is no wider than the stride, row `y` of a band starts a
/// whole number of strides into it; so for a row at or beyond the video's
/// height every band byte in that stride is zero.
pub proof fn lemma_letterbox_is_zero(
    frame: FrameView,
    core: nat,
    cores: nat,
    geometry: DisplayGeometry,
    y: nat,
)
    requires
        core < cores,
        frame.width * 4 <= geometry.stride_bytes(),
        rows_readable(frame, geometry.height as nat),
        owns_row(core, cores, geometry.height as nat, y),
        frame.height <= y,
    ensures
        band_row(frame, y, geometry.stride_bytes()) == zeros(geometry.stride_bytes()),
        forall|i: int|
            (y - band_start(core, cores, geometry.height as nat)) * geometry.stride_bytes() <= i
                < (y - band_start(core, cores, geometry.height as nat) + 1)
                * geometry.stride_bytes() ==> 0 <= i < band_bytes(
                frame,
                core,
                cores,
                geometry,
            ).len() && #[trigger] band_bytes(frame, core, cores, geometry)[i] == 0,
{
    let height = geometry.height as nat;
    let stride_bytes = geometry.stride_bytes();
    let from = band_start(core, cores, height);
    let to = band_end(core, cores, height);
    lemma_band_bounds(core, cores, height);
    assert forall|r: nat| from <= r < to implies #[trigger] row_readable(frame, r) by {
        assert(r < height);
    }
    lemma_rows_layout(frame, from, to, stride_bytes);
    let band = band_bytes(frame, core, cores, geometry);
    let lo = (y - from) * stride_bytes;
    let hi = (y - from + 1) * stride_bytes;
    assert(hi == lo + stride_bytes) by (nonlinear_arith)
        requires
            lo == (y - from) * stride_bytes,
            hi == (y - from + 1) * stride_bytes,
    ;
    assert(hi <= (to - from) * stride_bytes) by (nonlinear_arith)
        requires
            hi == (y - from + 1) * stride_bytes,
            y - from + 1 <= to - from,
            stride_bytes >= 0,
    ;
    assert(0 <= lo) by (nonlinear_arith)
        requires
            lo == (y - from) * stride_bytes,
            y >= from,
            stride_bytes >= 0,
    ;
    assert(band.subrange(lo as int, hi as int) == band_row(frame, y, stride_bytes));
    assert forall|i: int| lo <= i < hi implies 0 <= i < band.len() && #[trigger] band[i] == 0 by {
        assert(band.subrange(lo as int, hi as int)[i - lo] == band[i]);
        assert(zeros(stride_bytes)[i - lo] == 0);
    }
}

/// The band of every core has exactly its rows times the stride in bytes,
/// whatever the video's height, where the video is no wider than the stride.
pub proof fn lemma_band_len(frame: FrameView, core: nat, cores: nat, geometry: DisplayGeometry)
    requires
        core < cores,
        frame.width * 4 <= geometry.stride_bytes(),
        rows_readable(frame, geometry.height as nat),
    ensures
        band_bytes(frame, core, cores, geometry).len() == (band_end(
            core,
            cores,
            geometry.height as nat,
        ) - band_start(core, cores, geometry.height as nat)) * geometry.stride_bytes(),
{
    let height = geometry.height as nat;
    let from = band_start(core, cores, height);
    let to = band_end(core, cores, height);
    lemma_band_bounds(core, cores, height);
    assert forall|r: nat| from <= r < to implies #[trigger] row_readable(frame, r) by {
        assert(r < height);
    }
    lemma_rows_layout(frame, from, to, geometry.stride_bytes());
}

/// No band is longer than its rows times the longest row.
proof fn lemma_rows_bound(frame: FrameView, from: nat, to: nat, stride_bytes: nat)
    requires
        from <= to,
        forall|y: nat| from <= y < to ==> #[trigger] row_readable(frame, y),
    ensures
        rows_bytes(frame, from, to, stride_bytes).len() <= (to - from) * longest_row(
            frame,
            stride_bytes,
        ),
    decreases to,
{
    let longest = longest_row(frame, stride_bytes);
    if to > from {
        let upto = (to - 1) as nat;
        lemma_rows_bound(frame, from, upto, stride_bytes);
        assert(row_readable(frame, upto));
        assert(band_row(frame, upto, stride_bytes).len() <= longest);
        assert((to - from) * longest == (upto - from) * longest + longest) by (nonlinear_arith)
            requires
                upto == to - 1,
        ;
    } else {
        assert((to - from) * longest >= 0) by (nonlinear_arith)
            requires
                to >= from,
                longest >= 0,
        ;
    }
}

/// Whether all rows of the band of `core` are readable.
pub open spec fn band_readable(frame: FrameView, core: nat, cores: nat, height: nat) -> bool {
    forall|y: nat|
        band_start(core, cores, height) <= y < band_end(core, cores, height)
            ==> #[trigger] row_readable(frame, y)
}

/// All rows of the display are readable exactly when the rows of every
/// core's band are.
pub proof fn lemma_rows_readable_by_band(frame: FrameView, cores: nat, height: nat)
    requires
        cores >= 1,
    ensures
        rows_readable(frame, height) <==> forall|core: nat|
            core < cores ==> #[trigger] band_readable(frame, core, cores, height),
{
    if rows_readable(frame, height) {
        assert forall|core: nat| core < cores implies #[trigger] band_readable(
            frame,
            core,
            cores,
            height,
        ) by {
            lemma_band_bounds(core, cores, height);
        }
    }
    if forall|core: nat| core < cores ==> #[trigger] band_readable(frame, core, cores, height) {
        assert forall|y: nat| y < height implies #[trigger] row_readable(frame, y) by {
            let owner = row_owner(cores, height, y);
            lemma_row_owner(owner, cores, height, y);
            lemma_row_owner(0, cores, height, y);
            assert(band_readable(frame, owner, cores, height));
        }
    }
}

/// Builds the band of `core` for `frame`: the core's rows in increasing
/// order, every row laid out as `band_row` says. Fails with
/// `InvalidParameter` exactly when one of the band's video rows lies outside
/// the frame's pixel buffer.
pub fn core_band(frame: &DecodedFrame, geometry: &DisplayGeometry, core: usize, cores: usize) -> (result:
    Result<Vec<u8>, PlaybackError>)
    requires
        core < cores,
        fits_memory(frame@, *geometry),
    ensures
        match result {
            Ok(band) => {
                &&& band_readable(frame@, core as nat, cores as nat, geometry.height as nat)
                &&& band@ == band_bytes(frame@, core as nat, cores as nat, *geometry)
            },
            Err(error) => {
                &&& error == PlaybackError::InvalidParameter
                &&& !band_readable(frame@, core as nat, cores as nat, geometry.height as nat)
            },
        },
{
    let height: usize = geometry.height;
    let (first, last) = band_rows(core, cores, height);
    let mut band: Vec<u8> = Vec::new();
    if first == last {
        return Ok(band);
    }
    let ghost longest = longest_row(frame@, geometry.stride_bytes());
    proof {
        assert(longest <= height * longest) by (nonlinear_arith)
            requires
                height >= 1,
                longest >= 0,
        ;
    }
    let stride_bytes: usize = geometry.stride * BYTES_PER_PIXEL;
    let mut y: usize = first;
    while y < last
        invariant
            first <= y <= last <= height,
            height == geometry.height,
            first == band_start(core as nat, cores as nat, height as nat),
            last == band_end(core as nat, cores as nat, height as nat),
            longest == longest_row(frame@, stride_bytes as nat),
            height * longest <= usize::MAX,
            band@ == rows_bytes(frame@, first as nat, y as nat, stride_bytes as nat),
            forall|r: nat| first <= r < y ==> #[trigger] row_readable(frame@, r),
        decreases last - y,
    {
        proof {
            lemma_rows_bound(frame@, first as nat, y as nat, stride_bytes as nat);
            assert((y - first) * longest + longest <= height * longest) by (nonlinear_arith)
                requires
                    y - first + 1 <= height,
                    longest >= 0,
            ;
        }
        if !append_row(&mut band, frame, y, stride_bytes) {
            assert(!row_readable(frame@, y as nat));
            return Err(PlaybackError::InvalidParameter);
        }
        y += 1;
    }
    Ok(band)
}

/// Cuts `frame` into one band per core, in core order. Fails with
/// `InvalidParameter` exactly when some video row that the display shows
/// lies outside the frame's pixel buffer.
pub fn partition_frame(frame: &DecodedFrame, geometry: &DisplayGeometry, cores: usize) -> (result:
    Result<Vec<Vec<u8>>, PlaybackError>)
    requires
        cores >= 1,
        fits_memory(frame@, *geometry),
    ensures
        match result {
            Ok(bands) => {
                &&& rows_readable(frame@, geometry.height as nat)
                &&& bands@.len() == cores
                &&& forall|core: int|
                    0 <= core < cores ==> (#[trigger] bands@[core])@ == band_bytes(
                        frame@,
                        core as nat,
                        cores as nat,
                        *geometry,
                    )
            },
            Err(error) => {
                &&& error == PlaybackError::InvalidParameter
                &&& !rows_readable(frame@, geometry.height as nat)
            },
        },
{
    let mut bands: Vec<Vec<u8>> = Vec::new();
    let mut core: usize = 0;
    while core < cores
        invariant
            core <= cores,
            fits_memory(frame@, *geometry),
            bands@.len() == core,
            forall|c: int|
                0 <= c < core ==> (#[trigger] bands@[c])@ == band_bytes(
                    frame@,
                    c as nat,
                    cores as nat,
                    *geometry,
                ),
            forall|c: nat|
                c < core ==> #[trigger] band_readable(
                    frame@,
                    c,
                    cores as nat,
                    geometry.height as nat,
                ),
        decreases cores - core,
    {
        match core_band(frame, geometry, core, cores) {
            Ok(band) => {
                bands.push(band);
            },
            Err(error) => {
                proof {
                    lemma_rows_readable_by_band(frame@, cores as nat, geometry.height as nat);
                }
                return Err(error);
            },
        }
        core += 1;
    }
    proof {
        lemma_rows_readable_by_band(frame@, cores as nat, geometry.height as nat);
    }
    Ok(bands)
}

/// The first `rows` rows of a frame as wide as the stride are the first
/// `rows` rows of its pixel buffer, unchanged.
proof fn lemma_unpadded_rows(frame: FrameView, rows: nat)
    requires
        rows <= frame.height,
        frame.pixels.len() == frame.width * frame.height * 4,
    ensures
        rows * frame.width * 4 <= frame.pixels.len(),
        rows_bytes(frame, 0, rows, frame.width * 4) == frame.pixels.take(
            (rows * frame.width * 4) as int,
        ),
    decreases rows,
{
    let row_len = frame.width * 4;
    assert(rows * frame.width * 4 <= frame.width * frame.height * 4) by (nonlinear_arith)
        requires
            rows <= frame.height,
    ;
    if rows > 0 {
        let fewer = (rows - 1) as nat;
        lemma_unpadded_rows(frame, fewer);
        assert(rows * frame.width * 4 == fewer * frame.width * 4 + frame.width * 4)
            by (nonlinear_arith)
            requires
                rows == fewer + 1,
        ;
        assert(rows_bytes(frame, 0, rows, row_len) =~= frame.pixels.take(
            (rows * frame.width * 4) as int,
        ));
    } else {
        assert(rows * frame.width * 4 == 0) by (nonlinear_arith)
            requires
                rows == 0,
        ;
    }
}

/// With a single core, on a display exactly as large as the video and with
/// no padding between rows, the one band is the frame's pixel buffer.
pub proof fn lemma_single_core_band_is_frame(frame: FrameView, geometry: DisplayGeometry)
    requires
        frame.pixels.len() == frame.width * frame.height * 4,
        geometry.height == frame.height,
        geometry.stride_bytes() == frame.width * 4,
    ensures
        band_bytes(frame, 0, 1, geometry) == frame.pixels,
{
    lemma_unpadded_rows(frame, frame.height);
    assert(frame.height * frame.width * 4 == frame.width * frame.height * 4)
        by (nonlinear_arith);
    assert(frame.pixels.take(frame.pixels.len() as int) =~= frame.pixels);
    assert(band_start(0, 1, geometry.height as nat) == 0) by (nonlinear_arith)
        requires
            band_start(0, 1, geometry.height as nat) == 0 * rows_per_core(
                1,
                geometry.height as nat,
            ),
    ;
}

} // verus!
