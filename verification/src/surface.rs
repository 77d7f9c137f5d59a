//! Writing a whole frame, or a run of its rows, to the display surface.
//!
//! A frame holds its rows back to back; the surface holds a row every
//! `stride` pixels. Where the two agree the frame goes over in one copy,
//! otherwise row by row.

use vstd::prelude::*;
use crate::copier::{fast_copy, overwritten};

verus! {

/// `surface` after row `y` of `frame` has been written to its place.
pub open spec fn row_blitted(
    surface: Seq<u8>,
    frame: Seq<u8>,
    row_bytes: nat,
    pitch: nat,
    y: nat,
) -> Seq<u8> {
    overwritten(
        surface,
        (y * pitch) as int,
        frame.subrange((y * row_bytes) as int, (y * row_bytes + row_bytes) as int),
    )
}

/// `surface` after the rows `[from, to)` of `frame` have been written to
/// their places, in increasing order.
pub open spec fn rows_blitted(
    surface: Seq<u8>,
    frame: Seq<u8>,
    row_bytes: nat,
    pitch: nat,
    from: nat,
    to: nat,
) -> Seq<u8>
    decreases to,
{
    if to <= from {
        surface
    } else {
        row_blitted(
            rows_blitted(surface, frame, row_bytes, pitch, from, (to - 1) as nat),
            frame,
            row_bytes,
            pitch,
            (to - 1) as nat,
        )
    }
}

/// Whether the rows `[from, to)` can be read from a frame of `frame_len`
/// bytes and written to a surface of `surface_len` bytes.
pub open spec fn rows_in_range(
    frame_len: nat,
    surface_len: nat,
    row_bytes: nat,
    pitch: nat,
    from: nat,
    to: nat,
) -> bool {
    from < to ==> {
        &&& to * row_bytes <= frame_len
        &&& (to - 1) * pitch + row_bytes <= surface_len
    }
}

/// Writing rows keeps the length of the surface.
pub proof fn lemma_rows_blitted_len(
    surface: Seq<u8>,
    frame: Seq<u8>,
    row_bytes: nat,
    pitch: nat,
    from: nat,
    to: nat,
)
    ensures
        rows_blitted(surface, frame, row_bytes, pitch, from, to).len() == surface.len(),
    decreases to,
{
    if to > from {
        lemma_rows_blitted_len(surface, frame, row_bytes, pitch, from, (to - 1) as nat);
    }
}

/// Where one row is read from the frame and written to the surface.
#[derive(Clone, Copy, Debug, PartialEq, Eq)]
pub struct RowCopy {
    /// Offset of the row's first byte in the frame.
    pub from: usize,
    /// Offset of the row's first byte on the surface.
    pub to: usize,
    /// Number of bytes in the row.
    pub len: usize,
}

/// Whether the rows `[first, last)` of a frame `width` pixels wide can be
/// copied: every offset stays in the machine's range, the frame holds the
/// rows, and the surface has room for them.
pub open spec fn rows_copyable(
    frame_len: nat,
    surface_len: nat,
    width: nat,
    stride: nat,
    first: nat,
    last: nat,
) -> bool {
    &&& first <= last
    &&& width * 4 <= usize::MAX
    &&& stride * 4 <= usize::MAX
    &&& rows_in_range(frame_len, surface_len, width * 4, stride * 4, first, last)
}

/// Tests whether the rows `[first, last)` can be copied.
pub fn rows_fit(
    frame_len: usize,
    surface_len: usize,
    width: usize,
    stride: usize,
    first: usize,
    last: usize,
) -> (fit: bool)
    ensures
        fit == rows_copyable(
            frame_len as nat,
            surface_len as nat,
            width as nat,
            stride as nat,
            first as nat,
            last as nat,
        ),
{
    if first > last {
        return false;
    }
    let row_bytes: u128 = width as u128 * 4;
    let pitch: u128 = stride as u128 * 4;
    if row_bytes > usize::MAX as u128 || pitch > usize::MAX as u128 {
        return false;
    }
    if first == last {
        return true;
    }
    proof {
        assert(last * row_bytes <= 0xFFFF_FFFF_FFFF_FFFF * 0xFFFF_FFFF_FFFF_FFFF)
            by (nonlinear_arith)
            requires
                0 <= last <= 0xFFFF_FFFF_FFFF_FFFF,
                0 <= row_bytes <= 0xFFFF_FFFF_FFFF_FFFF,
        ;
        assert((last - 1) * pitch <= 0xFFFF_FFFF_FFFF_FFFF * 0xFFFF_FFFF_FFFF_FFFF)
            by (nonlinear_arith)
            requires
                0 <= last - 1 <= 0xFFFF_FFFF_FFFF_FFFF,
                0 <= pitch <= 0xFFFF_FFFF_FFFF_FFFF,
        ;
    }
    last as u128 * row_bytes <= frame_len as u128 && (last as u128 - 1) * pitch + row_bytes
        <= surface_len as u128
}

/// Where row `y` of a frame `width` pixels wide is read and written.
pub fn row_copy(y: usize, width: usize, stride: usize) -> (row: RowCopy)
    requires
        y * (width * 4) + width * 4 <= usize::MAX,
        y * (stride * 4) <= usize::MAX,
        stride * 4 <= usize::MAX,
    ensures
        row.from == y * (width * 4),
        row.to == y * (stride * 4),
        row.len == width * 4,
{
    proof {
        assert(0 <= y * (width * 4)) by (nonlinear_arith)
            requires
                y >= 0,
                width >= 0,
        ;
    }
    RowCopy { from: y * (width * 4), to: y * (stride * 4), len: width * 4 }
}

/// Writes the rows `[first, last)` of `frame`, `width` pixels each, to the
/// surface, whose rows start every `stride` pixels.
pub fn blit_rows(
    surface: &mut Vec<u8>,
    frame: &[u8],
    width: usize,
    stride: usize,
    first: usize,
    last: usize,
)
    requires
        rows_copyable(
            frame.len() as nat,
            old(surface).len() as nat,
            width as nat,
            stride as nat,
            first as nat,
            last as nat,
        ),
    ensures
        final(surface)@ == rows_blitted(
            old(surface)@,
            frame@,
            (width * 4) as nat,
            (stride * 4) as nat,
            first as nat,
            last as nat,
        ),
{
    let ghost row_bytes = width * 4;
    let ghost pitch = stride * 4;
    let mut y: usize = first;
    while y < last
        invariant
            first <= y <= last,
            row_bytes == width * 4 <= usize::MAX,
            pitch == stride * 4 <= usize::MAX,
            surface.len() == old(surface).len(),
            rows_in_range(
                frame.len() as nat,
                old(surface).len() as nat,
                row_bytes as nat,
                pitch as nat,
                first as nat,
                last as nat,
            ),
            surface@ == rows_blitted(
                old(surface)@,
                frame@,
                row_bytes as nat,
                pitch as nat,
                first as nat,
                y as nat,
            ),
        decreases last - y,
    {
        proof {
            assert(y * row_bytes + row_bytes <= last * row_bytes) by (nonlinear_arith)
                requires
                    y + 1 <= last,
                    row_bytes >= 0,
            ;
            assert(y * pitch <= (last - 1) * pitch) by (nonlinear_arith)
                requires
                    y <= last - 1,
                    pitch >= 0,
            ;
            assert(0 <= y * row_bytes) by (nonlinear_arith)
                requires
                    y >= 0,
                    row_bytes >= 0,
            ;
            assert(0 <= y * pitch) by (nonlinear_arith)
                requires
                    y >= 0,
                    pitch >= 0,
            ;
        }
        let at = row_copy(y, width, stride);
        let row: &[u8] = &frame[at.from..at.from + at.len];
        fast_copy(row, surface, at.to);
        y += 1;
    }
}

/// Writing all rows of a frame whose rows are as long as the surface's is
/// the same as writing the frame in one piece.
pub proof fn lemma_contiguous_rows(surface: Seq<u8>, frame: Seq<u8>, row_bytes: nat, rows: nat)
    requires
        rows * row_bytes <= frame.len(),
        rows * row_bytes <= surface.len(),
    ensures
        rows_blitted(surface, frame, row_bytes, row_bytes, 0, rows) == overwritten(
            surface,
            0,
            frame.take((rows * row_bytes) as int),
        ),
    decreases rows,
{
    if rows > 0 {
        let fewer = (rows - 1) as nat;
        assert(rows * row_bytes == fewer * row_bytes + row_bytes) by (nonlinear_arith)
            requires
                rows == fewer + 1,
        ;
        assert(0 <= fewer * row_bytes) by (nonlinear_arith)
            requires
                fewer >= 0,
                row_bytes >= 0,
        ;
        lemma_contiguous_rows(surface, frame, row_bytes, fewer);
        assert(rows_blitted(surface, frame, row_bytes, row_bytes, 0, rows) =~= overwritten(
            surface,
            0,
            frame.take((rows * row_bytes) as int),
        ));
    } else {
        assert(rows * row_bytes == 0) by (nonlinear_arith)
            requires
                rows == 0,
        ;
        assert(surface =~= overwritten(surface, 0, frame.take(0)));
    }
}

/// Writes a whole frame of `width` by `height` pixels to the surface: in
/// one copy where the surface's rows are exactly as long as the frame's,
/// row by row otherwise.
pub fn blit_frame(surface: &mut Vec<u8>, frame: &[u8], width: usize, height: usize, stride: usize)
    requires
        rows_copyable(
            frame.len() as nat,
            old(surface).len() as nat,
            width as nat,
            stride as nat,
            0,
            height as nat,
        ),
    ensures
        final(surface)@ == rows_blitted(
            old(surface)@,
            frame@,
            (width * 4) as nat,
            (stride * 4) as nat,
            0,
            height as nat,
        ),
{
    if stride == width && height > 0 {
        let row_bytes: usize = width * 4;
        proof {
            assert(height * row_bytes == (height - 1) * row_bytes + row_bytes)
                by (nonlinear_arith);
            lemma_contiguous_rows(old(surface)@, frame@, row_bytes as nat, height as nat);
        }
        let total: usize = height * row_bytes;
        fast_copy(&frame[0..total], surface, 0);
    } else {
        blit_rows(surface, frame, width, stride, 0, height);
    }
}

} // verus!
