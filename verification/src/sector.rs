//! Reading a raw device, which accepts only reads of whole sectors: the
//! sectors that cover a wanted range of bytes, and how many of the bytes
//! read are handed out.

use vstd::prelude::*;

verus! {

/// The whole sectors read for a wanted range: from `start` to `end`, and
/// the wanted bytes begin `skip` bytes after `start`.
#[derive(Debug, Clone, Copy, PartialEq, Eq, Structural)]
pub struct SectorWindow {
    pub start: u64,
    pub end: u64,
    pub skip: u64,
}

/// `x` rounded down to a multiple of `s`.
pub open spec fn round_down(x: int, s: int) -> int {
    x / s * s
}

/// The sectors of `sector_size` bytes that cover the `len` bytes from
/// `position`: from the start of the sector holding `position` to the end
/// of the sector holding the last wanted byte. `None` when the end does
/// not fit in 64 bits.
pub fn sector_window(position: u64, len: u64, sector_size: u64) -> (r: Option<SectorWindow>)
    requires
        sector_size > 0,
    ensures
        match r {
            Some(w) => {
                &&& position + len + sector_size - 1 <= u64::MAX
                &&& w.start == round_down(position as int, sector_size as int)
                &&& w.end == round_down(position + len + sector_size - 1, sector_size as int)
                &&& w.skip == position - w.start
                &&& w.start <= position
                &&& position + len <= w.end
            },
            None => position + len + sector_size - 1 > u64::MAX,
        },
{
    if position > u64::MAX - len || position + len > u64::MAX - (sector_size - 1) {
        return None;
    }
    let last = position + len + (sector_size - 1);
    let q = position / sector_size;
    assert(q * sector_size <= position && position < q * sector_size + sector_size) by (nonlinear_arith)
        requires
            sector_size > 0,
            q == position / sector_size,
    {}
    let start = q * sector_size;
    let e = last / sector_size;
    assert(e * sector_size <= last && last < e * sector_size + sector_size) by (nonlinear_arith)
        requires
            sector_size > 0,
            e == last / sector_size,
    {}
    let end = e * sector_size;
    Some(SectorWindow { start, end, skip: position - start })
}

/// How many bytes a read hands out: of the `got` bytes read from the start
/// of the window, those after the first `skip`, at most `want`.
pub fn bytes_handed_out(got: u64, skip: u64, want: u64) -> (r: u64)
    ensures
        r == if got <= skip { 0 } else if got - skip < want { got - skip } else { want as int },
{
    if got <= skip {
        0
    } else if got - skip < want {
        got - skip
    } else {
        want
    }
}

} // verus!
