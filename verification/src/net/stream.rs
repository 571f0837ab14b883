//! Reassembling the peer's frames from the bytes of a call connection: bytes
//! are gathered until whole frames are there; of the frames complete at a
//! time only the last one is shown, and a backlog beyond 8 MiB ends the call.
use vstd::prelude::*;

use crate::net::protocol::{
    decode_frame, decoded, encoded_frame, fits_header, frame_row, frame_to_grid, grid_width, lemma_decode_prefix,
    lemma_encode_decode, lemma_grid_roundtrip, rectangular, AsciiFrame, CellData,
};
use crate::render::AsciiCell;

verus! {

/// At most this many bytes of incomplete frames are kept.
pub const MAX_PENDING_BYTES: usize = 8388608;

/// What is left of `buf` once every complete frame at its front is taken
/// off, and the last frame taken (width, height, cells), if any.
pub open spec fn drained(buf: Seq<u8>) -> (Seq<u8>, Option<(u16, u16, Seq<CellData>)>)
    decreases buf.len(),
{
    match decoded(buf) {
        Some((w, h, cells, n)) => if 0 < n <= buf.len() {
            let (rest, last) = drained(buf.skip(n as int));
            (rest, if last is Some { last } else { Some((w, h, cells)) })
        } else {
            (buf, None)
        },
        None => (buf, None),
    }
}

/// `g` is the grid that a frame of this width, height and cells shows: its
/// rows in order, none when a side is zero.
pub open spec fn shows_frame(g: Seq<Vec<AsciiCell>>, w: u16, h: u16, cells: Seq<CellData>) -> bool {
    &&& (w == 0 || h == 0) ==> g.len() == 0
    &&& (w != 0 && h != 0) ==> {
        &&& g.len() == h
        &&& forall|row: int| 0 <= row < h ==> #[trigger] g[row]@ == frame_row(cells, w as nat, row)
    }
}

/// What a batch of received bytes gives.
pub enum Arrival {
    /// Too many bytes piled up without forming frames: the call ends.
    Overflow,
    /// No frame was completed.
    Pending,
    /// The last frame completed, as a grid.
    Frame(Vec<Vec<AsciiCell>>),
}

/// The bytes received so far that do not form a whole frame yet.
pub struct FrameStream {
    pending: Vec<u8>,
}

/// The spec form of the last frame taken.
pub open spec fn frame_model(f: Option<AsciiFrame>) -> Option<(u16, u16, Seq<CellData>)> {
    match f {
        Some(f) => Some((f.width, f.height, f.cells@)),
        None => None,
    }
}

/// The bytes of `v` from position `from` on.
fn bytes_from(v: &Vec<u8>, from: usize) -> (r: Vec<u8>)
    requires
        from <= v@.len(),
    ensures
        r@ == v@.skip(from as int),
{
    let mut r: Vec<u8> = Vec::new();
    let mut i: usize = from;
    while i < v.len()
        invariant
            from <= i <= v@.len(),
            r@ == v@.subrange(from as int, i as int),
        decreases v@.len() - i,
    {
        r.push(v[i]);
        i = i + 1;
        assert(r@ =~= v@.subrange(from as int, i as int));
    }
    assert(r@ =~= v@.skip(from as int));
    r
}

impl FrameStream {
    /// The bytes kept.
    pub closed spec fn pending(&self) -> Seq<u8> {
        self.pending@
    }

    /// No more than `MAX_PENDING_BYTES` are kept.
    pub closed spec fn well_formed(&self) -> bool {
        self.pending@.len() <= MAX_PENDING_BYTES
    }

    /// A stream with nothing received yet.
    pub fn new() -> (s: Self)
        ensures
            s.well_formed(),
            s.pending() == Seq::<u8>::empty(),
    {
        FrameStream { pending: Vec::new() }
    }

    /// Takes in the bytes of one read. When the kept bytes and these together
    /// exceed `MAX_PENDING_BYTES`, everything is dropped and the answer is
    /// `Overflow`. Otherwise every complete frame at the front is taken off;
    /// the answer is the last of them as a grid, or `Pending` when there was
    /// none, and what remains is kept.
    pub fn receive(&mut self, bytes: &[u8]) -> (a: Arrival)
        requires
            old(self).well_formed(),
        ensures
            final(self).well_formed(),
            old(self).pending().len() + bytes@.len() > MAX_PENDING_BYTES ==> a is Overflow
                && final(self).pending().len() == 0,
            old(self).pending().len() + bytes@.len() <= MAX_PENDING_BYTES ==> {
                let (rest, last) = drained(old(self).pending() + bytes@);
                &&& final(self).pending() == rest
                &&& match last {
                    None => a is Pending,
                    Some((w, h, cells)) => a matches Arrival::Frame(g) && shows_frame(g@, w, h, cells),
                }
            },
    {
        if bytes.len() > MAX_PENDING_BYTES || self.pending.len() > MAX_PENDING_BYTES - bytes.len() {
            self.pending = Vec::new();
            return Arrival::Overflow;
        }
        let ghost combined = self.pending@ + bytes@;
        let mut rest = Vec::new();
        rest.append(&mut self.pending);
        rest.extend_from_slice(bytes);
        assert(rest@ =~= combined);
        let mut latest: Option<AsciiFrame> = None;
        loop
            invariant_except_break
                rest@.len() <= combined.len(),
                drained(combined).0 == drained(rest@).0,
                drained(combined).1 == (if drained(rest@).1 is Some {
                    drained(rest@).1
                } else {
                    frame_model(latest)
                }),
            ensures
                drained(combined) == (rest@, frame_model(latest)),
                rest@.len() <= combined.len(),
            decreases rest@.len(),
        {
            match decode_frame(rest.as_slice()) {
                Some((frame, consumed)) => {
                    rest = bytes_from(&rest, consumed);
                    latest = Some(frame);
                },
                None => {
                    break;
                },
            }
        }
        self.pending = rest;
        match latest {
            Some(frame) => Arrival::Frame(frame_to_grid(&frame)),
            None => Arrival::Pending,
        }
    }
}

/// A grid sent arrives as that grid, also when its bytes come in two reads:
/// after the first part nothing is shown and the part is kept; once the rest
/// is there, the frame taken has the grid's width, height and rows, and
/// nothing is left over.
pub proof fn lemma_frame_arrives(grid: Seq<Vec<AsciiCell>>, k: int)
    requires
        rectangular(grid),
        fits_header(grid),
        grid.len() >= 1,
        grid_width(grid) >= 1,
        0 <= k < encoded_frame(grid).len(),
    ensures
        drained(encoded_frame(grid).take(k)) == (encoded_frame(grid).take(k), None::<(u16, u16, Seq<CellData>)>),
        drained(encoded_frame(grid).take(k) + encoded_frame(grid).skip(k)).0 == Seq::<u8>::empty(),
        drained(encoded_frame(grid).take(k) + encoded_frame(grid).skip(k)).1 matches Some((w, h, cells))
            && w as nat == grid_width(grid) && h as nat == grid.len() && forall|row: int|
            0 <= row < h ==> #[trigger] frame_row(cells, w as nat, row) == grid[row]@,
{
    let e = encoded_frame(grid);
    lemma_grid_roundtrip(grid);
    lemma_encode_decode(grid);
    lemma_decode_prefix(e, Seq::empty());
    assert(decoded(e.take(k)) is None);
    assert(e.take(k) + e.skip(k) =~= e);
    let n = decoded(e).unwrap().3;
    assert(n == e.len());
    assert(e.skip(n as int) =~= Seq::<u8>::empty());
    assert(decoded(Seq::<u8>::empty()) is None);
    assert(drained(Seq::<u8>::empty()) == (Seq::<u8>::empty(), None::<(u16, u16, Seq<CellData>)>));
    let (w, h, cells, _) = decoded(e).unwrap();
    assert(drained(e) == (Seq::<u8>::empty(), Some((w, h, cells))));
}

} // verus!
