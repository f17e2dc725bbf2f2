//! The payload of a sprite chunk: version, frame count, palette, one offset
//! for every frame, and the frames themselves.

use vstd::prelude::*;
use crate::bytes::{bits32, i32_bits, le32, push_all, push_le32};

verus! {

/// The version that opens the payload of the older format.
pub const SPR1_VERSION: u32 = 504;

/// The version that opens the payload of the newer format.
pub const SPR2_VERSION: u32 = 1000;

/// Number of bytes before the offset table.
pub const HEADER_SIZE: usize = 12;

/// The frames as sequences of bytes.
pub open spec fn frame_views(frames: Seq<Vec<u8>>) -> Seq<Seq<u8>> {
    Seq::new(frames.len(), |i: int| frames[i]@)
}

/// Number of bytes of all the frames together.
pub open spec fn total_len(frames: Seq<Seq<u8>>) -> nat
    decreases frames.len(),
{
    if frames.len() == 0 {
        0
    } else {
        total_len(frames.drop_last()) + frames.last().len()
    }
}

/// The frames one after another.
pub open spec fn concat(frames: Seq<Seq<u8>>) -> Seq<u8>
    decreases frames.len(),
{
    if frames.len() == 0 {
        Seq::empty()
    } else {
        concat(frames.drop_last()) + frames.last()
    }
}

/// Number of bytes of the frames before frame `i`.
pub open spec fn bytes_before(frames: Seq<Seq<u8>>, i: int) -> int {
    total_len(frames.take(i)) as int
}

/// Where frame `i` starts in the payload: after the header, the offset
/// table and the frames before it.
pub open spec fn frame_offset(frames: Seq<Seq<u8>>, i: int) -> int {
    HEADER_SIZE + 4 * frames.len() + bytes_before(frames, i)
}

/// The first `n` entries of the offset table.
pub open spec fn offset_table(frames: Seq<Seq<u8>>, n: int) -> Seq<u8>
    decreases n,
{
    if n <= 0 {
        Seq::empty()
    } else {
        offset_table(frames, n - 1) + le32(frame_offset(frames, n - 1) as u32)
    }
}

/// The first of the first `n` frames whose offset does not fit in 32 bits.
pub open spec fn first_overflow(frames: Seq<Seq<u8>>, n: int) -> Option<int>
    decreases n,
{
    if n <= 0 {
        None
    } else {
        match first_overflow(frames, n - 1) {
            Some(i) => Some(i),
            None => if frame_offset(frames, n - 1) > u32::MAX {
                Some(n - 1)
            } else {
                None
            },
        }
    }
}

/// The payload of a chunk.
pub open spec fn payload(version: u32, palette_id: i32, frames: Seq<Seq<u8>>) -> Seq<u8> {
    le32(version) + le32(frames.len() as u32) + le32(bits32(palette_id)) + offset_table(
        frames,
        frames.len() as int,
    ) + concat(frames)
}

/// What assembling gives: the position of the first frame whose offset does
/// not fit in 32 bits, or the payload.
pub open spec fn assembled(version: u32, palette_id: i32, frames: Seq<Seq<u8>>) -> Result<
    Seq<u8>,
    int,
> {
    match first_overflow(frames, frames.len() as int) {
        Some(i) => Err(i),
        None => Ok(payload(version, palette_id, frames)),
    }
}

/// A frame more adds its length to the total.
pub proof fn lemma_total_len_step(frames: Seq<Seq<u8>>, i: int)
    requires
        0 <= i < frames.len(),
    ensures
        total_len(frames.take(i + 1)) == total_len(frames.take(i)) + frames[i].len(),
        concat(frames.take(i + 1)) == concat(frames.take(i)) + frames[i],
{
    assert(frames.take(i + 1).drop_last() =~= frames.take(i));
}

/// Once an offset has been found that does not fit, it stays the first.
pub proof fn lemma_first_overflow_stays(frames: Seq<Seq<u8>>, k: int, n: int)
    requires
        k <= n,
        first_overflow(frames, k) is Some,
    ensures
        first_overflow(frames, n) == first_overflow(frames, k),
    decreases n - k,
{
    if k < n {
        lemma_first_overflow_stays(frames, k, n - 1);
    }
}

/// Lays out the frames in the order given and builds the payload.
pub fn assemble(version: u32, palette_id: i32, frames: &Vec<Vec<u8>>) -> (r: Result<
    Vec<u8>,
    usize,
>)
    ensures
        match r {
            Ok(bytes) => assembled(version, palette_id, frame_views(frames@)) == Ok::<
                Seq<u8>,
                int,
            >(bytes@),
            Err(i) => assembled(version, palette_id, frame_views(frames@)) == Err::<Seq<u8>, int>(
                i as int,
            ),
        },
{
    let n: usize = frames.len();
    let ghost views = frame_views(frames@);
    if n == 0 {
        let mut out: Vec<u8> = Vec::new();
        push_le32(&mut out, version);
        push_le32(&mut out, 0);
        push_le32(&mut out, i32_bits(palette_id));
        assert(out@ =~= payload(version, palette_id, views));
        return Ok(out);
    }
    assert(views.take(0) =~= Seq::<Seq<u8>>::empty());
    if n > 1073741820 {
        proof {
            assert(first_overflow(views, 0) is None);
            assert(frame_offset(views, 0) > u32::MAX);
            assert(first_overflow(views, 1) == Some(0int));
            lemma_first_overflow_stays(views, 1, n as int);
        }
        return Err(0);
    }
    let mut table: Vec<u8> = Vec::new();
    let mut address: u64 = 12 + 4 * (n as u64);
    let mut i: usize = 0;
    while i < n
        invariant
            n == frames@.len(),
            n <= 1073741820,
            views == frame_views(frames@),
            i <= n,
            first_overflow(views, i as int) is None,
            address <= 0x1_0000_0000,
            address <= u32::MAX ==> address == frame_offset(views, i as int),
            address > u32::MAX ==> frame_offset(views, i as int) > u32::MAX,
            table@ == offset_table(views, i as int),
        decreases n - i,
    {
        if address > 0xffff_ffff {
            proof {
                lemma_first_overflow_stays(views, i + 1, n as int);
            }
            return Err(i);
        }
        push_le32(&mut table, address as u32);
        proof {
            lemma_total_len_step(views, i as int);
        }
        let len: usize = frames[i].len();
        if len as u64 > 0xffff_ffff - address {
            address = 0x1_0000_0000;
        } else {
            address = address + len as u64;
        }
        i += 1;
    }
    let mut body: Vec<u8> = Vec::new();
    let mut j: usize = 0;
    while j < n
        invariant
            n == frames@.len(),
            views == frame_views(frames@),
            j <= n,
            body@ == concat(views.take(j as int)),
        decreases n - j,
    {
        proof {
            lemma_total_len_step(views, j as int);
        }
        push_all(&mut body, &frames[j]);
        j += 1;
    }
    assert(views.take(n as int) =~= views);
    let mut out: Vec<u8> = Vec::new();
    push_le32(&mut out, version);
    push_le32(&mut out, n as u32);
    push_le32(&mut out, i32_bits(palette_id));
    push_all(&mut out, &table);
    push_all(&mut out, &body);
    assert(out@ =~= payload(version, palette_id, views));
    Ok(out)
}

/// The frames one after another take as many bytes as all of them together.
pub proof fn lemma_concat_len(frames: Seq<Seq<u8>>)
    ensures
        concat(frames).len() == total_len(frames),
    decreases frames.len(),
{
    if frames.len() > 0 {
        lemma_concat_len(frames.drop_last());
    }
}

/// The offset table takes four bytes for each entry.
pub proof fn lemma_offset_table_len(frames: Seq<Seq<u8>>, n: int)
    requires
        0 <= n,
    ensures
        offset_table(frames, n).len() == 4 * n,
    decreases n,
{
    if n > 0 {
        lemma_offset_table_len(frames, n - 1);
    }
}

/// Entry `i` of the first `n` entries of the offset table is the offset of
/// frame `i`.
pub proof fn lemma_offset_table_entry(frames: Seq<Seq<u8>>, n: int, i: int)
    requires
        0 <= i < n,
    ensures
        offset_table(frames, n).subrange(4 * i, 4 * i + 4) == le32(
            frame_offset(frames, i) as u32,
        ),
    decreases n,
{
    lemma_offset_table_len(frames, n - 1);
    if i < n - 1 {
        lemma_offset_table_entry(frames, n - 1, i);
        assert(offset_table(frames, n).subrange(4 * i, 4 * i + 4) =~= offset_table(
            frames,
            n - 1,
        ).subrange(4 * i, 4 * i + 4));
    } else {
        assert(offset_table(frames, n).subrange(4 * i, 4 * i + 4) =~= le32(
            frame_offset(frames, i) as u32,
        ));
    }
}

/// Frame `i` stands among the frames behind the frames before it.
pub proof fn lemma_concat_holds_frame(frames: Seq<Seq<u8>>, i: int)
    requires
        0 <= i < frames.len(),
    ensures
        bytes_before(frames, i) + frames[i].len() <= concat(frames).len(),
        concat(frames).subrange(
            bytes_before(frames, i),
            bytes_before(frames, i) + frames[i].len(),
        ) == frames[i],
    decreases frames.len(),
{
    let before = frames.drop_last();
    lemma_concat_len(before);
    lemma_concat_len(frames);
    if i < frames.len() - 1 {
        lemma_concat_holds_frame(before, i);
        assert(before.take(i) =~= frames.take(i));
        assert(concat(frames).subrange(
            bytes_before(frames, i),
            bytes_before(frames, i) + frames[i].len(),
        ) =~= concat(before).subrange(
            bytes_before(before, i),
            bytes_before(before, i) + before[i].len(),
        ));
    } else {
        assert(frames.take(i) =~= before);
        assert(concat(frames).subrange(
            bytes_before(frames, i),
            bytes_before(frames, i) + frames[i].len(),
        ) =~= frames[i]);
    }
}

/// The first frame starts behind the header and the offset table, and
/// every other frame where the frame before it ends: the offsets are the
/// sums of the lengths of the frames before.
pub proof fn law_offsets_are_prefix_sums(frames: Seq<Seq<u8>>, i: int)
    requires
        0 <= i < frames.len(),
    ensures
        frame_offset(frames, 0) == HEADER_SIZE + 4 * frames.len(),
        frame_offset(frames, i + 1) == frame_offset(frames, i) + frames[i].len(),
{
    assert(frames.take(0) =~= Seq::<Seq<u8>>::empty());
    lemma_total_len_step(frames, i);
}

/// Where no frame is empty, a later frame has a greater offset.
pub proof fn law_offsets_increase(frames: Seq<Seq<u8>>, i: int, j: int)
    requires
        0 <= i < j <= frames.len(),
        forall|k: int| 0 <= k < frames.len() ==> (#[trigger] frames[k]).len() > 0,
    ensures
        frame_offset(frames, i) < frame_offset(frames, j),
    decreases j - i,
{
    lemma_total_len_step(frames, j - 1);
    assert(frames[j - 1].len() > 0);
    if i < j - 1 {
        law_offsets_increase(frames, i, j - 1);
    }
}

/// In the payload, entry `i` of the offset table holds the offset of frame
/// `i`, and frame `i` stands at that offset.
pub proof fn law_offsets_point_at_frames(
    version: u32,
    palette_id: i32,
    frames: Seq<Seq<u8>>,
    i: int,
)
    requires
        0 <= i < frames.len(),
    ensures
        frame_offset(frames, i) + frames[i].len() <= payload(version, palette_id, frames).len(),
        payload(version, palette_id, frames).subrange(
            HEADER_SIZE + 4 * i,
            HEADER_SIZE + 4 * i + 4,
        ) == le32(frame_offset(frames, i) as u32),
        payload(version, palette_id, frames).subrange(
            frame_offset(frames, i),
            frame_offset(frames, i) + frames[i].len(),
        ) == frames[i],
{
    let n = frames.len() as int;
    let whole = payload(version, palette_id, frames);
    lemma_offset_table_len(frames, n);
    lemma_offset_table_entry(frames, n, i);
    lemma_concat_holds_frame(frames, i);
    assert(whole.subrange(HEADER_SIZE + 4 * i, HEADER_SIZE + 4 * i + 4) =~= offset_table(
        frames,
        n,
    ).subrange(4 * i, 4 * i + 4));
    assert(whole.subrange(frame_offset(frames, i), frame_offset(frames, i) + frames[i].len())
        =~= concat(frames).subrange(
        bytes_before(frames, i),
        bytes_before(frames, i) + frames[i].len(),
    ));
}

} // verus!
