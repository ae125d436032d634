//! Splitting a serialized message into size-bounded, checksummed frames.

use vstd::prelude::*;
use vstd::array::array_as_slice;
use vstd::slice::{slice_subrange, slice_to_vec};
use crate::checksum::{calculate_crc32, crc32_of};
use crate::frame::{
    frame_well_formed, Frame, RouteId, BLE_FRAME_SERIALIZED_OVERHEAD, BLE_MAX_WRITE_BYTES, FRAME_MAGIC, FRAME_OVERHEAD,
    PROTOCOL_VERSION,
};

verus! {

/// Largest payload that one frame may carry on a link with the given MTU:
/// bounded both by the MTU and by the platform's per-write ceiling.
pub open spec fn chunk_size_for(mtu: nat) -> nat {
    let by_mtu = mtu - FRAME_OVERHEAD;
    let by_platform = BLE_MAX_WRITE_BYTES - BLE_FRAME_SERIALIZED_OVERHEAD;
    if by_mtu < by_platform {
        by_mtu as nat
    } else {
        by_platform as nat
    }
}

/// The payload slices of a message: consecutive pieces of `size` bytes, the
/// last one shorter where the length is no multiple of `size`. An empty
/// message gives one empty piece, so that every message travels in at least
/// one frame.
pub open spec fn split_chunks(m: Seq<u8>, size: nat) -> Seq<Seq<u8>>
    decreases m.len(),
{
    if size == 0 || m.len() <= size {
        seq![m]
    } else {
        seq![m.take(size as int)] + split_chunks(m.skip(size as int), size)
    }
}

/// Concatenation of a sequence of byte sequences, in order.
pub open spec fn concat_all(parts: Seq<Seq<u8>>) -> Seq<u8>
    decreases parts.len(),
{
    if parts.len() == 0 {
        Seq::empty()
    } else {
        concat_all(parts.drop_last()) + parts.last()
    }
}

/// `f` is the frame numbered `seq` of `total`, carrying `payload` for the
/// message `route_id` of kind `msg_type`.
pub open spec fn is_frame_of(
    f: Frame,
    payload: Seq<u8>,
    seq: int,
    total: int,
    route_id: Seq<u8>,
    msg_type: u32,
) -> bool {
    &&& f.magic == FRAME_MAGIC
    &&& f.msg_type == msg_type
    &&& f.protocol_version == PROTOCOL_VERSION
    &&& f.route_id@ == route_id
    &&& f.seq_no == seq
    &&& f.total_seqs == total
    &&& f.payload_len == payload.len()
    &&& f.flags == 0
    &&& f.payload@ == payload
    &&& f.crc32 == crc32_of(payload)
}

/// Every frame that chunking produces is well formed.
pub proof fn lemma_chunks_well_formed(
    frames: Seq<Frame>,
    m: Seq<u8>,
    route_id: Seq<u8>,
    msg_type: u32,
    mtu: nat,
)
    requires
        is_chunking(frames, m, route_id, msg_type, mtu),
    ensures
        forall|i: int| 0 <= i < frames.len() ==> frame_well_formed(#[trigger] frames[i]),
{
}

/// `frames` is exactly what chunking `m` for a link of MTU `mtu` produces:
/// one frame per payload slice, numbered in order.
pub open spec fn is_chunking(
    frames: Seq<Frame>,
    m: Seq<u8>,
    route_id: Seq<u8>,
    msg_type: u32,
    mtu: nat,
) -> bool {
    let parts = split_chunks(m, chunk_size_for(mtu));
    &&& frames.len() == parts.len()
    &&& forall|i: int|
        0 <= i < frames.len() ==> is_frame_of(
            #[trigger] frames[i],
            parts[i],
            i,
            parts.len() as int,
            route_id,
            msg_type,
        )
}

/// Every piece is at most `size` bytes long and the pieces concatenate back
/// to the message.
pub proof fn lemma_split_chunks(m: Seq<u8>, size: nat)
    requires
        size > 0,
    ensures
        split_chunks(m, size).len() >= 1,
        concat_all(split_chunks(m, size)) == m,
        forall|i: int|
            0 <= i < split_chunks(m, size).len() ==> #[trigger] split_chunks(m, size)[i].len()
                <= size,
        m.len() == 0 ==> split_chunks(m, size).len() == 1,
        m.len() > 0 ==> split_chunks(m, size).len() == (m.len() + size - 1) / size as int,
    decreases m.len(),
{
    if m.len() <= size {
        assert(seq![m].drop_last() =~= Seq::<Seq<u8>>::empty());
        assert(concat_all(Seq::<Seq<u8>>::empty()) == Seq::<u8>::empty());
        assert(concat_all(seq![m]) == concat_all(seq![m].drop_last()) + m);
        assert(Seq::<u8>::empty() + m =~= m);
        if m.len() > 0 {
            assert((m.len() + size - 1) / size as int == 1) by (nonlinear_arith)
                requires
                    0 < m.len() <= size,
            ;
        }
    } else {
        let rest = m.skip(size as int);
        lemma_split_chunks(rest, size);
        let tail = split_chunks(rest, size);
        let parts = split_chunks(m, size);
        assert(parts == seq![m.take(size as int)] + tail);
        lemma_concat_prepend(m.take(size as int), tail);
        assert(m.take(size as int) + rest =~= m);
        let k = rest.len() as int;
        assert((k + size + size - 1) / size as int == (k + size - 1) / size as int + 1)
            by (nonlinear_arith)
            requires
                size > 0,
                k > 0,
        ;
    }
}

/// Concatenating after a leading piece puts that piece first.
pub proof fn lemma_concat_prepend(head: Seq<u8>, tail: Seq<Seq<u8>>)
    ensures
        concat_all(seq![head] + tail) == head + concat_all(tail),
    decreases tail.len(),
{
    let whole = seq![head] + tail;
    if tail.len() == 0 {
        assert(whole =~= seq![head]);
        assert(whole.drop_last() =~= Seq::<Seq<u8>>::empty());
        assert(concat_all(Seq::<Seq<u8>>::empty()) == Seq::<u8>::empty());
        assert(concat_all(whole) == concat_all(whole.drop_last()) + head);
        assert(Seq::<u8>::empty() + head =~= head);
        assert(head + Seq::<u8>::empty() =~= head);
    } else {
        assert(whole.drop_last() =~= seq![head] + tail.drop_last());
        assert(whole.last() == tail.last());
        lemma_concat_prepend(head, tail.drop_last());
        assert(head + concat_all(tail.drop_last()) + tail.last() =~= head + (concat_all(
            tail.drop_last(),
        ) + tail.last()));
    }
}

/// Splits `data` into consecutive pieces of `chunk_size` bytes, the last one
/// shorter where the length is no multiple of `chunk_size`; no piece for
/// empty data.
pub fn chunk_data(data: &[u8], chunk_size: usize) -> (r: Vec<Vec<u8>>)
    requires
        chunk_size > 0,
    ensures
        data@.len() == 0 ==> r@.len() == 0,
        data@.len() > 0 ==> r@.map_values(|v: Vec<u8>| v@) == split_chunks(
            data@,
            chunk_size as nat,
        ),
{
    let mut r: Vec<Vec<u8>> = Vec::new();
    let len: usize = data.len();
    if len == 0 {
        return r;
    }
    let ghost m = data@;
    let ghost size = chunk_size as nat;
    let ghost pv = |v: Vec<u8>| v@;
    let mut offset: usize = 0;
    assert(m.skip(0) =~= m);
    assert(r@.map_values(pv) =~= Seq::<Seq<u8>>::empty());
    assert(Seq::<Seq<u8>>::empty() + split_chunks(m, size) =~= split_chunks(m, size));
    loop
        invariant_except_break
            split_chunks(m, size) == r@.map_values(pv) + split_chunks(m.skip(offset as int), size),
            offset < len,
        invariant
            pv == (|v: Vec<u8>| v@),
            size == chunk_size as nat,
            size > 0,
            m == data@,
            len == m.len(),
        ensures
            split_chunks(m, size) == r@.map_values(pv),
        decreases len - offset,
    {
        let end: usize = if len - offset <= chunk_size {
            len
        } else {
            offset + chunk_size
        };
        let piece = slice_subrange(data, offset, end);
        let ghost rest = m.skip(offset as int);
        let ghost before = r@;
        r.push(slice_to_vec(piece));
        proof {
            assert(r@.map_values(pv) =~= before.map_values(pv).push(piece@));
            if rest.len() <= size {
                assert(end == len);
                assert(rest =~= piece@);
                assert(split_chunks(rest, size) =~= seq![piece@]);
                assert(split_chunks(m, size) =~= r@.map_values(pv));
            } else {
                assert(end == offset + size);
                assert(rest.take(size as int) =~= piece@);
                assert(rest.skip(size as int) =~= m.skip(end as int));
                assert(split_chunks(rest, size) =~= seq![piece@] + split_chunks(
                    m.skip(end as int),
                    size,
                ));
                assert(split_chunks(m, size) =~= r@.map_values(pv) + split_chunks(
                    m.skip(end as int),
                    size,
                ));
            }
        }
        if end >= len {
            break;
        }
        offset = end;
    }
    r
}

/// Splits the serialized message `payload` into the frames that carry it
/// over a link of MTU `mtu`, each frame tagged with `route_id` and
/// `msg_type`.
pub fn chunk_bytes(payload: &[u8], route_id: &[u8], msg_type: u32, mtu: usize) -> (frames: Vec<
    Frame,
>)
    requires
        mtu > FRAME_OVERHEAD,
        payload@.len() <= u32::MAX,
    ensures
        is_chunking(frames@, payload@, route_id@, msg_type, mtu as nat),
        forall|i: int|
            0 <= i < frames@.len() ==> #[trigger] frames@[i].payload_len <= chunk_size_for(
                mtu as nat,
            ),
        payload@.len() == 0 ==> frames@.len() == 1,
        payload@.len() > 0 ==> frames@.len() == (payload@.len() + chunk_size_for(mtu as nat) - 1)
            / chunk_size_for(mtu as nat) as int,
{
    let by_platform: usize = BLE_MAX_WRITE_BYTES - BLE_FRAME_SERIALIZED_OVERHEAD;
    let by_mtu: usize = mtu - FRAME_OVERHEAD;
    let chunk_size: usize = if by_mtu < by_platform {
        by_mtu
    } else {
        by_platform
    };
    let len: usize = payload.len();
    let ghost m = payload@;
    let ghost size = chunk_size as nat;
    proof {
        lemma_split_chunks(m, size);
    }
    let total_chunks: usize = if len == 0 {
        1
    } else {
        let last: usize = len - 1;
        assert(last / chunk_size <= last) by (nonlinear_arith)
            requires
                chunk_size >= 1,
        ;
        last / chunk_size + 1
    };
    assert(total_chunks == split_chunks(m, size).len() && total_chunks <= u32::MAX) by {
        if len > 0 {
            let k = (len - 1) as int;
            assert((k + size) / size as int == k / size as int + 1) by (nonlinear_arith)
                requires
                    size > 0,
                    k >= 0,
            ;
        }
    }
    let mut frames: Vec<Frame> = Vec::new();
    let mut offset: usize = 0;
    let mut seq: u32 = 0;
    let ghost pv = |f: Frame| f.payload@;
    assert(m.skip(0) =~= m);
    assert(frames@.map_values(pv) =~= Seq::<Seq<u8>>::empty());
    assert(Seq::<Seq<u8>>::empty() + split_chunks(m, size) =~= split_chunks(m, size));
    loop
        invariant_except_break
            split_chunks(m, size) == frames@.map_values(pv) + split_chunks(
                m.skip(offset as int),
                size,
            ),
            offset == 0 || offset < len,
        invariant
            pv == (|f: Frame| f.payload@),
            size > 0,
            size == chunk_size as nat,
            total_chunks <= u32::MAX,
            size == chunk_size_for(mtu as nat),
            m == payload@,
            len == m.len(),
            m.len() <= u32::MAX,
            total_chunks == split_chunks(m, size).len(),
            offset <= len,
            seq == frames@.len(),
            forall|i: int|
                0 <= i < frames@.len() ==> #[trigger] is_frame_of(
                    frames@[i],
                    frames@[i].payload@,
                    i,
                    total_chunks as int,
                    route_id@,
                    msg_type,
                ),
        ensures
            split_chunks(m, size) == frames@.map_values(pv),
        decreases len - offset + (if offset == 0 && seq == 0 { 1int } else { 0int }),
    {
        let end: usize = if len - offset <= chunk_size {
            len
        } else {
            offset + chunk_size
        };
        let piece = slice_subrange(payload, offset, end);
        let crc = calculate_crc32(piece);
        let ghost rest = m.skip(offset as int);
        proof {
            assert(piece@ =~= m.subrange(offset as int, end as int));
            if rest.len() <= size {
                assert(end == len);
                assert(split_chunks(rest, size) == seq![rest]);
                assert(rest =~= piece@);
            } else {
                assert(end == offset + size);
                assert(split_chunks(rest, size) == seq![rest.take(size as int)] + split_chunks(
                    rest.skip(size as int),
                    size,
                ));
                assert(rest.take(size as int) =~= piece@);
                assert(rest.skip(size as int) =~= m.skip(end as int));
            }
            assert(seq < total_chunks) by {
                let parts = split_chunks(m, size);
                assert(parts.len() == frames@.len() + split_chunks(rest, size).len());
            }
        }
        let frame = Frame {
            magic: FRAME_MAGIC,
            msg_type,
            protocol_version: PROTOCOL_VERSION,
            route_id: slice_to_vec(route_id),
            seq_no: seq,
            total_seqs: total_chunks as u32,
            payload_len: (end - offset) as u32,
            flags: 0,
            payload: slice_to_vec(piece),
            crc32: crc,
        };
        let ghost old_frames = frames@;
        frames.push(frame);
        proof {
            assert(frames@.map_values(pv) =~= old_frames.map_values(pv).push(piece@));
            if end < len {
                assert(split_chunks(rest, size) =~= seq![piece@] + split_chunks(
                    m.skip(end as int),
                    size,
                ));
                assert(split_chunks(m, size) =~= frames@.map_values(pv) + split_chunks(
                    m.skip(end as int),
                    size,
                ));
            } else {
                assert(split_chunks(rest, size) =~= seq![piece@]);
                assert(split_chunks(m, size) =~= frames@.map_values(pv));
            }
            assert forall|i: int| 0 <= i < frames@.len() implies #[trigger] is_frame_of(
                frames@[i],
                frames@[i].payload@,
                i,
                total_chunks as int,
                route_id@,
                msg_type,
            ) by {
                if i < old_frames.len() {
                    assert(frames@[i] == old_frames[i]);
                }
            }
        }
        seq = seq + 1;
        if end >= len {
            break;
        }
        offset = end;
    }
    proof {
        let parts = split_chunks(m, size);
        assert forall|i: int| 0 <= i < frames@.len() implies is_frame_of(
            #[trigger] frames@[i],
            parts[i],
            i,
            parts.len() as int,
            route_id@,
            msg_type,
        ) by {
            assert(parts[i] == frames@.map_values(pv)[i]);
        }
        assert forall|i: int| 0 <= i < frames@.len() implies #[trigger] frames@[i].payload_len
            <= size by {
            assert(is_frame_of(frames@[i], parts[i], i, parts.len() as int, route_id@, msg_type));
            assert(parts[i].len() <= size);
        }
    }
    frames
}

/// Splits the serialized message `payload` into the frames that carry it
/// over a link of MTU `mtu`, each frame tagged with the 16 bytes of
/// `route_id` and with `msg_type`.
pub fn chunk_message(payload: &[u8], route_id: &RouteId, msg_type: u32, mtu: usize) -> (frames: Vec<
    Frame,
>)
    requires
        mtu > FRAME_OVERHEAD,
        payload@.len() <= u32::MAX,
    ensures
        is_chunking(frames@, payload@, route_id.bytes@, msg_type, mtu as nat),
        forall|i: int|
            0 <= i < frames@.len() ==> #[trigger] frames@[i].payload_len <= chunk_size_for(
                mtu as nat,
            ),
        payload@.len() == 0 ==> frames@.len() == 1,
        payload@.len() > 0 ==> frames@.len() == (payload@.len() + chunk_size_for(mtu as nat) - 1)
            / chunk_size_for(mtu as nat) as int,
{
    chunk_bytes(payload, array_as_slice(&route_id.bytes), msg_type, mtu)
}

} // verus!
