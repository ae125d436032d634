//! Properties that relate the chunker and the assembler, proved over their
//! specifications.

use vstd::prelude::*;
use crate::assembler::{
    accepts, assembled, assembles, complete, empty_view, gap_at, joined_below, missing,
    missing_below, offer, offer_all, present_below, AssemblerView,
};
use crate::checksum::crc32_of;
use crate::chunker::{
    chunk_size_for, concat_all, is_chunking, is_frame_of, lemma_split_chunks, split_chunks,
};
use crate::frame::{Frame, FRAME_MAGIC, FRAME_OVERHEAD};

verus! {

broadcast use vstd::seq_lib::group_to_multiset_ensures;

/// `f` is accepted in every state: right magic, matching checksum and a
/// route id of 16 bytes.
pub open spec fn sound_frame(f: Frame) -> bool {
    &&& f.magic == FRAME_MAGIC
    &&& crc32_of(f.payload@) == f.crc32
    &&& f.route_id@.len() == 16
}

/// The sequence numbers below `n`.
pub open spec fn numbers_below(n: nat) -> Set<u32> {
    Set::new(|k: u32| k < n)
}

proof fn lemma_numbers_below(n: nat)
    requires
        n <= u32::MAX + 1,
    ensures
        numbers_below(n).finite(),
        numbers_below(n).len() == n,
    decreases n,
{
    if n == 0 {
        assert(numbers_below(n) =~= Set::<u32>::empty());
    } else {
        lemma_numbers_below((n - 1) as nat);
        let last = (n - 1) as u32;
        assert(numbers_below(n) =~= numbers_below((n - 1) as nat).insert(last));
    }
}

/// Offering sound frames that all carry the count `total`, each with the
/// payload `parts` gives for its sequence number, stores exactly those
/// numbers, each with that payload.
proof fn lemma_offer_sound(fs: Seq<Frame>, parts: Seq<Seq<u8>>, total: u32)
    requires
        forall|i: int|
            0 <= i < fs.len() ==> {
                &&& sound_frame(#[trigger] fs[i])
                &&& fs[i].total_seqs == total
                &&& fs[i].seq_no < parts.len()
                &&& fs[i].payload@ == parts[fs[i].seq_no as int]
            },
    ensures
        offer_all(empty_view(), fs).received.dom().finite(),
        forall|k: u32|
            #[trigger] offer_all(empty_view(), fs).received.contains_key(k) <==> exists|i: int|
                0 <= i < fs.len() && fs[i].seq_no == k,
        forall|k: u32| #[trigger]
            offer_all(empty_view(), fs).received.contains_key(k) ==> offer_all(
                empty_view(),
                fs,
            ).received[k] == parts[k as int],
        offer_all(empty_view(), fs).total == if fs.len() == 0 {
            None
        } else {
            Some(total)
        },
    decreases fs.len(),
{
    if fs.len() > 0 {
        let init = fs.drop_last();
        lemma_offer_sound(init, parts, total);
        let s = offer_all(empty_view(), init);
        let f = fs.last();
        assert(sound_frame(fs[fs.len() - 1]));
        assert(accepts(s, f));
        assert forall|k: u32|
            #[trigger] offer_all(empty_view(), fs).received.contains_key(k) <==> exists|i: int|
                0 <= i < fs.len() && fs[i].seq_no == k by {
            if k == f.seq_no {
                assert(fs[fs.len() - 1].seq_no == k);
            } else if s.received.contains_key(k) {
                let i = choose|i: int| 0 <= i < init.len() && init[i].seq_no == k;
                assert(fs[i].seq_no == k);
            } else {
                if exists|i: int| 0 <= i < fs.len() && fs[i].seq_no == k {
                    let i = choose|i: int| 0 <= i < fs.len() && fs[i].seq_no == k;
                    assert(init[i].seq_no == k);
                }
            }
        }
    }
}

/// Offering the frames of a chunked message, in order, from an empty
/// assembler stores every sequence number of the message with its slice.
proof fn lemma_offer_chunks(
    fs: Seq<Frame>,
    frames: Seq<Frame>,
    m: Seq<u8>,
    route_id: Seq<u8>,
    msg_type: u32,
    mtu: nat,
)
    requires
        is_chunking(frames, m, route_id, msg_type, mtu),
        route_id.len() == 16,
        forall|i: int| 0 <= i < fs.len() ==> frames.contains(#[trigger] fs[i]),
    ensures
        offer_all(empty_view(), fs).received.dom().finite(),
        forall|k: u32|
            #[trigger] offer_all(empty_view(), fs).received.contains_key(k) <==> exists|i: int|
                0 <= i < fs.len() && fs[i].seq_no == k,
        forall|k: u32| #[trigger]
            offer_all(empty_view(), fs).received.contains_key(k) ==> offer_all(
                empty_view(),
                fs,
            ).received[k] == split_chunks(m, chunk_size_for(mtu))[k as int],
        offer_all(empty_view(), fs).total == if fs.len() == 0 {
            None
        } else {
            Some(frames.len() as u32)
        },
{
    let parts = split_chunks(m, chunk_size_for(mtu));
    let n = frames.len();
    assert forall|i: int| 0 <= i < fs.len() implies {
        &&& sound_frame(#[trigger] fs[i])
        &&& fs[i].total_seqs == n as u32
        &&& fs[i].seq_no < parts.len()
        &&& fs[i].payload@ == parts[fs[i].seq_no as int]
    } by {
        assert(frames.contains(fs[i]));
        let j = choose|j: int| 0 <= j < frames.len() && frames[j] == fs[i];
        assert(is_frame_of(frames[j], parts[j], j, parts.len() as int, route_id, msg_type));
    }
    lemma_offer_sound(fs, parts, n as u32);
}

/// The state reached by offering every frame of a chunked message holds
/// exactly the numbers below the frame count, each with its slice.
proof fn lemma_full_set(
    fs: Seq<Frame>,
    frames: Seq<Frame>,
    m: Seq<u8>,
    route_id: Seq<u8>,
    msg_type: u32,
    mtu: nat,
)
    requires
        is_chunking(frames, m, route_id, msg_type, mtu),
        route_id.len() == 16,
        mtu > FRAME_OVERHEAD,
        forall|i: int| 0 <= i < fs.len() ==> frames.contains(#[trigger] fs[i]),
        forall|j: int| 0 <= j < frames.len() ==> fs.contains(#[trigger] frames[j]),
    ensures
        offer_all(empty_view(), fs).received.dom() == numbers_below(frames.len()),
        forall|k: u32| #[trigger]
            offer_all(empty_view(), fs).received.contains_key(k) ==> offer_all(
                empty_view(),
                fs,
            ).received[k] == split_chunks(m, chunk_size_for(mtu))[k as int],
        offer_all(empty_view(), fs).total == Some(frames.len() as u32),
        complete(offer_all(empty_view(), fs)),
        missing(offer_all(empty_view(), fs)) == Seq::<u32>::empty(),
        assembles(offer_all(empty_view(), fs)),
        assembled(offer_all(empty_view(), fs)) == m,
{
    let parts = split_chunks(m, chunk_size_for(mtu));
    let n = frames.len();
    lemma_split_chunks(m, chunk_size_for(mtu));
    assert(is_frame_of(frames[0], parts[0], 0, n as int, route_id, msg_type));
    assert(fs.contains(frames[0]));
    assert(fs.len() > 0);
    lemma_offer_chunks(fs, frames, m, route_id, msg_type, mtu);
    let s = offer_all(empty_view(), fs);
    assert forall|k: u32| #[trigger] s.received.contains_key(k) <==> k < n by {
        if k < n {
            let j = k as int;
            assert(is_frame_of(frames[j], parts[j], j, n as int, route_id, msg_type));
            assert(fs.contains(frames[j]));
            let i = choose|i: int| 0 <= i < fs.len() && fs[i] == frames[j];
            assert(fs[i].seq_no == k);
        }
        if s.received.contains_key(k) {
            let i = choose|i: int| 0 <= i < fs.len() && fs[i].seq_no == k;
            assert(frames.contains(fs[i]));
            let j = choose|j: int| 0 <= j < frames.len() && frames[j] == fs[i];
            assert(is_frame_of(frames[j], parts[j], j, n as int, route_id, msg_type));
        }
    }
    assert(s.received.dom() =~= numbers_below(n));
    lemma_numbers_below(n);
    lemma_missing_none(s.received, n);
    assert forall|j: u32| j < n implies #[trigger] s.received[j] == parts[j as int] by {
        assert(s.received.contains_key(j));
    }
    lemma_joined(s.received, parts, n);
    assert(s.total->0 as nat == n);
}

proof fn lemma_same_frames(frames: Seq<Frame>)
    ensures
        forall|i: int| 0 <= i < frames.len() ==> frames.contains(#[trigger] frames[i]),
{
    assert forall|i: int| 0 <= i < frames.len() implies frames.contains(#[trigger] frames[i]) by {
    }
}

proof fn lemma_missing_none(received: Map<u32, Seq<u8>>, k: nat)
    requires
        present_below(received, k),
    ensures
        missing_below(received, k) == Seq::<u32>::empty(),
    decreases k,
{
    if k > 0 {
        assert(received.contains_key((k - 1) as u32));
        lemma_missing_none(received, (k - 1) as nat);
    }
}

proof fn lemma_joined(received: Map<u32, Seq<u8>>, parts: Seq<Seq<u8>>, k: nat)
    requires
        k <= parts.len(),
        k <= u32::MAX + 1,
        forall|j: u32| j < k ==> #[trigger] received[j] == parts[j as int],
    ensures
        joined_below(received, k) == concat_all(parts.take(k as int)),
        k == parts.len() ==> joined_below(received, k) == concat_all(parts),
    decreases k,
{
    if k == 0 {
        assert(parts.take(0) =~= Seq::<Seq<u8>>::empty());
    } else {
        let j = (k - 1) as u32;
        assert(received[j] == parts[j as int]);
        lemma_joined(received, parts, (k - 1) as nat);
        assert(parts.take(k as int).drop_last() =~= parts.take(k - 1));
    }
    if k == parts.len() {
        assert(parts.take(k as int) =~= parts);
    }
}

/// Round trip: the frames that chunking a message produces, offered in their
/// emission order to an empty assembler, complete it, leave nothing missing,
/// and assemble back to exactly that message.
pub proof fn lemma_round_trip(
    frames: Seq<Frame>,
    m: Seq<u8>,
    route_id: Seq<u8>,
    msg_type: u32,
    mtu: nat,
)
    requires
        is_chunking(frames, m, route_id, msg_type, mtu),
        route_id.len() == 16,
        mtu > FRAME_OVERHEAD,
    ensures
        complete(offer_all(empty_view(), frames)),
        missing(offer_all(empty_view(), frames)) == Seq::<u32>::empty(),
        assembles(offer_all(empty_view(), frames)),
        assembled(offer_all(empty_view(), frames)) == m,
{
    lemma_same_frames(frames);
    lemma_full_set(frames, frames, m, route_id, msg_type, mtu);
}

/// Order independence: offering the frames of a chunked message in any
/// order reaches the same state as offering them in emission order,
/// so the assembled message is the same: the message that was chunked.
pub proof fn lemma_order_independence(
    frames: Seq<Frame>,
    reordered: Seq<Frame>,
    m: Seq<u8>,
    route_id: Seq<u8>,
    msg_type: u32,
    mtu: nat,
)
    requires
        is_chunking(frames, m, route_id, msg_type, mtu),
        route_id.len() == 16,
        mtu > FRAME_OVERHEAD,
        reordered.to_multiset() == frames.to_multiset(),
    ensures
        offer_all(empty_view(), reordered) == offer_all(empty_view(), frames),
        assembles(offer_all(empty_view(), reordered)),
        assembled(offer_all(empty_view(), reordered)) == m,
{
    lemma_same_frames(frames);
    lemma_full_set(frames, frames, m, route_id, msg_type, mtu);
    reordered.to_multiset_ensures();
    frames.to_multiset_ensures();
    assert forall|i: int| 0 <= i < reordered.len() implies frames.contains(
        #[trigger] reordered[i],
    ) by {
        assert(reordered.contains(reordered[i]));
        assert(frames.to_multiset().count(reordered[i]) > 0);
    }
    assert forall|j: int| 0 <= j < frames.len() implies reordered.contains(
        #[trigger] frames[j],
    ) by {
        assert(frames.contains(frames[j]));
        assert(reordered.to_multiset().count(frames[j]) > 0);
    }
    lemma_full_set(reordered, frames, m, route_id, msg_type, mtu);
    let a = offer_all(empty_view(), reordered);
    let b = offer_all(empty_view(), frames);
    assert(a.received =~= b.received);
}

/// Corruption detection: a frame that differs from a sound one only in one
/// payload byte, where that change alters the checksum, is rejected and
/// leaves the assembler unchanged, so its sequence number stays unfilled.
pub proof fn lemma_corruption_detected(
    s: AssemblerView,
    sent: Frame,
    received: Frame,
    i: int,
    b: u8,
)
    requires
        sent.magic == FRAME_MAGIC,
        sent.crc32 == crc32_of(sent.payload@),
        0 <= i < sent.payload@.len(),
        received.payload@ == sent.payload@.update(i, b),
        received.crc32 == sent.crc32,
        received.magic == sent.magic,
        crc32_of(received.payload@) != crc32_of(sent.payload@),
    ensures
        !accepts(s, received),
        offer(s, received) == s,
        !s.received.contains_key(received.seq_no) ==> !offer(
            s,
            received,
        ).received.contains_key(received.seq_no),
{
}

/// Loss detection: offering every frame of a chunked message of two or
/// more frames but frame `k`, in any order and with repeats, leaves the
/// assembler incomplete, reports exactly `k` as missing, and makes `k` the
/// first gap, on which assembly fails.
pub proof fn lemma_loss_detection(
    frames: Seq<Frame>,
    delivered: Seq<Frame>,
    m: Seq<u8>,
    route_id: Seq<u8>,
    msg_type: u32,
    mtu: nat,
    k: int,
)
    requires
        is_chunking(frames, m, route_id, msg_type, mtu),
        route_id.len() == 16,
        mtu > FRAME_OVERHEAD,
        frames.len() >= 2,
        0 <= k < frames.len(),
        forall|i: int|
            0 <= i < delivered.len() ==> frames.contains(#[trigger] delivered[i])
                && delivered[i] != frames[k],
        forall|j: int| 0 <= j < frames.len() && j != k ==> delivered.contains(#[trigger] frames[j]),
    ensures
        !complete(offer_all(empty_view(), delivered)),
        missing(offer_all(empty_view(), delivered)) == seq![k as u32],
        gap_at(offer_all(empty_view(), delivered), k as u32),
        !assembles(offer_all(empty_view(), delivered)),
{
    let parts = split_chunks(m, chunk_size_for(mtu));
    let n = frames.len();
    let fs = delivered;
    lemma_split_chunks(m, chunk_size_for(mtu));
    assert(is_frame_of(frames[0], parts[0], 0, n as int, route_id, msg_type));
    let other = if k == 0 {
        1int
    } else {
        0int
    };
    assert(fs.contains(frames[other]));
    lemma_offer_chunks(fs, frames, m, route_id, msg_type, mtu);
    let s = offer_all(empty_view(), fs);
    assert forall|j: u32| #[trigger] s.received.contains_key(j) <==> (j < n && j != k) by {
        if j < n && j != k {
            let jj = j as int;
            assert(is_frame_of(frames[jj], parts[jj], jj, n as int, route_id, msg_type));
            assert(fs.contains(frames[jj]));
            let i = choose|i: int| 0 <= i < fs.len() && fs[i] == frames[jj];
            assert(fs[i].seq_no == j);
        }
        if s.received.contains_key(j) {
            let i = choose|i: int| 0 <= i < fs.len() && fs[i].seq_no == j;
            assert(frames.contains(fs[i]));
            let jj = choose|jj: int| 0 <= jj < frames.len() && frames[jj] == fs[i];
            assert(is_frame_of(frames[jj], parts[jj], jj, n as int, route_id, msg_type));
            assert(jj != k);
        }
    }
    lemma_numbers_below(n);
    assert(s.received.dom() =~= numbers_below(n).remove(k as u32));
    assert(numbers_below(n).contains(k as u32));
    assert(s.total->0 as nat == n);
    assert(!complete(s));
    lemma_missing_one(s.received, k as u32, n);
}

/// Corruption among the other frames: where every frame of a chunked message
/// but `k` has been offered, a copy of frame `k` with one payload byte
/// changed, where that change alters the checksum, is rejected, so the
/// assembler stays incomplete with exactly `k` missing.
pub proof fn lemma_corrupted_frame_not_stored(
    frames: Seq<Frame>,
    rest: Seq<Frame>,
    corrupted: Frame,
    m: Seq<u8>,
    route_id: Seq<u8>,
    msg_type: u32,
    mtu: nat,
    k: int,
    i: int,
    b: u8,
)
    requires
        is_chunking(frames, m, route_id, msg_type, mtu),
        route_id.len() == 16,
        mtu > FRAME_OVERHEAD,
        frames.len() >= 2,
        0 <= k < frames.len(),
        forall|x: int|
            0 <= x < rest.len() ==> frames.contains(#[trigger] rest[x]) && rest[x] != frames[k],
        forall|j: int| 0 <= j < frames.len() && j != k ==> rest.contains(#[trigger] frames[j]),
        0 <= i < frames[k].payload@.len(),
        corrupted.magic == frames[k].magic,
        corrupted.crc32 == frames[k].crc32,
        corrupted.payload@ == frames[k].payload@.update(i, b),
        crc32_of(corrupted.payload@) != crc32_of(frames[k].payload@),
    ensures
        offer_all(empty_view(), rest.push(corrupted)) == offer_all(empty_view(), rest),
        !complete(offer_all(empty_view(), rest.push(corrupted))),
        missing(offer_all(empty_view(), rest.push(corrupted))) == seq![k as u32],
{
    let parts = split_chunks(m, chunk_size_for(mtu));
    assert(is_frame_of(frames[k], parts[k], k, frames.len() as int, route_id, msg_type));
    let fs = rest.push(corrupted);
    assert(fs.drop_last() =~= rest);
    lemma_corruption_detected(offer_all(empty_view(), rest), frames[k], corrupted, i, b);
    lemma_loss_detection(frames, rest, m, route_id, msg_type, mtu, k);
}

proof fn lemma_missing_one(received: Map<u32, Seq<u8>>, k: u32, n: nat)
    requires
        k < n <= u32::MAX + 1,
        forall|j: u32| #[trigger] received.contains_key(j) <==> (j < n && j != k),
    ensures
        missing_below(received, n) == seq![k],
{
    lemma_missing_prefix(received, k, n);
}

proof fn lemma_missing_prefix(received: Map<u32, Seq<u8>>, k: u32, c: nat)
    requires
        c <= u32::MAX + 1,
        forall|j: u32| j < c ==> (#[trigger] received.contains_key(j) <==> j != k),
    ensures
        missing_below(received, c) == if c <= k {
            Seq::<u32>::empty()
        } else {
            seq![k]
        },
    decreases c,
{
    if c > 0 {
        lemma_missing_prefix(received, k, (c - 1) as nat);
        if c - 1 == k {
            assert(Seq::<u32>::empty().push(k) =~= seq![k]);
        }
    }
}

/// Idempotent re-delivery: offering the same frame a second time changes
/// nothing more than offering it once.
pub proof fn lemma_redelivery(s: AssemblerView, f: Frame)
    ensures
        offer(offer(s, f), f) == offer(s, f),
{
    if accepts(s, f) {
        let once = offer(s, f);
        assert(accepts(once, f));
        assert(once.received.insert(f.seq_no, f.payload@) =~= once.received);
    }
}

/// Idempotent re-delivery, anywhere in the stream: offering the frames of a
/// chunked message with any of them repeated, at any later point and in any
/// order, reaches the same state as offering each once in emission order,
/// and assembles to the same message.
pub proof fn lemma_redelivery_in_stream(
    frames: Seq<Frame>,
    delivered: Seq<Frame>,
    m: Seq<u8>,
    route_id: Seq<u8>,
    msg_type: u32,
    mtu: nat,
)
    requires
        is_chunking(frames, m, route_id, msg_type, mtu),
        route_id.len() == 16,
        mtu > FRAME_OVERHEAD,
        forall|i: int| 0 <= i < delivered.len() ==> frames.contains(#[trigger] delivered[i]),
        forall|j: int| 0 <= j < frames.len() ==> delivered.contains(#[trigger] frames[j]),
    ensures
        offer_all(empty_view(), delivered) == offer_all(empty_view(), frames),
        complete(offer_all(empty_view(), delivered)),
        assembles(offer_all(empty_view(), delivered)),
        assembled(offer_all(empty_view(), delivered)) == m,
{
    lemma_same_frames(frames);
    lemma_full_set(frames, frames, m, route_id, msg_type, mtu);
    lemma_full_set(delivered, frames, m, route_id, msg_type, mtu);
    let a = offer_all(empty_view(), delivered);
    let b = offer_all(empty_view(), frames);
    assert(a.received =~= b.received);
}

/// Reset reuse: `reset` returns an assembler to the empty state whatever it
/// held; from there it takes the frames of a new chunked message, in any
/// order and with repeats, anchors on that message's count and rebuilds it
/// exactly.
pub proof fn lemma_reset_reuse(
    frames: Seq<Frame>,
    delivered: Seq<Frame>,
    m: Seq<u8>,
    route_id: Seq<u8>,
    msg_type: u32,
    mtu: nat,
)
    requires
        is_chunking(frames, m, route_id, msg_type, mtu),
        route_id.len() == 16,
        mtu > FRAME_OVERHEAD,
        forall|i: int| 0 <= i < delivered.len() ==> frames.contains(#[trigger] delivered[i]),
        forall|j: int| 0 <= j < frames.len() ==> delivered.contains(#[trigger] frames[j]),
    ensures
        offer_all(empty_view(), delivered).total == Some(frames.len() as u32),
        assembles(offer_all(empty_view(), delivered)),
        assembled(offer_all(empty_view(), delivered)) == m,
{
    lemma_full_set(delivered, frames, m, route_id, msg_type, mtu);
}

/// The missing sequence numbers form a sorted set: strictly ascending and,
/// until the assembly is complete, exactly the numbers below the count that
/// have no payload.
pub proof fn lemma_missing_sorted(s: AssemblerView)
    ensures
        forall|i: int, j: int|
            0 <= i < j < missing(s).len() ==> missing(s)[i] < missing(s)[j],
        forall|k: u32|
            missing(s).contains(k) <==> (s.total is Some && !complete(s) && k < s.total->0
                && !s.received.contains_key(k)),
{
    if let Some(t) = s.total {
        lemma_missing_below_sorted(s.received, t as nat);
    }
}

proof fn lemma_missing_below_sorted(received: Map<u32, Seq<u8>>, c: nat)
    requires
        c <= u32::MAX + 1,
    ensures
        forall|i: int, j: int|
            0 <= i < j < missing_below(received, c).len() ==> missing_below(received, c)[i]
                < missing_below(received, c)[j],
        forall|i: int|
            0 <= i < missing_below(received, c).len() ==> missing_below(received, c)[i] < c,
        forall|k: u32|
            missing_below(received, c).contains(k) <==> (k < c && !received.contains_key(k)),
    decreases c,
{
    if c > 0 {
        let prev = (c - 1) as nat;
        lemma_missing_below_sorted(received, prev);
        let before = missing_below(received, prev);
        let last = prev as u32;
        if !received.contains_key(last) {
            let now = before.push(last);
            assert(missing_below(received, c) == now);
            assert forall|k: u32| now.contains(k) <==> (k < c && !received.contains_key(k)) by {
                if now.contains(k) {
                    let i = choose|i: int| 0 <= i < now.len() && now[i] == k;
                    if i < before.len() {
                        assert(before[i] == k);
                        assert(before.contains(k));
                    }
                }
                if k < c && !received.contains_key(k) {
                    if k == last {
                        assert(now[before.len() as int] == k);
                    } else {
                        assert(before.contains(k));
                        let i = choose|i: int| 0 <= i < before.len() && before[i] == k;
                        assert(now[i] == k);
                    }
                }
            }
        }
    }
}

} // verus!
