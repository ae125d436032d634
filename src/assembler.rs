//! Rebuilding a message from frames that arrive in any order.

use vstd::prelude::*;
use vstd::slice::slice_to_vec;
use std::collections::HashMap;
use crate::checksum::{calculate_crc32, crc32_of};
use crate::frame::{DeviceError, Frame, FRAME_MAGIC};

verus! {

broadcast use vstd::std_specs::hash::group_hash_axioms;

/// What an assembler holds: the payload received for each sequence number,
/// and the sequence count of the message, learned from the first accepted
/// frame (`None` until then).
pub struct AssemblerView {
    pub received: Map<u32, Seq<u8>>,
    pub total: Option<u32>,
}

/// The state of an assembler that holds nothing.
pub open spec fn empty_view() -> AssemblerView {
    AssemblerView { received: Map::empty(), total: None }
}

/// `f` passes the checks of `add_frame` in state `s`: right magic, payload
/// matching its checksum, and, where `f` would anchor the assembly, a route
/// id of 16 bytes.
pub open spec fn accepts(s: AssemblerView, f: Frame) -> bool {
    &&& f.magic == FRAME_MAGIC
    &&& crc32_of(f.payload@) == f.crc32
    &&& (s.total is Some || f.route_id@.len() == 16)
}

/// The state after `f` is offered in state `s`: an accepted frame stores its
/// payload under its sequence number (replacing any earlier one) and, as the
/// first, fixes the sequence count; a rejected one changes nothing.
pub open spec fn offer(s: AssemblerView, f: Frame) -> AssemblerView {
    if accepts(s, f) {
        AssemblerView {
            received: s.received.insert(f.seq_no, f.payload@),
            total: if s.total is Some {
                s.total
            } else {
                Some(f.total_seqs)
            },
        }
    } else {
        s
    }
}

/// The state after the frames `fs` are offered one by one, from `s`.
pub open spec fn offer_all(s: AssemblerView, fs: Seq<Frame>) -> AssemblerView
    decreases fs.len(),
{
    if fs.len() == 0 {
        s
    } else {
        offer(offer_all(s, fs.drop_last()), fs.last())
    }
}

/// The sequence count is known and as many distinct sequence numbers are held.
pub open spec fn complete(s: AssemblerView) -> bool {
    &&& s.total is Some
    &&& s.received.len() == s.total->0 as nat
}

/// The numbers below `k` that have no payload, in ascending order.
pub open spec fn missing_below(received: Map<u32, Seq<u8>>, k: nat) -> Seq<u32>
    decreases k,
{
    if k == 0 {
        Seq::empty()
    } else {
        let before = missing_below(received, (k - 1) as nat);
        if received.contains_key((k - 1) as u32) {
            before
        } else {
            before.push((k - 1) as u32)
        }
    }
}

/// The sequence numbers of the message that have not been received; empty
/// while no frame has been accepted and once the assembly is complete.
pub open spec fn missing(s: AssemblerView) -> Seq<u32> {
    if complete(s) {
        Seq::empty()
    } else {
        match s.total {
            Some(t) => missing_below(s.received, t as nat),
            None => Seq::empty(),
        }
    }
}

/// Every number below `k` has a payload.
pub open spec fn present_below(received: Map<u32, Seq<u8>>, k: nat) -> bool {
    forall|j: u32| j < k ==> #[trigger] received.contains_key(j)
}

/// The payloads numbered below `k`, concatenated in ascending order.
pub open spec fn joined_below(received: Map<u32, Seq<u8>>, k: nat) -> Seq<u8>
    decreases k,
{
    if k == 0 {
        Seq::empty()
    } else {
        joined_below(received, (k - 1) as nat) + received[(k - 1) as u32]
    }
}

/// `k` is the first sequence number below the count that has no payload.
pub open spec fn gap_at(s: AssemblerView, k: u32) -> bool {
    &&& s.total is Some
    &&& k < s.total->0
    &&& !s.received.contains_key(k)
    &&& present_below(s.received, k as nat)
}

/// The message that `assemble` rebuilds in state `s`, where it succeeds.
pub open spec fn assembled(s: AssemblerView) -> Seq<u8> {
    joined_below(s.received, s.total->0 as nat)
}

/// `assemble` succeeds in state `s`: complete, with no gap below the count.
pub open spec fn assembles(s: AssemblerView) -> bool {
    complete(s) && present_below(s.received, s.total->0 as nat)
}

/// Accumulates the frames of one logical message and rebuilds it once every
/// sequence number is held. The route id and the sequence count are learned
/// together from the first accepted frame; the count marks the anchor.
pub struct FrameAssembler {
    frames: HashMap<u32, Vec<u8>>,
    total_seqs: Option<u32>,
    route_id: Option<uuid::Uuid>,
}

impl View for FrameAssembler {
    type V = AssemblerView;

    closed spec fn view(&self) -> AssemblerView {
        AssemblerView {
            received: self.frames@.map_values(|v: Vec<u8>| v@),
            total: self.total_seqs,
        }
    }
}

/// Relies on `Uuid::from_slice`: succeeds exactly on 16 bytes.
pub assume_specification[ uuid::Uuid::from_slice ](b: &[u8]) -> (r: Result<
    uuid::Uuid,
    uuid::Error,
>)
    ensures
        r is Ok <==> b@.len() == 16,
;

/// Relies on `format!`: the text of the error for a frame with a bad magic.
#[verifier::external_body]
fn bad_magic_text(magic: u32) -> String {
    format!("Invalid magic: {:08x}", magic)
}

impl FrameAssembler {
    /// An assembler that holds nothing.
    pub fn new() -> (r: Self)
        ensures
            r@ == empty_view(),
    {
        let r = FrameAssembler { frames: HashMap::new(), total_seqs: None, route_id: None };
        assert(r@.received =~= Map::<u32, Seq<u8>>::empty());
        r
    }

    /// Validates `frame` and, if it passes, stores its payload under its
    /// sequence number. A rejected frame leaves the assembler as it was.
    pub fn add_frame(&mut self, frame: Frame) -> (r: Result<(), DeviceError>)
        ensures
            final(self)@ == offer(old(self)@, frame),
            r is Ok <==> accepts(old(self)@, frame),
            frame.magic != FRAME_MAGIC ==> r matches Err(DeviceError::InvalidFrame(_)),
            frame.magic == FRAME_MAGIC && crc32_of(frame.payload@) != frame.crc32 ==> r
                == Err::<(), DeviceError>(
                DeviceError::CrcMismatch {
                    expected: frame.crc32,
                    actual: crc32_of(frame.payload@),
                },
            ),
            frame.magic == FRAME_MAGIC && crc32_of(frame.payload@) == frame.crc32
                && old(self)@.total is None && frame.route_id@.len() != 16 ==> r matches Err(
                DeviceError::InvalidFrame(_),
            ),
    {
        if frame.magic != FRAME_MAGIC {
            return Err(DeviceError::InvalidFrame(bad_magic_text(frame.magic)));
        }
        let calculated_crc = calculate_crc32(frame.payload.as_slice());
        if calculated_crc != frame.crc32 {
            return Err(DeviceError::CrcMismatch { expected: frame.crc32, actual: calculated_crc });
        }
        if self.total_seqs.is_none() {
            match uuid::Uuid::from_slice(frame.route_id.as_slice()) {
                Ok(id) => {
                    self.route_id = Some(id);
                    self.total_seqs = Some(frame.total_seqs);
                },
                Err(e) => {
                    return Err(DeviceError::InvalidFrame(e.to_string()));
                },
            }
        }
        let ghost before = self.frames@;
        let ghost payload = frame.payload@;
        let seq_no = frame.seq_no;
        self.frames.insert(seq_no, frame.payload);
        proof {
            assert(self.frames@.map_values(|v: Vec<u8>| v@) =~= before.map_values(
                |v: Vec<u8>| v@,
            ).insert(seq_no, payload));
        }
        Ok(())
    }

    /// Whether every sequence number of the message is held.
    pub fn is_complete(&self) -> (r: bool)
        ensures
            r == complete(self@),
    {
        match self.total_seqs {
            Some(total) => {
                proof {
                    assert(self.frames@.map_values(|v: Vec<u8>| v@).dom() =~= self.frames@.dom());
                }
                self.frames.len() == total as usize
            },
            None => false,
        }
    }

    /// The sequence numbers of the message that have not been received, in
    /// ascending order; empty while no frame has been accepted and once the
    /// assembly is complete.
    pub fn missing_sequences(&self) -> (r: Vec<u32>)
        ensures
            r@ == missing(self@),
    {
        let mut result: Vec<u32> = Vec::new();
        if self.is_complete() {
            return result;
        }
        match self.total_seqs {
            Some(total) => {
                let ghost received = self@.received;
                let mut seq: u32 = 0;
                while seq < total
                    invariant
                        seq <= total,
                        received == self@.received,
                        !complete(self@),
                        result@ == missing_below(received, seq as nat),
                    decreases total - seq,
                {
                    if !self.frames.contains_key(&seq) {
                        result.push(seq);
                    }
                    seq = seq + 1;
                }
            },
            None => {},
        }
        result
    }

    /// Concatenates the held payloads in ascending sequence order. Fails with
    /// the first missing sequence number (0 while nothing is held), or with
    /// `InvalidFrame` where no number below the count is missing but payloads
    /// beyond it are held as well.
    pub fn assemble(&self) -> (r: Result<Vec<u8>, DeviceError>)
        ensures
            r is Ok <==> assembles(self@),
            r is Ok ==> r->Ok_0@ == assembled(self@),
            self@.total is None ==> r == Err::<Vec<u8>, DeviceError>(
                DeviceError::MissingSequence(0),
            ),
            forall|k: u32|
                #[trigger] gap_at(self@, k) ==> r == Err::<
                    Vec<u8>,
                    DeviceError,
                >(DeviceError::MissingSequence(k)),
            self@.total is Some && present_below(self@.received, self@.total->0 as nat)
                && !complete(self@) ==> r matches Err(DeviceError::InvalidFrame(_)),
    {
        let total = match self.total_seqs {
            Some(t) => t,
            None => {
                return Err(DeviceError::MissingSequence(0));
            },
        };
        let ghost received = self@.received;
        let mut result: Vec<u8> = Vec::new();
        let mut seq: u32 = 0;
        while seq < total
            invariant
                seq <= total,
                self@.total == Some(total),
                received == self@.received,
                present_below(received, seq as nat),
                result@ == joined_below(received, seq as nat),
            decreases total - seq,
        {
            match self.frames.get(&seq) {
                Some(payload) => {
                    let mut part = slice_to_vec(payload.as_slice());
                    result.append(&mut part);
                },
                None => {
                    proof {
                        assert(!self.frames@.contains_key(seq));
                        assert(received.dom() =~= self.frames@.dom());
                        assert(!received.contains_key(seq));
                        assert forall|k: u32|
                            k < total && !received.contains_key(k) && present_below(
                                received,
                                k as nat,
                            ) implies k == seq by {
                            if k < seq {
                            } else if k > seq {
                                assert(received.contains_key(seq));
                            }
                        }
                    }
                    return Err(DeviceError::MissingSequence(seq));
                },
            }
            seq = seq + 1;
        }
        if self.frames.len() != total as usize {
            proof {
                assert(self.frames@.map_values(|v: Vec<u8>| v@).dom() =~= self.frames@.dom());
            }
            return Err(DeviceError::InvalidFrame("frames beyond the sequence count".to_string()));
        }
        proof {
            assert(self.frames@.map_values(|v: Vec<u8>| v@).dom() =~= self.frames@.dom());
        }
        Ok(result)
    }

    /// Clears everything held, so that the assembler can take the frames of
    /// a new message.
    pub fn reset(&mut self)
        ensures
            final(self)@ == empty_view(),
    {
        self.frames.clear();
        self.total_seqs = None;
        self.route_id = None;
        assert(self@.received =~= Map::<u32, Seq<u8>>::empty());
    }
}

impl Default for FrameAssembler {
    fn default() -> (r: Self)
        ensures
            r@ == empty_view(),
    {
        Self::new()
    }
}

} // verus!
