//! Decode/render driver decisions. Once per UI tick the driver pops the
//! sorted queue from the front: an entry tagged as an access-unit
//! delimiter is discarded without touching the decoder and the tick's
//! consumption stops; any other entry goes to the decoder, and a
//! displayable frame stops the tick while a failure or an empty decode
//! moves on to the next entry. The decoder itself is an external
//! collaborator; these functions decide, it only reports.

use crate::ReceiveEntry;
use crate::sorter::SortedQueue;
use vstd::prelude::*;

verus! {

/// Payload tag reserved for an access-unit delimiter.
pub const ACCESS_UNIT_DELIMITER_TAG: u8 = 9;

/// The unit type a payload carries: the low five bits of its fifth byte;
/// nothing when the payload is too short to carry one.
pub open spec fn spec_payload_tag(p: Seq<u8>) -> Option<u8> {
    if p.len() >= 5 {
        Some((p[4] & 0x1F) as u8)
    } else {
        None
    }
}

/// True of a payload tagged as an access-unit delimiter.
pub open spec fn spec_is_delimiter(p: Seq<u8>) -> bool {
    spec_payload_tag(p) == Some(ACCESS_UNIT_DELIMITER_TAG)
}

/// The unit type of `payload`, when it is long enough to carry one.
pub fn payload_tag(payload: &[u8]) -> (r: Option<u8>)
    ensures
        r == spec_payload_tag(payload@),
{
    if payload.len() >= 5 {
        Some(payload[4] & 0x1F)
    } else {
        None
    }
}

/// True iff `payload` is an access-unit delimiter, to be discarded rather
/// than decoded.
pub fn is_access_unit_delimiter(payload: &[u8]) -> (r: bool)
    ensures
        r == spec_is_delimiter(payload@),
{
    match payload_tag(payload) {
        Some(tag) => tag == ACCESS_UNIT_DELIMITER_TAG,
        None => false,
    }
}

/// What the driver does with the entry at the front of the queue.
#[derive(Clone, Copy, PartialEq, Eq, Structural, Debug)]
pub enum EntryAction {
    /// Discard the entry without invoking the decoder and stop this tick.
    Discard,
    /// Hand the payload to the decoder.
    Decode,
}

/// What the external decoder reported for one payload.
#[derive(Clone, Copy, PartialEq, Eq, Structural, Debug)]
pub enum DecodeOutcome {
    /// A displayable frame is ready.
    FrameReady,
    /// The payload was accepted but no frame is ready yet.
    NoFrame,
    /// The decode failed; the payload is dropped and never retried.
    Failed,
}

/// Whether the tick keeps consuming the queue after a decode attempt.
#[derive(Clone, Copy, PartialEq, Eq, Structural, Debug)]
pub enum TickFlow {
    /// The frame was rendered; consumption stops for this tick.
    Stop,
    /// No frame came out; move on to the next queue entry.
    Continue,
}

/// Pops the next entry for one driver tick, together with the decision on
/// it: a delimiter is to be discarded and ends the tick, anything else
/// goes to the decoder. Nothing is popped from an empty queue.
pub fn next_tick_entry(queue: &mut SortedQueue) -> (r: Option<(ReceiveEntry, EntryAction)>)
    ensures
        old(queue).entries_view().len() == 0 ==> r is None && final(queue).entries_view() == old(
            queue,
        ).entries_view(),
        old(queue).entries_view().len() > 0 ==> final(queue).entries_view() == old(
            queue,
        ).entries_view().drop_first() && (r matches Some(pair) && pair.0@ == old(
            queue,
        ).entries_view()[0] && pair.1 == (if spec_is_delimiter(old(queue).entries_view()[0].1) {
            EntryAction::Discard
        } else {
            EntryAction::Decode
        })),
{
    match queue.pop_front() {
        Some(entry) => {
            let action = if is_access_unit_delimiter(entry.payload.as_slice()) {
                EntryAction::Discard
            } else {
                EntryAction::Decode
            };
            Some((entry, action))
        },
        None => None,
    }
}

/// Whether the tick goes on after a decode attempt: a displayable frame
/// stops it, anything else moves on to the next entry.
pub fn after_decode(outcome: DecodeOutcome) -> (r: TickFlow)
    ensures
        r == (if outcome is FrameReady {
            TickFlow::Stop
        } else {
            TickFlow::Continue
        }),
{
    match outcome {
        DecodeOutcome::FrameReady => TickFlow::Stop,
        DecodeOutcome::NoFrame => TickFlow::Continue,
        DecodeOutcome::Failed => TickFlow::Continue,
    }
}

/// How many bytes of a decoded image are written to the render surface:
/// the smaller of the surface's and the image's length, so the copy never
/// overruns either.
pub fn copy_len(surface_len: usize, rgba_len: usize) -> (r: usize)
    ensures
        r == (if surface_len <= rgba_len {
            surface_len
        } else {
            rgba_len
        }),
{
    if surface_len <= rgba_len {
        surface_len
    } else {
        rgba_len
    }
}

} // verus!
