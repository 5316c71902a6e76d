//! Receive-side reassembly: classifies each inbound datagram, accumulates
//! chunk bodies in a private scratch buffer, and hands every completed
//! envelope to the receive buffer. A datagram without the sentinel prefix
//! is a whole envelope on its own; a malformed one is reported and
//! dropped, and never stops the receive loop.

use crate::ReceiveEntry;
use crate::buffer::ReceiveBuffer;
use crate::codec::MalformedEnvelope;
use crate::codec::is_chunk_header;
use crate::codec::is_final_chunk;
use crate::codec::parse_envelope;
use crate::codec::push_range;
use crate::codec::spec_chunks;
use crate::codec::spec_envelope;
use crate::codec::spec_frame;
use crate::codec::spec_is_chunk_header;
use crate::codec::spec_is_final_chunk;
use crate::codec::spec_parse_envelope;
use crate::codec::lemma_envelope_round_trip;
use vstd::prelude::*;

verus! {

/// A datagram's body once the four sentinel bytes are stripped; what
/// remains of a degenerate shorter datagram is empty.
pub open spec fn strip_header(d: Seq<u8>) -> Seq<u8> {
    if d.len() >= 4 {
        d.skip(4)
    } else {
        Seq::empty()
    }
}

/// The scratch contents after one datagram: a continuation chunk extends
/// it, a final chunk clears it, anything else leaves it alone.
pub open spec fn spec_scratch_after(scratch: Seq<u8>, d: Seq<u8>) -> Seq<u8> {
    if spec_is_chunk_header(d) {
        if spec_is_final_chunk(d) {
            Seq::empty()
        } else {
            scratch + strip_header(d)
        }
    } else {
        scratch
    }
}

/// The buffer an envelope parse is attempted on after one datagram, if
/// any: the assembled scratch on a final chunk, the datagram itself when
/// it carries no sentinel, nothing while a continuation is pending.
pub open spec fn spec_completed(scratch: Seq<u8>, d: Seq<u8>) -> Option<Seq<u8>> {
    if spec_is_chunk_header(d) {
        if spec_is_final_chunk(d) {
            Some(scratch + strip_header(d))
        } else {
            None
        }
    } else {
        Some(d)
    }
}

/// Per-connection reassembly state: the chunk scratch buffer.
pub struct Reassembler {
    scratch: Vec<u8>,
}

impl Reassembler {
    /// The bytes of the partially reassembled envelope.
    pub closed spec fn scratch_view(&self) -> Seq<u8> {
        self.scratch@
    }

    pub fn new() -> (r: Reassembler)
        ensures
            r.scratch_view() == Seq::<u8>::empty(),
    {
        Reassembler { scratch: Vec::new() }
    }

    /// Handles one received datagram: extends or completes the scratch on
    /// a chunk, parses a completed or standalone envelope, and appends the
    /// entry to the receive buffer. `Ok(signal)` carries the buffer's
    /// wake-up signal; a buffer too short for a timestamp is rejected and
    /// nothing is appended.
    pub fn receive_packet(&mut self, datagram: &[u8], buffer: &mut ReceiveBuffer) -> (r: Result<
        bool,
        MalformedEnvelope,
    >)
        ensures
            final(self).scratch_view() == spec_scratch_after(old(self).scratch_view(), datagram@),
            final(buffer).spec_threshold() == old(buffer).spec_threshold(),
            ({
                let completed = spec_completed(old(self).scratch_view(), datagram@);
                let before = old(buffer).entries_view();
                let after = final(buffer).entries_view();
                let woken = after.len() > old(buffer).spec_threshold();
                match completed {
                    Option::None => after == before && (r matches Ok(s) && s == false),
                    Option::Some(bytes) => match spec_parse_envelope(bytes) {
                        Option::Some(entry) => after == before.push(entry) && (r matches Ok(s)
                            && s == woken),
                        Option::None => after == before && r is Err,
                    },
                }
            }),
    {
        if is_chunk_header(datagram) {
            if datagram.len() >= 4 {
                push_range(&mut self.scratch, datagram, 4, datagram.len());
                proof {
                    assert(datagram@.subrange(4, datagram@.len() as int) =~= strip_header(
                        datagram@,
                    ));
                }
            } else {
                proof {
                    assert(old(self).scratch_view() + strip_header(datagram@) =~= old(
                        self,
                    ).scratch_view());
                }
            }
            if is_final_chunk(datagram) {
                let parsed = parse_envelope(self.scratch.as_slice());
                self.scratch = Vec::new();
                match parsed {
                    Ok((timestamp, payload)) => {
                        let signal = buffer.push(ReceiveEntry { timestamp, payload });
                        Ok(signal)
                    },
                    Err(e) => Err(e),
                }
            } else {
                Ok(false)
            }
        } else {
            match parse_envelope(datagram) {
                Ok((timestamp, payload)) => {
                    let signal = buffer.push(ReceiveEntry { timestamp, payload });
                    Ok(signal)
                },
                Err(e) => Err(e),
            }
        }
    }
}

/// Scratch and delivered entries after feeding `frames` to a reassembler
/// in order, starting from `scratch`.
pub open spec fn spec_feed(scratch: Seq<u8>, frames: Seq<Seq<u8>>) -> (Seq<u8>, Seq<
    (u128, Seq<u8>),
>)
    decreases frames.len(),
{
    if frames.len() == 0 {
        (scratch, Seq::empty())
    } else {
        let after = spec_scratch_after(scratch, frames[0]);
        let delivered = match spec_completed(scratch, frames[0]) {
            Option::Some(bytes) => match spec_parse_envelope(bytes) {
                Option::Some(entry) => seq![entry],
                Option::None => Seq::empty(),
            },
            Option::None => Seq::empty(),
        };
        let rest = spec_feed(after, frames.drop_first());
        (rest.0, delivered + rest.1)
    }
}

/// Feeding the chunks of a fragmented envelope empties the scratch and
/// delivers exactly what a parse of scratch-plus-envelope yields.
proof fn lemma_feed_chunks(scratch: Seq<u8>, env: Seq<u8>, max: nat)
    requires
        max >= 1,
    ensures
        spec_feed(scratch, spec_chunks(env, max)).0 == Seq::<u8>::empty(),
        spec_feed(scratch, spec_chunks(env, max)).1 == match spec_parse_envelope(scratch + env) {
            Option::Some(entry) => seq![entry],
            Option::None => Seq::<(u128, Seq<u8>)>::empty(),
        },
    decreases env.len(),
{
    let cs = spec_chunks(env, max);
    if env.len() > max {
        let c0 = cs[0];
        assert(c0 == crate::codec::cont_header() + env.take(max as int));
        assert(spec_is_chunk_header(c0));
        assert(c0[3] == 0x0F);
        assert(!spec_is_final_chunk(c0));
        assert(strip_header(c0) =~= env.take(max as int));
        assert(cs.drop_first() =~= spec_chunks(env.skip(max as int), max));
        lemma_feed_chunks(scratch + env.take(max as int), env.skip(max as int), max);
        assert((scratch + env.take(max as int)) + env.skip(max as int) =~= scratch + env);
        assert(spec_feed(scratch, cs).1 =~= spec_feed(
            scratch + env.take(max as int),
            cs.drop_first(),
        ).1);
    } else {
        let c = crate::codec::final_header() + env;
        assert(cs == seq![c]);
        assert(spec_is_chunk_header(c));
        assert(c[3] == 0xFF);
        assert(spec_is_final_chunk(c));
        assert(strip_header(c) =~= env);
        assert(cs.drop_first() =~= Seq::<Seq<u8>>::empty());
        assert(spec_feed(Seq::<u8>::empty(), Seq::<Seq<u8>>::empty()).1 =~= Seq::<
            (u128, Seq<u8>),
        >::empty());
        assert(spec_feed(scratch, cs).1 =~= spec_feed(scratch, cs).1 + Seq::<
            (u128, Seq<u8>),
        >::empty());
    }
}

/// Law: for any timestamp, payload and datagram limit, framing and then
/// feeding every produced buffer, in order, to a reassembler with an empty
/// scratch delivers exactly the one entry (timestamp, payload) and leaves
/// the scratch empty. A standalone envelope whose first bytes collide with
/// the sentinel prefix is excluded: the protocol cannot tell it from a
/// chunk, an accepted ambiguity of the framing.
pub proof fn lemma_frame_reassemble_round_trip(t: u128, payload: Seq<u8>, max: nat)
    requires
        max >= 1,
        16 + payload.len() <= max ==> !spec_is_chunk_header(spec_envelope(t, payload)),
    ensures
        spec_feed(Seq::empty(), spec_frame(t, payload, max)).0 == Seq::<u8>::empty(),
        spec_feed(Seq::empty(), spec_frame(t, payload, max)).1 == seq![(t, payload)],
{
    let env = spec_envelope(t, payload);
    lemma_envelope_round_trip(t, payload);
    if 16 + payload.len() <= max {
        let frames = spec_frame(t, payload, max);
        assert(frames == seq![env]);
        assert(frames[0] == env);
        assert(!spec_is_chunk_header(env));
        let after = spec_scratch_after(Seq::empty(), env);
        assert(after =~= Seq::<u8>::empty());
        assert(frames.drop_first() =~= Seq::<Seq<u8>>::empty());
        assert(spec_feed(after, frames.drop_first()).0 == after);
        assert(spec_feed(after, frames.drop_first()).1 == Seq::<(u128, Seq<u8>)>::empty());
        assert(spec_completed(Seq::empty(), env) == Option::Some(env));
        assert(spec_parse_envelope(env) == Option::Some((t, payload)));
        assert(spec_feed(Seq::empty(), frames).1 == seq![(t, payload)] + Seq::<
            (u128, Seq<u8>),
        >::empty());
        assert(seq![(t, payload)] + Seq::<(u128, Seq<u8>)>::empty() =~= seq![(t, payload)]);
    } else {
        lemma_feed_chunks(Seq::empty(), env, max);
        assert(Seq::<u8>::empty() + env =~= env);
        assert(spec_feed(Seq::empty(), spec_frame(t, payload, max)).1 =~= seq![(t, payload)]);
    }
}

} // verus!
