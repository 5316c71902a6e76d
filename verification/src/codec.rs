//! Wire codec: stateless framing and parsing of envelopes.
//!
//! An envelope is a 16-byte big-endian timestamp followed by an opaque
//! payload. An envelope that fits in one datagram travels unmodified; a
//! larger one is split into chunks of exactly the maximum datagram size,
//! each prefixed by a four-byte sentinel header, the last chunk carrying
//! the remainder under the final sentinel.

use vstd::prelude::*;

verus! {

/// Error for a buffer too short to hold the timestamp prefix.
pub struct MalformedEnvelope;

/// Number of bytes of the serialized timestamp at the head of an envelope.
pub const TIMESTAMP_BYTES: usize = 16;

/// Big-endian serialization of a timestamp.
pub open spec fn spec_ts_to_be(t: u128) -> Seq<u8> {
    vstd::bytes::spec_u128_to_le_bytes(t).reverse()
}

/// Timestamp read back from 16 big-endian bytes.
pub open spec fn spec_ts_from_be(s: Seq<u8>) -> u128
    recommends
        s.len() == 16,
{
    vstd::bytes::spec_u128_from_le_bytes(s.reverse())
}

pub proof fn lemma_ts_be_round_trip(t: u128)
    ensures
        spec_ts_to_be(t).len() == 16,
        spec_ts_from_be(spec_ts_to_be(t)) == t,
{
    vstd::bytes::lemma_auto_spec_u128_to_from_le_bytes();
    let le = vstd::bytes::spec_u128_to_le_bytes(t);
    assert(le.reverse().reverse() =~= le);
}

/// Serialize a timestamp as 16 big-endian bytes.
pub fn timestamp_to_be_bytes(t: u128) -> (r: Vec<u8>)
    ensures
        r@ == spec_ts_to_be(t),
        r@.len() == 16,
{
    let le = vstd::bytes::u128_to_le_bytes(t);
    let mut out: Vec<u8> = Vec::new();
    let mut i: usize = 0;
    while i < 16
        invariant
            le@ == vstd::bytes::spec_u128_to_le_bytes(t),
            le@.len() == 16,
            i <= 16,
            out@.len() == i,
            forall|j: int| 0 <= j < i ==> out@[j] == le@[15 - j],
        decreases 16 - i,
    {
        let b = le[15 - i];
        out.push(b);
        i += 1;
    }
    proof {
        vstd::bytes::lemma_auto_spec_u128_to_from_le_bytes();
        assert(out@ =~= le@.reverse());
    }
    out
}

/// Read a timestamp out of the first 16 bytes of a buffer.
pub fn timestamp_from_be_bytes(buffer: &[u8]) -> (r: u128)
    requires
        buffer@.len() >= 16,
    ensures
        r == spec_ts_from_be(buffer@.take(16)),
{
    let mut le: Vec<u8> = Vec::new();
    let mut i: usize = 0;
    while i < 16
        invariant
            buffer@.len() >= 16,
            i <= 16,
            le@.len() == i,
            forall|j: int| 0 <= j < i ==> le@[j] == buffer@[15 - j],
        decreases 16 - i,
    {
        let b = buffer[15 - i];
        le.push(b);
        i += 1;
    }
    proof {
        assert(le@ =~= buffer@.take(16).reverse());
    }
    vstd::bytes::u128_from_le_bytes(le.as_slice())
}

/// Sentinel prefix of a continuation chunk.
pub open spec fn cont_header() -> Seq<u8> {
    seq![0x01u8, 0x01u8, 0x01u8, 0x0Fu8]
}

/// Sentinel prefix of the final chunk of a fragmented envelope.
pub open spec fn final_header() -> Seq<u8> {
    seq![0x01u8, 0x01u8, 0x01u8, 0xFFu8]
}

/// Serialized envelope: big-endian timestamp followed by the payload.
pub open spec fn spec_envelope(t: u128, payload: Seq<u8>) -> Seq<u8> {
    spec_ts_to_be(t) + payload
}

/// The chunks an oversized envelope is split into: full-sized slices under
/// the continuation sentinel, then whatever remains under the final one.
pub open spec fn spec_chunks(env: Seq<u8>, max: nat) -> Seq<Seq<u8>>
    recommends
        max >= 1,
    decreases env.len(),
{
    if max >= 1 && env.len() > max {
        seq![cont_header() + env.take(max as int)] + spec_chunks(env.skip(max as int), max)
    } else {
        seq![final_header() + env]
    }
}

/// The datagrams `frame` emits: the bare envelope when it fits, its chunks
/// otherwise.
pub open spec fn spec_frame(t: u128, payload: Seq<u8>, max: nat) -> Seq<Seq<u8>> {
    if 16 + payload.len() <= max {
        seq![spec_envelope(t, payload)]
    } else {
        spec_chunks(spec_envelope(t, payload), max)
    }
}

/// True of a datagram whose first three bytes are the sentinel prefix.
pub open spec fn spec_is_chunk_header(d: Seq<u8>) -> bool {
    d.len() >= 3 && d[0] == 0x01 && d[1] == 0x01 && d[2] == 0x01
}

/// True of a datagram whose fourth byte marks the final chunk.
pub open spec fn spec_is_final_chunk(d: Seq<u8>) -> bool {
    d.len() >= 4 && d[3] == 0xFF
}

/// The envelope read back from a buffer, or nothing when the buffer cannot
/// hold a timestamp.
pub open spec fn spec_parse_envelope(buffer: Seq<u8>) -> Option<(u128, Seq<u8>)> {
    if buffer.len() >= 16 {
        Some((spec_ts_from_be(buffer.take(16)), buffer.skip(16)))
    } else {
        None
    }
}

/// True iff the first three bytes of `datagram` equal the sentinel prefix.
pub fn is_chunk_header(datagram: &[u8]) -> (r: bool)
    ensures
        r == spec_is_chunk_header(datagram@),
{
    datagram.len() >= 3 && datagram[0] == 0x01 && datagram[1] == 0x01 && datagram[2] == 0x01
}

/// True iff the fourth byte of `datagram` is the final-chunk mark; only
/// meaningful on a datagram that `is_chunk_header` accepts.
pub fn is_final_chunk(datagram: &[u8]) -> (r: bool)
    ensures
        r == spec_is_final_chunk(datagram@),
{
    datagram.len() >= 4 && datagram[3] == 0xFF
}

/// Splits a buffer into big-endian timestamp and payload; rejects one too
/// short to hold the timestamp instead of reading out of bounds.
pub fn parse_envelope(buffer: &[u8]) -> (r: Result<(u128, Vec<u8>), MalformedEnvelope>)
    ensures
        r is Ok <==> buffer@.len() >= 16,
        r matches Ok(entry) ==> entry.0 == spec_ts_from_be(buffer@.take(16)) && entry.1@
            == buffer@.skip(16),
{
    if buffer.len() < TIMESTAMP_BYTES {
        return Err(MalformedEnvelope);
    }
    let timestamp = timestamp_from_be_bytes(buffer);
    let mut payload: Vec<u8> = Vec::new();
    let mut i: usize = 16;
    let n = buffer.len();
    while i < n
        invariant
            16 <= i <= n,
            n == buffer@.len(),
            payload@ == buffer@.subrange(16, i as int),
        decreases n - i,
    {
        let b = buffer[i];
        payload.push(b);
        proof {
            assert(payload@ =~= buffer@.subrange(16, i + 1));
        }
        i += 1;
    }
    proof {
        assert(payload@ =~= buffer@.skip(16));
    }
    Ok((timestamp, payload))
}

/// Appends `src[start..end]` to `dst`.
pub fn push_range(dst: &mut Vec<u8>, src: &[u8], start: usize, end: usize)
    requires
        start <= end <= src@.len(),
    ensures
        final(dst)@ == old(dst)@ + src@.subrange(start as int, end as int),
{
    let mut i: usize = start;
    while i < end
        invariant
            start <= i <= end <= src@.len(),
            dst@ == old(dst)@ + src@.subrange(start as int, i as int),
        decreases end - i,
    {
        let b = src[i];
        dst.push(b);
        proof {
            assert(old(dst)@ + src@.subrange(start as int, i + 1) =~= (old(dst)@ + src@.subrange(
                start as int,
                i as int,
            )).push(src@[i as int]));
        }
        i += 1;
    }
    proof {
        assert(dst@ =~= old(dst)@ + src@.subrange(start as int, end as int));
    }
}

/// The four continuation-sentinel bytes as a fresh buffer.
fn cont_header_vec() -> (v: Vec<u8>)
    ensures
        v@ == cont_header(),
{
    let mut v: Vec<u8> = Vec::new();
    v.push(0x01);
    v.push(0x01);
    v.push(0x01);
    v.push(0x0F);
    proof {
        assert(v@ =~= cont_header());
    }
    v
}

/// The four final-sentinel bytes as a fresh buffer.
fn final_header_vec() -> (v: Vec<u8>)
    ensures
        v@ == final_header(),
{
    let mut v: Vec<u8> = Vec::new();
    v.push(0x01);
    v.push(0x01);
    v.push(0x01);
    v.push(0xFF);
    proof {
        assert(v@ =~= final_header());
    }
    v
}

/// Frames one envelope for the wire: prepends the timestamp and, when the
/// whole exceeds the datagram limit, splits it into sentinel-prefixed
/// chunks whose bodies concatenate back to the envelope in send order.
pub fn frame(timestamp: u128, payload: &[u8], max_datagram_size: usize) -> (buffers: Vec<Vec<u8>>)
    requires
        max_datagram_size >= 1,
        payload@.len() + 16 <= usize::MAX - 4,
    ensures
        buffers@.map_values(|b: Vec<u8>| b@) == spec_frame(
            timestamp,
            payload@,
            max_datagram_size as nat,
        ),
{
    let mut env = timestamp_to_be_bytes(timestamp);
    push_range(&mut env, payload, 0, payload.len());
    proof {
        assert(payload@.subrange(0, payload@.len() as int) =~= payload@);
        assert(env@ == spec_envelope(timestamp, payload@));
    }
    let env_len = env.len();
    if env_len <= max_datagram_size {
        let mut buffers: Vec<Vec<u8>> = Vec::new();
        buffers.push(env);
        proof {
            assert(buffers@.map_values(|b: Vec<u8>| b@) =~= spec_frame(
                timestamp,
                payload@,
                max_datagram_size as nat,
            ));
        }
        buffers
    } else {
        let mut buffers: Vec<Vec<u8>> = Vec::new();
        let mut offset: usize = 0;
        proof {
            assert(env@.skip(0) =~= env@);
            assert(buffers@.map_values(|b: Vec<u8>| b@) + spec_chunks(
                env@,
                max_datagram_size as nat,
            ) =~= spec_chunks(env@, max_datagram_size as nat));
        }
        while env_len - offset > max_datagram_size
            invariant
                max_datagram_size >= 1,
                offset <= env_len,
                env_len == env@.len() <= usize::MAX - 4,
                spec_chunks(env@, max_datagram_size as nat) == buffers@.map_values(
                    |b: Vec<u8>| b@,
                ) + spec_chunks(env@.skip(offset as int), max_datagram_size as nat),
            decreases env_len - offset,
        {
            let mut chunk = cont_header_vec();
            push_range(&mut chunk, env.as_slice(), offset, offset + max_datagram_size);
            proof {
                let rest = env@.skip(offset as int);
                assert(rest.take(max_datagram_size as int) =~= env@.subrange(
                    offset as int,
                    offset + max_datagram_size,
                ));
                assert(rest.skip(max_datagram_size as int) =~= env@.skip(
                    offset + max_datagram_size,
                ));
                assert(chunk@ == cont_header() + rest.take(max_datagram_size as int));
                assert((buffers@.push(chunk)).map_values(|b: Vec<u8>| b@) =~= buffers@.map_values(
                    |b: Vec<u8>| b@,
                ).push(chunk@));
                assert(buffers@.map_values(|b: Vec<u8>| b@).push(chunk@) + spec_chunks(
                    env@.skip(offset + max_datagram_size),
                    max_datagram_size as nat,
                ) =~= buffers@.map_values(|b: Vec<u8>| b@) + (seq![chunk@] + spec_chunks(
                    env@.skip(offset + max_datagram_size),
                    max_datagram_size as nat,
                )));
            }
            buffers.push(chunk);
            offset = offset + max_datagram_size;
        }
        let mut last = final_header_vec();
        push_range(&mut last, env.as_slice(), offset, env_len);
        proof {
            let rest = env@.skip(offset as int);
            assert(rest =~= env@.subrange(offset as int, env_len as int));
            assert(last@ == final_header() + rest);
            assert(spec_chunks(rest, max_datagram_size as nat) =~= seq![last@]);
        }
        let ghost pre = buffers@;
        let ghost last_view = last@;
        buffers.push(last);
        proof {
            assert(buffers@.map_values(|b: Vec<u8>| b@) =~= pre.map_values(|b: Vec<u8>| b@).push(
                last_view,
            ));
            assert(pre.map_values(|b: Vec<u8>| b@).push(last_view) =~= pre.map_values(
                |b: Vec<u8>| b@,
            ) + seq![last_view]);
        }
        buffers
    }
}

/// Concatenation of a sequence of byte buffers, in order.
pub open spec fn concat_all(ss: Seq<Seq<u8>>) -> Seq<u8>
    decreases ss.len(),
{
    if ss.len() == 0 {
        Seq::empty()
    } else {
        ss[0] + concat_all(ss.drop_first())
    }
}

/// The bodies of a sequence of chunks: each datagram with its four
/// sentinel bytes stripped.
pub open spec fn chunk_bodies(chunks: Seq<Seq<u8>>) -> Seq<Seq<u8>> {
    chunks.map_values(|c: Seq<u8>| c.skip(4))
}

/// Law: the chunk bodies of a fragmented envelope concatenate, in send
/// order, back to the envelope.
pub proof fn lemma_chunks_reassemble(env: Seq<u8>, max: nat)
    requires
        max >= 1,
    ensures
        concat_all(chunk_bodies(spec_chunks(env, max))) == env,
    decreases env.len(),
{
    if env.len() > max {
        lemma_chunks_reassemble(env.skip(max as int), max);
        let c0 = cont_header() + env.take(max as int);
        let rest = spec_chunks(env.skip(max as int), max);
        let bodies = chunk_bodies(seq![c0] + rest);
        assert(bodies.len() == 1 + rest.len());
        assert(concat_all(bodies) == bodies[0] + concat_all(bodies.drop_first()));
        assert(bodies.drop_first() =~= chunk_bodies(rest));
        assert(bodies[0] =~= env.take(max as int));
        assert(env.take(max as int) + env.skip(max as int) =~= env);
    } else {
        let c = final_header() + env;
        let bodies = chunk_bodies(seq![c]);
        assert(bodies.len() == 1);
        assert(concat_all(bodies) == bodies[0] + concat_all(bodies.drop_first()));
        assert(bodies[0] =~= env);
        assert(bodies.drop_first() =~= Seq::<Seq<u8>>::empty());
        assert(concat_all(Seq::<Seq<u8>>::empty()) == Seq::<u8>::empty());
        assert(env + Seq::<u8>::empty() =~= env);
    }
}

/// Every chunk of a fragmented envelope carries the sentinel prefix; all
/// but the last are continuation chunks of exactly the maximum size, and
/// the last is the final chunk.
pub proof fn lemma_chunks_shape(env: Seq<u8>, max: nat)
    requires
        max >= 1,
    ensures
        ({
            let cs = spec_chunks(env, max);
            cs.len() >= 1 && (forall|i: int|
                0 <= i < cs.len() ==> #[trigger] spec_is_chunk_header(cs[i]) && cs[i].len() >= 4)
                && (forall|i: int| 0 <= i < cs.len() - 1 ==> !spec_is_final_chunk(#[trigger] cs[i]))
                && spec_is_final_chunk(cs.last())
        }),
    decreases env.len(),
{
    let cs = spec_chunks(env, max);
    if env.len() > max {
        lemma_chunks_shape(env.skip(max as int), max);
        let c0 = cont_header() + env.take(max as int);
        let rest = spec_chunks(env.skip(max as int), max);
        assert forall|i: int| 0 <= i < cs.len() implies #[trigger] spec_is_chunk_header(cs[i])
            && cs[i].len() >= 4 by {
            if i == 0 {
                assert(cs[0] == c0);
            } else {
                assert(cs[i] == rest[i - 1]);
            }
        }
        assert forall|i: int| 0 <= i < cs.len() - 1 implies !spec_is_final_chunk(
            #[trigger] cs[i],
        ) by {
            if i == 0 {
                assert(cs[0] == c0);
                assert(c0[3] == 0x0F);
            } else {
                assert(cs[i] == rest[i - 1]);
            }
        }
        assert(cs.last() == rest.last());
    } else {
        let c = final_header() + env;
        assert(cs == seq![c]);
        assert(spec_is_chunk_header(c));
        assert(c[3] == 0xFF);
    }
}

/// Law: parsing a serialized envelope yields exactly the timestamp and
/// payload it was built from.
pub proof fn lemma_envelope_round_trip(t: u128, payload: Seq<u8>)
    ensures
        spec_envelope(t, payload).len() == 16 + payload.len(),
        spec_parse_envelope(spec_envelope(t, payload)) == Some((t, payload)),
{
    lemma_ts_be_round_trip(t);
    let env = spec_envelope(t, payload);
    assert(env.take(16) =~= spec_ts_to_be(t));
    assert(env.skip(16) =~= payload);
}

} // verus!
