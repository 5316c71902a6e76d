//! Emit pipeline decisions. Each loop iteration polls the control socket,
//! applies any control datagram to the registry, pops at most one encoded
//! unit, stamps it with the current wall-clock timestamp, frames it, and
//! sends every resulting buffer to every subscriber in the current
//! snapshot. The socket work stays with the caller; everything decided
//! here — registry update, framing, and the send plan — is verified.

use crate::codec::frame;
use crate::codec::spec_frame;
use crate::registry::ClientAddr;
use crate::registry::ClientRegistry;
use crate::registry::spec_apply_control;
use vstd::prelude::*;

verus! {

/// Server-side application core. The sockets, threads and the capture
/// session live with the caller; the core's decisions are the free
/// functions of this module and the registry it is handed.
pub struct AppCore {}

impl AppCore {
    pub fn new() -> (r: AppCore) {
        AppCore {  }
    }
}

/// The datagrams one buffer contributes: a copy to every subscriber, in
/// snapshot order.
pub open spec fn spec_sends_of(buf: Seq<u8>, clients: Seq<ClientAddr>) -> Seq<
    (ClientAddr, Seq<u8>),
> {
    clients.map_values(|c: ClientAddr| (c, buf))
}

/// The whole send plan, buffer-major: every framed buffer to every
/// subscriber, buffers in send order so chunks leave in order.
pub open spec fn spec_broadcast_plan(bufs: Seq<Seq<u8>>, clients: Seq<ClientAddr>) -> Seq<
    (ClientAddr, Seq<u8>),
>
    decreases bufs.len(),
{
    if bufs.len() == 0 {
        Seq::empty()
    } else {
        spec_sends_of(bufs[0], clients) + spec_broadcast_plan(bufs.drop_first(), clients)
    }
}

/// View of an executable send plan.
pub open spec fn plan_view(plan: Seq<(ClientAddr, Vec<u8>)>) -> Seq<(ClientAddr, Seq<u8>)> {
    plan.map_values(|s: (ClientAddr, Vec<u8>)| (s.0, s.1@))
}

/// Lays out the sends for one iteration: each buffer, in order, to every
/// client of the snapshot. A per-client send may still fail at the socket
/// without touching the rest of the plan.
pub fn plan_sends(buffers: &Vec<Vec<u8>>, clients: &Vec<ClientAddr>) -> (plan: Vec<
    (ClientAddr, Vec<u8>),
>)
    ensures
        plan_view(plan@) == spec_broadcast_plan(
            buffers@.map_values(|b: Vec<u8>| b@),
            clients@,
        ),
{
    let ghost bufs_view = buffers@.map_values(|b: Vec<u8>| b@);
    let mut plan: Vec<(ClientAddr, Vec<u8>)> = Vec::new();
    let mut i: usize = 0;
    proof {
        assert(bufs_view.skip(0) =~= bufs_view);
        assert(plan_view(plan@) + spec_broadcast_plan(bufs_view.skip(0), clients@)
            =~= spec_broadcast_plan(bufs_view, clients@));
    }
    while i < buffers.len()
        invariant
            i <= buffers@.len(),
            bufs_view == buffers@.map_values(|b: Vec<u8>| b@),
            spec_broadcast_plan(bufs_view, clients@) == plan_view(plan@) + spec_broadcast_plan(
                bufs_view.skip(i as int),
                clients@,
            ),
        decreases buffers@.len() - i,
    {
        let mut j: usize = 0;
        let ghost plan_outer = plan@;
        while j < clients.len()
            invariant
                i < buffers@.len(),
                j <= clients@.len(),
                bufs_view == buffers@.map_values(|b: Vec<u8>| b@),
                plan_view(plan@) == plan_view(plan_outer) + spec_sends_of(
                    bufs_view[i as int],
                    clients@,
                ).take(j as int),
            decreases clients@.len() - j,
        {
            let addr = clients[j];
            let buf_copy = buffers[i].clone();
            proof {
                broadcast use vstd::std_specs::vec::vec_clone_deep_view_proof;

            }
            let ghost plan_pre = plan@;
            let ghost added = (addr, buf_copy@);
            plan.push((addr, buf_copy));
            proof {
                assert(added == spec_sends_of(bufs_view[i as int], clients@)[j as int]);
                assert(plan_view(plan@) =~= plan_view(plan_pre).push(added));
                assert(plan_view(plan_outer) + spec_sends_of(bufs_view[i as int], clients@).take(
                    j + 1,
                ) =~= (plan_view(plan_outer) + spec_sends_of(bufs_view[i as int], clients@).take(
                    j as int,
                )).push(added));
            }
            j += 1;
        }
        proof {
            assert(spec_sends_of(bufs_view[i as int], clients@).take(clients@.len() as int)
                =~= spec_sends_of(bufs_view[i as int], clients@));
            assert(bufs_view.skip(i as int).drop_first() =~= bufs_view.skip(i + 1));
            assert(bufs_view.skip(i as int)[0] == bufs_view[i as int]);
            assert((plan_view(plan_outer) + spec_sends_of(bufs_view[i as int], clients@))
                + spec_broadcast_plan(bufs_view.skip(i + 1), clients@) =~= plan_view(plan_outer) + (
            spec_sends_of(bufs_view[i as int], clients@) + spec_broadcast_plan(
                bufs_view.skip(i + 1),
                clients@,
            )));
        }
        i += 1;
    }
    proof {
        assert(bufs_view.skip(buffers@.len() as int) =~= Seq::<Seq<u8>>::empty());
        assert(plan_view(plan@) + Seq::<(ClientAddr, Seq<u8>)>::empty() =~= plan_view(plan@));
    }
    plan
}

/// One emit iteration's decisions: applies an inbound control datagram to
/// the registry, then frames the popped unit, if any, under the given
/// timestamp and lays out its broadcast to the updated snapshot. Returns
/// the send plan and the subscriber-count notification the control
/// handling produced.
pub fn emit_step(
    registry: &mut ClientRegistry,
    control: Option<(usize, ClientAddr)>,
    unit: Option<Vec<u8>>,
    timestamp: u128,
    max_datagram_size: usize,
) -> (r: (Vec<(ClientAddr, Vec<u8>)>, Option<usize>))
    requires
        max_datagram_size >= 1,
        unit matches Some(p) ==> p@.len() + 16 <= usize::MAX - 4,
    ensures
        ({
            let clients_after = final(registry).clients();
            &&& (match control {
                Option::Some(c) => clients_after == spec_apply_control(
                    old(registry).clients(),
                    c.0 as int,
                    c.1,
                ) && (r.1 is Some <==> (c.0 == 1 || (c.0 == 2 && old(registry).clients().contains(
                    c.1,
                )))) && (r.1 matches Some(v) ==> v == clients_after.len()),
                Option::None => clients_after == old(registry).clients() && r.1 is None,
            })
            &&& (match unit {
                Option::Some(p) => plan_view(r.0@) == spec_broadcast_plan(
                    spec_frame(timestamp, p@, max_datagram_size as nat),
                    clients_after,
                ),
                Option::None => r.0@.len() == 0,
            })
        }),
{
    let count = match control {
        Some((nbytes, source)) => registry.apply_control(nbytes, source),
        None => None,
    };
    let plan = match unit {
        Some(payload) => {
            let buffers = frame(timestamp, payload.as_slice(), max_datagram_size);
            let snapshot = registry.snapshot();
            plan_sends(&buffers, &snapshot)
        },
        None => Vec::new(),
    };
    (plan, count)
}

} // verus!
