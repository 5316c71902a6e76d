//! Distribution of a timestamped media stream over datagrams: wire framing
//! and parsing, a copy-on-write registry of subscribed receivers, the emit
//! pipeline that chunks and fans envelopes out, chunk reassembly on the
//! receiving side, a batched reordering buffer, and the decisions of the
//! decode/render driver.

pub mod buffer;
pub mod capture;
pub mod codec;
pub mod driver;
pub mod emit;
pub mod reassembly;
pub mod registry;
pub mod sorter;
pub mod stopwatch;

use vstd::prelude::*;

verus! {

/// One reassembled unit as the receiving side stores it: the timestamp the
/// sender stamped on the envelope and the opaque payload bytes.
pub struct ReceiveEntry {
    pub timestamp: u128,
    pub payload: Vec<u8>,
}

impl View for ReceiveEntry {
    type V = (u128, Seq<u8>);

    open spec fn view(&self) -> (u128, Seq<u8>) {
        (self.timestamp, self.payload@)
    }
}

} // verus!
