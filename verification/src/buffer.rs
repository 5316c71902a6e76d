//! The receive buffer: the unordered, append-only sequence of reassembled
//! entries shared between the receiving side and the sorter. Each append
//! reports whether the configured threshold was exceeded, which is the
//! sorter's wake-up condition.

use crate::ReceiveEntry;
use vstd::prelude::*;

verus! {

/// Append-only buffer of reassembled entries with a drain threshold.
pub struct ReceiveBuffer {
    entries: Vec<ReceiveEntry>,
    threshold: usize,
}

impl ReceiveBuffer {
    /// The buffered entries, oldest first.
    pub closed spec fn entries_view(&self) -> Seq<(u128, Seq<u8>)> {
        self.entries@.map_values(|e: ReceiveEntry| e@)
    }

    /// The configured wake-up threshold.
    pub closed spec fn spec_threshold(&self) -> usize {
        self.threshold
    }

    pub fn new(threshold: usize) -> (r: ReceiveBuffer)
        ensures
            r.entries_view() == Seq::<(u128, Seq<u8>)>::empty(),
            r.spec_threshold() == threshold,
    {
        let r = ReceiveBuffer { entries: Vec::new(), threshold };
        proof {
            assert(r.entries_view() =~= Seq::<(u128, Seq<u8>)>::empty());
        }
        r
    }

    pub fn len(&self) -> (n: usize)
        ensures
            n == self.entries_view().len(),
    {
        self.entries.len()
    }

    pub fn threshold(&self) -> (t: usize)
        ensures
            t == self.spec_threshold(),
    {
        self.threshold
    }

    /// Appends one entry. The returned signal asks the sorter to wake:
    /// it is set exactly when the buffer has grown past its threshold.
    pub fn push(&mut self, entry: ReceiveEntry) -> (signal: bool)
        ensures
            final(self).entries_view() == old(self).entries_view().push(entry@),
            final(self).spec_threshold() == old(self).spec_threshold(),
            signal == (final(self).entries_view().len() > old(self).spec_threshold()),
    {
        let ghost pre = self.entries@;
        let ghost entry_view = entry@;
        self.entries.push(entry);
        proof {
            assert(self.entries@.map_values(|e: ReceiveEntry| e@) =~= pre.map_values(
                |e: ReceiveEntry| e@,
            ).push(entry_view));
        }
        self.entries.len() > self.threshold
    }

    /// Removes and returns the first `n` entries, leaving the rest untouched.
    pub fn take_front(&mut self, n: usize) -> (batch: Vec<ReceiveEntry>)
        requires
            n <= old(self).entries_view().len(),
        ensures
            batch@.map_values(|e: ReceiveEntry| e@) == old(self).entries_view().take(n as int),
            final(self).entries_view() == old(self).entries_view().skip(n as int),
            final(self).spec_threshold() == old(self).spec_threshold(),
    {
        let ghost orig = self.entries@;
        let ghost t0 = self.threshold;
        let mut batch: Vec<ReceiveEntry> = Vec::new();
        let mut i: usize = 0;
        proof {
            assert(orig.skip(0) =~= orig);
            assert(orig.take(0) =~= batch@);
        }
        while i < n
            invariant
                i <= n <= orig.len(),
                self.threshold == t0,
                self.entries@ == orig.skip(i as int),
                batch@ == orig.take(i as int),
            decreases n - i,
        {
            let e = self.entries.remove(0);
            batch.push(e);
            proof {
                assert(orig.skip(i as int).remove(0) =~= orig.skip(i + 1));
                assert(orig.take(i as int).push(orig.skip(i as int)[0]) =~= orig.take(i + 1));
            }
            i += 1;
        }
        proof {
            assert(batch@.map_values(|e: ReceiveEntry| e@) =~= orig.map_values(
                |e: ReceiveEntry| e@,
            ).take(n as int));
            assert(self.entries@.map_values(|e: ReceiveEntry| e@) =~= orig.map_values(
                |e: ReceiveEntry| e@,
            ).skip(n as int));
        }
        batch
    }
}

} // verus!
