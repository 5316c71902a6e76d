//! Jitter buffer: batches the unordered receive buffer into the sorted
//! delivery queue. When woken, the sorter re-checks the threshold, removes
//! a batch of threshold-plus-one entries from the front of the receive
//! buffer, sorts it by timestamp — stably, so entries with equal
//! timestamps keep their arrival order — and appends it to the back of
//! the sorted queue. Ordering is guaranteed only within a batch, never
//! across batches: a very late entry is delivered after entries with
//! larger timestamps from the next batch, a deliberate bounded-latency
//! trade-off.

use crate::ReceiveEntry;
use crate::buffer::ReceiveBuffer;
use std::collections::VecDeque;
use vstd::prelude::*;

verus! {

/// The predicate selecting entries that carry timestamp `k`.
pub open spec fn ts_is(k: u128) -> spec_fn((u128, Seq<u8>)) -> bool {
    |x: (u128, Seq<u8>)| x.0 == k
}

/// Non-decreasing timestamps.
pub open spec fn sorted_by_timestamp(s: Seq<(u128, Seq<u8>)>) -> bool {
    forall|i: int, j: int| 0 <= i <= j < s.len() ==> s[i].0 <= s[j].0
}

/// `e` inserted after the last element of `s` whose timestamp does not
/// exceed `e`'s; elements with larger timestamps shift one place back.
pub open spec fn spec_insert_sorted(e: (u128, Seq<u8>), s: Seq<(u128, Seq<u8>)>) -> Seq<
    (u128, Seq<u8>),
>
    decreases s.len(),
{
    if s.len() == 0 {
        seq![e]
    } else if s.last().0 <= e.0 {
        s.push(e)
    } else {
        spec_insert_sorted(e, s.drop_last()).push(s.last())
    }
}

/// The batch in ascending timestamp order, entries with equal timestamps
/// kept in arrival order: each element inserted, left to right, into the
/// sorted result so far.
pub open spec fn spec_stable_sort(s: Seq<(u128, Seq<u8>)>) -> Seq<(u128, Seq<u8>)>
    decreases s.len(),
{
    if s.len() == 0 {
        Seq::empty()
    } else {
        spec_insert_sorted(s.last(), spec_stable_sort(s.drop_last()))
    }
}

proof fn lemma_insert_sorted_multiset(e: (u128, Seq<u8>), s: Seq<(u128, Seq<u8>)>)
    ensures
        spec_insert_sorted(e, s).to_multiset() == s.to_multiset().insert(e),
    decreases s.len(),
{
    broadcast use vstd::seq_lib::group_to_multiset_ensures;

    if s.len() == 0 {
        assert(seq![e] =~= Seq::<(u128, Seq<u8>)>::empty().push(e));
    } else if s.last().0 <= e.0 {
    } else {
        let dl = s.drop_last();
        lemma_insert_sorted_multiset(e, dl);
        assert(s =~= dl.push(s.last()));
        assert(spec_insert_sorted(e, s).to_multiset() == dl.to_multiset().insert(e).insert(
            s.last(),
        ));
        assert(dl.to_multiset().insert(e).insert(s.last()) =~= dl.to_multiset().insert(
            s.last(),
        ).insert(e));
    }
}

proof fn lemma_insert_sorted_sorted(e: (u128, Seq<u8>), s: Seq<(u128, Seq<u8>)>)
    requires
        sorted_by_timestamp(s),
    ensures
        sorted_by_timestamp(spec_insert_sorted(e, s)),
    decreases s.len(),
{
    broadcast use vstd::seq_lib::group_to_multiset_ensures;

    if s.len() == 0 {
    } else if s.last().0 <= e.0 {
        let r = s.push(e);
        assert forall|i: int, j: int| 0 <= i <= j < r.len() implies r[i].0 <= r[j].0 by {
            if j < r.len() - 1 {
                assert(s[i].0 <= s[j].0);
            } else if i < r.len() - 1 {
                assert(s[i].0 <= s[s.len() - 1].0);
            }
        }
    } else {
        let dl = s.drop_last();
        assert(sorted_by_timestamp(dl));
        lemma_insert_sorted_sorted(e, dl);
        lemma_insert_sorted_multiset(e, dl);
        let r0 = spec_insert_sorted(e, dl);
        let r = r0.push(s.last());
        assert forall|i: int, j: int| 0 <= i <= j < r.len() implies r[i].0 <= r[j].0 by {
            if j < r.len() - 1 {
                assert(r0[i].0 <= r0[j].0);
            } else if i < r.len() - 1 {
                assert(r0.contains(r0[i]));
                assert(r0.to_multiset().count(r0[i]) > 0);
                assert(dl.to_multiset().insert(e).count(r0[i]) > 0);
                if r0[i] == e {
                    assert(r0[i].0 <= s.last().0);
                } else {
                    assert(dl.to_multiset().count(r0[i]) > 0);
                    assert(dl.contains(r0[i]));
                    let k = choose|k: int| 0 <= k < dl.len() && dl[k] == r0[i];
                    assert(s[k].0 <= s[s.len() - 1].0);
                }
            }
        }
    }
}

/// Law: the stable sort of a batch is in non-decreasing timestamp order.
pub proof fn lemma_stable_sort_sorted(s: Seq<(u128, Seq<u8>)>)
    ensures
        sorted_by_timestamp(spec_stable_sort(s)),
    decreases s.len(),
{
    if s.len() > 0 {
        lemma_stable_sort_sorted(s.drop_last());
        lemma_insert_sorted_sorted(s.last(), spec_stable_sort(s.drop_last()));
    }
}

/// Law: the stable sort of a batch is a permutation of it — no entry is
/// lost, duplicated or invented.
pub proof fn lemma_stable_sort_permutes(s: Seq<(u128, Seq<u8>)>)
    ensures
        spec_stable_sort(s).to_multiset() == s.to_multiset(),
    decreases s.len(),
{
    broadcast use vstd::seq_lib::group_to_multiset_ensures;

    if s.len() > 0 {
        lemma_stable_sort_permutes(s.drop_last());
        lemma_insert_sorted_multiset(s.last(), spec_stable_sort(s.drop_last()));
        assert(s =~= s.drop_last().push(s.last()));
        assert(s.to_multiset() == s.drop_last().to_multiset().insert(s.last()));
    }
}

proof fn lemma_insert_sorted_filter(e: (u128, Seq<u8>), s: Seq<(u128, Seq<u8>)>, k: u128)
    ensures
        spec_insert_sorted(e, s).filter(ts_is(k)) == if e.0 == k {
            s.filter(ts_is(k)).push(e)
        } else {
            s.filter(ts_is(k))
        },
    decreases s.len(),
{
    reveal(Seq::filter);
    let pred = ts_is(k);
    assert(pred(e) == (e.0 == k));
    if s.len() == 0 {
        assert(seq![e].drop_last() =~= Seq::<(u128, Seq<u8>)>::empty());
        assert(seq![e].last() == e);
        assert(seq![e].drop_last().filter(pred) == seq![e].drop_last());
        if e.0 == k {
            assert(seq![e].filter(pred) =~= s.filter(pred).push(e));
        } else {
            assert(seq![e].filter(pred) =~= s.filter(pred));
        }
    } else if s.last().0 <= e.0 {
        assert(s.push(e).drop_last() =~= s);
        assert(s.push(e).last() == e);
    } else {
        assert(pred(s.last()) == (s.last().0 == k));
        let dl = s.drop_last();
        lemma_insert_sorted_filter(e, dl, k);
        let r0 = spec_insert_sorted(e, dl);
        assert(r0.push(s.last()).drop_last() =~= r0);
        assert(s.filter(pred) == if pred(s.last()) {
            dl.filter(pred).push(s.last())
        } else {
            dl.filter(pred)
        });
    }
}

/// Law: the sort is stable — for every timestamp, the subsequence of
/// entries carrying that timestamp is unchanged, so ties keep their
/// arrival order.
pub proof fn lemma_stable_sort_stable(s: Seq<(u128, Seq<u8>)>, k: u128)
    ensures
        spec_stable_sort(s).filter(ts_is(k)) == s.filter(
            ts_is(k),
        ),
    decreases s.len(),
{
    reveal(Seq::filter);
    let pred = ts_is(k);
    if s.len() > 0 {
        let dl = s.drop_last();
        lemma_stable_sort_stable(dl, k);
        lemma_insert_sorted_filter(s.last(), spec_stable_sort(dl), k);
        assert(s.filter(pred) == if pred(s.last()) {
            dl.filter(pred).push(s.last())
        } else {
            dl.filter(pred)
        });
    }
}

/// Inserting at the position `p` that splits the elements with larger
/// timestamps off the tail is exactly the stable insertion.
proof fn lemma_insert_sorted_at(e: (u128, Seq<u8>), s: Seq<(u128, Seq<u8>)>, p: int)
    requires
        0 <= p <= s.len(),
        forall|kk: int| p <= kk < s.len() ==> s[kk].0 > e.0,
        p > 0 ==> s[p - 1].0 <= e.0,
    ensures
        spec_insert_sorted(e, s) == s.insert(p, e),
    decreases s.len(),
{
    if p == s.len() {
        if s.len() == 0 {
            assert(seq![e] =~= s.insert(p, e));
        } else {
            assert(s.last().0 <= e.0);
            assert(s.push(e) =~= s.insert(p, e));
        }
    } else {
        assert(s[s.len() - 1].0 > e.0);
        let dl = s.drop_last();
        lemma_insert_sorted_at(e, dl, p);
        assert(spec_insert_sorted(e, s) == spec_insert_sorted(e, dl).push(s.last()));
        assert(dl.insert(p, e).push(s.last()) =~= s.insert(p, e));
    }
}

/// Sorts a drained batch by ascending timestamp; the sort is stable, so
/// entries with equal timestamps keep their arrival order.
pub fn sort_batch(batch: Vec<ReceiveEntry>) -> (sorted: Vec<ReceiveEntry>)
    ensures
        sorted@.map_values(|e: ReceiveEntry| e@) == spec_stable_sort(
            batch@.map_values(|e: ReceiveEntry| e@),
        ),
{
    let ghost orig = batch@.map_values(|e: ReceiveEntry| e@);
    let mut rest = batch;
    let mut sorted: Vec<ReceiveEntry> = Vec::new();
    let ghost mut i: int = 0;
    proof {
        assert(orig.take(0) =~= Seq::<(u128, Seq<u8>)>::empty());
        assert(rest@.map_values(|e: ReceiveEntry| e@) =~= orig.skip(0));
    }
    while rest.len() > 0
        invariant
            0 <= i <= orig.len(),
            rest@.map_values(|e: ReceiveEntry| e@) == orig.skip(i),
            rest@.len() == orig.len() - i,
            sorted@.map_values(|e: ReceiveEntry| e@) == spec_stable_sort(orig.take(i)),
        decreases rest@.len(),
    {
        let ghost rest_pre = rest@;
        let e = rest.remove(0);
        let ghost ev = e@;
        proof {
            assert(ev == orig.skip(i)[0]);
            assert(ev == orig[i]);
            assert(rest@ =~= rest_pre.skip(1));
            assert(rest@.map_values(|x: ReceiveEntry| x@) =~= rest_pre.map_values(
                |x: ReceiveEntry| x@,
            ).skip(1));
            assert(orig.skip(i).skip(1) =~= orig.skip(i + 1));
        }
        let ghost sorted_view = sorted@.map_values(|x: ReceiveEntry| x@);
        let mut pos: usize = sorted.len();
        while pos > 0 && sorted[pos - 1].timestamp > e.timestamp
            invariant
                pos <= sorted@.len(),
                ev == e@,
                sorted_view == sorted@.map_values(|x: ReceiveEntry| x@),
                forall|kk: int| pos <= kk < sorted_view.len() ==> sorted_view[kk].0 > ev.0,
            decreases pos,
        {
            proof {
                assert(sorted_view[pos - 1] == sorted@[pos - 1]@);
                assert(sorted_view[pos - 1].0 > ev.0);
            }
            pos -= 1;
        }
        proof {
            lemma_insert_sorted_at(ev, sorted_view, pos as int);
        }
        let ghost sorted_pre = sorted@;
        sorted.insert(pos, e);
        proof {
            assert(sorted@.map_values(|x: ReceiveEntry| x@) =~= sorted_pre.map_values(
                |x: ReceiveEntry| x@,
            ).insert(pos as int, ev));
            assert(orig.take(i + 1).drop_last() =~= orig.take(i));
            assert(orig.take(i + 1).last() == orig[i]);
            i = i + 1;
        }
    }
    proof {
        assert(orig.take(i) =~= orig);
    }
    sorted
}

/// The ordered delivery queue, filled in locally sorted batches and
/// consumed strictly from the front by the decode/render driver.
pub struct SortedQueue {
    queue: VecDeque<ReceiveEntry>,
}

impl SortedQueue {
    /// The queued entries, front first.
    pub closed spec fn entries_view(&self) -> Seq<(u128, Seq<u8>)> {
        self.queue@.map_values(|e: ReceiveEntry| e@)
    }

    pub fn new() -> (r: SortedQueue)
        ensures
            r.entries_view() == Seq::<(u128, Seq<u8>)>::empty(),
    {
        let r = SortedQueue { queue: VecDeque::new() };
        proof {
            assert(r.entries_view() =~= Seq::<(u128, Seq<u8>)>::empty());
        }
        r
    }

    pub fn len(&self) -> (n: usize)
        ensures
            n == self.entries_view().len(),
    {
        self.queue.len()
    }

    /// Removes and returns the front entry, oldest batch first.
    pub fn pop_front(&mut self) -> (r: Option<ReceiveEntry>)
        ensures
            old(self).entries_view().len() == 0 ==> r is None && final(self).entries_view() == old(
                self,
            ).entries_view(),
            old(self).entries_view().len() > 0 ==> (r matches Some(e) && e@ == old(
                self,
            ).entries_view()[0]) && final(self).entries_view() == old(
                self,
            ).entries_view().drop_first(),
    {
        let ghost pre = self.queue@;
        let r = self.queue.pop_front();
        proof {
            if pre.len() > 0 {
                assert(self.queue@.map_values(|x: ReceiveEntry| x@) =~= pre.map_values(
                    |x: ReceiveEntry| x@,
                ).drop_first());
            }
        }
        r
    }

    /// Appends a batch to the back, in the batch's order.
    pub fn push_batch(&mut self, batch: Vec<ReceiveEntry>)
        ensures
            final(self).entries_view() == old(self).entries_view() + batch@.map_values(
                |e: ReceiveEntry| e@,
            ),
    {
        let ghost orig_q = self.queue@;
        let ghost orig_b = batch@.map_values(|e: ReceiveEntry| e@);
        let mut rest = batch;
        let ghost mut j: int = 0;
        proof {
            assert(rest@.map_values(|e: ReceiveEntry| e@) =~= orig_b.skip(0));
            assert(orig_q.map_values(|e: ReceiveEntry| e@) + orig_b.take(0) =~= orig_q.map_values(
                |e: ReceiveEntry| e@,
            ));
        }
        while rest.len() > 0
            invariant
                0 <= j <= orig_b.len(),
                rest@.len() == orig_b.len() - j,
                rest@.map_values(|e: ReceiveEntry| e@) == orig_b.skip(j),
                self.queue@.map_values(|e: ReceiveEntry| e@) == orig_q.map_values(
                    |e: ReceiveEntry| e@,
                ) + orig_b.take(j),
            decreases rest@.len(),
        {
            let ghost rest_pre = rest@;
            let ghost queue_pre = self.queue@;
            let e = rest.remove(0);
            self.queue.push_back(e);
            proof {
                assert(rest@ =~= rest_pre.skip(1));
                assert(rest@.map_values(|x: ReceiveEntry| x@) =~= rest_pre.map_values(
                    |x: ReceiveEntry| x@,
                ).skip(1));
                assert(orig_b.skip(j).skip(1) =~= orig_b.skip(j + 1));
                assert(self.queue@.map_values(|x: ReceiveEntry| x@) =~= queue_pre.map_values(
                    |x: ReceiveEntry| x@,
                ).push(orig_b.skip(j)[0]));
                assert(orig_q.map_values(|x: ReceiveEntry| x@) + orig_b.take(j + 1)
                    =~= (orig_q.map_values(|x: ReceiveEntry| x@) + orig_b.take(j)).push(
                    orig_b[j],
                ));
                j = j + 1;
            }
        }
        proof {
            assert(orig_b.take(j) =~= orig_b);
        }
    }
}

/// One pass of the sorter once woken: re-checks that the receive buffer
/// still exceeds its threshold — the signal only reports a past crossing —
/// and if so moves a batch of threshold-plus-one entries off the front,
/// sorts it stably by timestamp, and appends it to the back of the sorted
/// queue. Entries beyond the drained prefix stay in the buffer untouched.
pub fn drain_cycle(buffer: &mut ReceiveBuffer, queue: &mut SortedQueue) -> (drained: bool)
    requires
        old(buffer).spec_threshold() < usize::MAX,
    ensures
        drained == (old(buffer).entries_view().len() > old(buffer).spec_threshold()),
        final(buffer).spec_threshold() == old(buffer).spec_threshold(),
        drained ==> final(buffer).entries_view() == old(buffer).entries_view().skip(
            old(buffer).spec_threshold() + 1,
        ) && final(queue).entries_view() == old(queue).entries_view() + spec_stable_sort(
            old(buffer).entries_view().take(old(buffer).spec_threshold() + 1),
        ),
        !drained ==> final(buffer).entries_view() == old(buffer).entries_view() && final(
            queue
        ).entries_view() == old(queue).entries_view(),
{
    let len = buffer.len();
    let threshold = buffer.threshold();
    if len > threshold {
        let batch = buffer.take_front(threshold + 1);
        let sorted = sort_batch(batch);
        queue.push_batch(sorted);
        true
    } else {
        false
    }
}

} // verus!

