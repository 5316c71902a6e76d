//! Client registry: a copy-on-write set of receiver addresses.
//!
//! Mutation builds a fresh snapshot and publishes it wholesale through an
//! atomic pointer swap, so the broadcast path always reads a complete,
//! immutable snapshot and never blocks. Subscribes do not deduplicate: a
//! receiver that subscribes twice is listed twice. The registry is driven
//! by a control sub-protocol on the media socket: a one-byte datagram
//! subscribes its source address, a two-byte datagram unsubscribes it, and
//! every other length is ignored.

use vstd::prelude::*;

verus! {

/// Network address of a receiver, as plain values: the IP as a 128-bit
/// integer (an IPv4 address occupies the low 32 bits) and the port.
#[derive(Clone, Copy, PartialEq, Eq, Structural, Debug)]
pub struct ClientAddr {
    pub ip: u128,
    pub port: u16,
}

/// `s` with its first occurrence of `a` removed; `s` itself when `a` is absent.
pub open spec fn remove_first_addr(s: Seq<ClientAddr>, a: ClientAddr) -> Seq<ClientAddr>
    decreases s.len(),
{
    if s.len() == 0 {
        s
    } else if s[0] == a {
        s.drop_first()
    } else {
        seq![s[0]] + remove_first_addr(s.drop_first(), a)
    }
}

/// Cell holding the current snapshot behind an atomic pointer swap.
#[verifier::external_body]
pub struct RegistryCell {
    cell: arc_swap::ArcSwap<Vec<ClientAddr>>,
}

/// The snapshot a `RegistryCell` currently holds.
pub uninterp spec fn registry_contents(cell: RegistryCell) -> Seq<ClientAddr>;

impl RegistryCell {
    /// Relies on arc_swap::ArcSwap::from_pointee: the new cell stores the given value.
    #[verifier::external_body]
    fn empty() -> (c: RegistryCell)
        ensures
            registry_contents(c) == Seq::<ClientAddr>::empty(),
    {
        RegistryCell { cell: arc_swap::ArcSwap::from_pointee(Vec::new()) }
    }

    /// Relies on arc_swap::ArcSwapAny::load: yields the stored snapshot, whole.
    #[verifier::external_body]
    fn load(&self) -> (snapshot: Vec<ClientAddr>)
        ensures
            snapshot@ == registry_contents(*self),
    {
        (**self.cell.load()).clone()
    }

    /// Relies on arc_swap::ArcSwapAny::store: replaces the snapshot atomically,
    /// so further loads yield the new value.
    #[verifier::external_body]
    fn store(&mut self, snapshot: Vec<ClientAddr>)
        ensures
            registry_contents(*final(self)) == snapshot@,
    {
        self.cell.store(std::sync::Arc::new(snapshot));
    }
}

/// The registry of subscribed receivers.
pub struct ClientRegistry {
    cell: RegistryCell,
}

impl ClientRegistry {
    /// The addresses currently subscribed, in subscription order.
    pub closed spec fn clients(&self) -> Seq<ClientAddr> {
        registry_contents(self.cell)
    }

    pub fn new() -> (r: ClientRegistry)
        ensures
            r.clients() == Seq::<ClientAddr>::empty(),
    {
        ClientRegistry { cell: RegistryCell::empty() }
    }

    /// Appends `addr` to a fresh snapshot and publishes it. No existence
    /// check: a duplicate subscribe creates a duplicate entry.
    pub fn subscribe(&mut self, addr: ClientAddr)
        ensures
            final(self).clients() == old(self).clients().push(addr),
    {
        let mut snapshot = self.cell.load();
        snapshot.push(addr);
        self.cell.store(snapshot);
    }

    /// Publishes a fresh snapshot with the first entry equal to `addr`
    /// removed; a no-op when no entry matches.
    pub fn unsubscribe(&mut self, addr: ClientAddr) -> (removed: bool)
        ensures
            final(self).clients() == remove_first_addr(old(self).clients(), addr),
            removed == old(self).clients().contains(addr),
    {
        let mut snapshot = self.cell.load();
        let n = snapshot.len();
        let mut i: usize = 0;
        while i < n
            invariant
                n == snapshot@.len(),
                i <= n,
                snapshot@ == old(self).clients(),
                *self == *old(self),
                forall|j: int| 0 <= j < i ==> snapshot@[j] != addr,
            decreases n - i,
        {
            if snapshot[i] == addr {
                proof {
                    lemma_remove_first_at(snapshot@, addr, i as int);
                    assert(old(self).clients().contains(addr));
                }
                snapshot.remove(i);
                self.cell.store(snapshot);
                return true;
            }
            i += 1;
        }
        proof {
            lemma_remove_first_absent(snapshot@, addr);
            assert forall|k: int| 0 <= k < old(self).clients().len() implies old(
                self,
            ).clients()[k] != addr by {}
        }
        false
    }

    /// Lock-free read of the current snapshot for the broadcast path.
    pub fn snapshot(&self) -> (v: Vec<ClientAddr>)
        ensures
            v@ == self.clients(),
    {
        self.cell.load()
    }
}

/// Registry state after one control datagram of `nbytes` bytes from `a`.
pub open spec fn spec_apply_control(s: Seq<ClientAddr>, nbytes: int, a: ClientAddr) -> Seq<
    ClientAddr,
> {
    if nbytes == 1 {
        s.push(a)
    } else if nbytes == 2 {
        remove_first_addr(s, a)
    } else {
        s
    }
}

impl ClientRegistry {
    /// Applies one inbound control datagram: length one subscribes its
    /// source, length two unsubscribes it, any other length is ignored.
    /// Returns the new subscriber count whenever the registry changed, for
    /// notifying the capture side.
    pub fn apply_control(&mut self, nbytes: usize, source: ClientAddr) -> (count: Option<usize>)
        ensures
            final(self).clients() == spec_apply_control(old(self).clients(), nbytes as int, source),
            count is Some <==> (nbytes == 1 || (nbytes == 2 && old(self).clients().contains(
                source,
            ))),
            count is Some ==> count->0 == final(self).clients().len(),
    {
        if nbytes == 1 {
            self.subscribe(source);
            let snapshot = self.snapshot();
            Some(snapshot.len())
        } else if nbytes == 2 {
            let removed = self.unsubscribe(source);
            if removed {
                let snapshot = self.snapshot();
                Some(snapshot.len())
            } else {
                None
            }
        } else {
            None
        }
    }
}

/// Law: subscribing two distinct addresses lists both in order; the first
/// unsubscribe of the first address leaves exactly the second, and a second
/// unsubscribe of the same address is a no-op.
pub proof fn lemma_registry_lifecycle(a: ClientAddr, b: ClientAddr)
    requires
        a != b,
    ensures
        ({
            let s1 = Seq::<ClientAddr>::empty().push(a);
            let s2 = s1.push(b);
            let s3 = remove_first_addr(s2, a);
            let s4 = remove_first_addr(s3, a);
            s1 == seq![a] && s2 == seq![a, b] && s3 == seq![b] && s4 == seq![b]
        }),
{
    let s1 = Seq::<ClientAddr>::empty().push(a);
    let s2 = s1.push(b);
    assert(s1 =~= seq![a]);
    assert(s2 =~= seq![a, b]);
    assert(remove_first_addr(s2, a) =~= seq![b]);
    assert(remove_first_addr(seq![b], a) == seq![b] + remove_first_addr(
        seq![b].drop_first(),
        a,
    )) by {
        assert(seq![b].drop_first() =~= Seq::<ClientAddr>::empty());
        assert(seq![seq![b][0]] =~= seq![b]);
    }
    assert(remove_first_addr(seq![b], a) =~= seq![b]);
}

/// Where the first occurrence of `a` stands at index `i`, removing it takes
/// the prefix before `i` and the suffix after it.
proof fn lemma_remove_first_at(s: Seq<ClientAddr>, a: ClientAddr, i: int)
    requires
        0 <= i < s.len(),
        s[i] == a,
        forall|j: int| 0 <= j < i ==> s[j] != a,
    ensures
        remove_first_addr(s, a) == s.remove(i),
    decreases i,
{
    if i == 0 {
        assert(remove_first_addr(s, a) == s.drop_first());
        assert(s.drop_first() =~= s.remove(0));
    } else {
        lemma_remove_first_at(s.drop_first(), a, i - 1);
        assert(remove_first_addr(s, a) == seq![s[0]] + s.drop_first().remove(i - 1));
        assert(seq![s[0]] + s.drop_first().remove(i - 1) =~= s.remove(i));
    }
}

/// Removing an absent address changes nothing.
proof fn lemma_remove_first_absent(s: Seq<ClientAddr>, a: ClientAddr)
    requires
        forall|j: int| 0 <= j < s.len() ==> s[j] != a,
    ensures
        remove_first_addr(s, a) == s,
    decreases s.len(),
{
    if s.len() > 0 {
        lemma_remove_first_absent(s.drop_first(), a);
        assert(seq![s[0]] + s.drop_first() =~= s);
    }
}

} // verus!
