//! The connection registry: a mapping from peer address to connection
//! handle, mutated on connect and disconnect and enumerated on every
//! broadcast fan-out.
//!
//! The registry is the one piece of state shared by every session; the
//! host wraps one `Registry` value in its reader/writer lock.  Addresses
//! are held as plain values (raw IP bits and port), and a connection
//! handle is identified by the token under which the host keeps the
//! actual socket halves.

use vstd::prelude::*;

verus! {

/// A peer's network address: the raw IP bits and the port.  An IPv4
/// address occupies the low 32 bits of `ip`.  This is the registry key;
/// it identifies one live connection.
#[derive(Clone, Copy, PartialEq, Eq, Structural, Debug, Hash)]
pub struct Address {
    pub ip: u128,
    pub port: u16,
}

/// One registry entry: a peer's address together with the token under
/// which the host keeps that connection's handle (its two socket
/// halves).
#[derive(Clone, Copy, PartialEq, Eq, Structural, Debug)]
pub struct Entry {
    pub addr: Address,
    pub handle: u64,
}

/// The mapping a sequence of entries stands for; a later entry for the
/// same address would win, though a well-formed registry never repeats
/// an address.
pub open spec fn entries_map(s: Seq<Entry>) -> Map<Address, u64>
    decreases s.len(),
{
    if s.len() == 0 {
        Map::empty()
    } else {
        entries_map(s.drop_last()).insert(s.last().addr, s.last().handle)
    }
}

/// No two entries share an address.
pub open spec fn unique_addrs(s: Seq<Entry>) -> bool {
    forall|i: int, j: int| 0 <= i < j < s.len() ==> s[i].addr != s[j].addr
}

/// An address is in the mapping exactly when some entry carries it.
pub proof fn lemma_map_contains(s: Seq<Entry>, a: Address)
    ensures
        entries_map(s).contains_key(a) <==> exists|i: int| 0 <= i < s.len() && s[i].addr == a,
    decreases s.len(),
{
    if s.len() > 0 {
        lemma_map_contains(s.drop_last(), a);
        if s.last().addr == a {
            assert(s[s.len() - 1].addr == a);
        } else if exists|i: int| 0 <= i < s.drop_last().len() && s.drop_last()[i].addr == a {
            let i = choose|i: int| 0 <= i < s.drop_last().len() && s.drop_last()[i].addr == a;
            assert(s[i].addr == a);
        } else if exists|i: int| 0 <= i < s.len() && s[i].addr == a {
            let i = choose|i: int| 0 <= i < s.len() && s[i].addr == a;
            assert(s.drop_last()[i].addr == a);
        }
    }
}

/// With unique addresses, each entry's address maps to that entry's
/// handle token.
pub proof fn lemma_map_entry(s: Seq<Entry>, i: int)
    requires
        unique_addrs(s),
        0 <= i < s.len(),
    ensures
        entries_map(s).contains_key(s[i].addr),
        entries_map(s)[s[i].addr] == s[i].handle,
    decreases s.len(),
{
    if i == s.len() - 1 {
    } else {
        assert(s.drop_last()[i] == s[i]);
        lemma_map_entry(s.drop_last(), i);
        assert(s[i].addr != s.last().addr);
    }
}

/// Removing the entry at index `i` removes exactly that entry's address
/// from the mapping.
proof fn lemma_map_remove(s: Seq<Entry>, i: int)
    requires
        unique_addrs(s),
        0 <= i < s.len(),
    ensures
        unique_addrs(s.remove(i)),
        entries_map(s.remove(i)) == entries_map(s).remove(s[i].addr),
    decreases s.len(),
{
    let a = s[i].addr;
    assert forall|x: int, y: int| 0 <= x < y < s.remove(i).len() implies s.remove(i)[x].addr
        != s.remove(i)[y].addr by {
        s.remove_ensures(i);
    }
    if i == s.len() - 1 {
        assert(s.remove(i) =~= s.drop_last());
        lemma_map_contains(s.drop_last(), a);
        assert(entries_map(s.drop_last()) =~= entries_map(s.drop_last()).insert(
            s.last().addr,
            s.last().handle,
        ).remove(a));
    } else {
        lemma_map_remove(s.drop_last(), i);
        assert(s.remove(i).drop_last() =~= s.drop_last().remove(i));
        assert(s.remove(i).last() == s.last()) by {
            s.remove_ensures(i);
        }
        assert(s.last().addr != a);
        assert(entries_map(s.remove(i)) == entries_map(s.drop_last().remove(i)).insert(
            s.last().addr,
            s.last().handle,
        ));
        assert(entries_map(s.drop_last()).remove(a).insert(s.last().addr, s.last().handle)
            =~= entries_map(s.drop_last()).insert(s.last().addr, s.last().handle).remove(a));
    }
}

/// Removing an address that is not in a mapping leaves the mapping as it
/// was: one half of the idempotence of disconnection.
pub proof fn lemma_remove_absent(m: Map<Address, u64>, a: Address)
    requires
        !m.contains_key(a),
    ensures
        m.remove(a) == m,
{
    assert(m.remove(a) =~= m);
}

/// Removing an address twice gives the same mapping as removing it
/// once: the other half of the idempotence of disconnection.
pub proof fn lemma_remove_idempotent(m: Map<Address, u64>, a: Address)
    ensures
        m.remove(a).remove(a) == m.remove(a),
{
    assert(m.remove(a).remove(a) =~= m.remove(a));
}

/// The shared mapping from peer address to connection-handle token.
/// One entry per live connection; the accept loop inserts, each session
/// removes itself once its read loop ends, and every fan-out enumerates
/// a snapshot.
pub struct Registry {
    entries: Vec<Entry>,
}

impl View for Registry {
    type V = Map<Address, u64>;

    closed spec fn view(&self) -> Map<Address, u64> {
        entries_map(self.entries@)
    }
}

impl Registry {
    /// Well-formedness: no address occurs twice.  Established by `new`
    /// and preserved by every mutation.
    pub closed spec fn inv(&self) -> bool {
        unique_addrs(self.entries@)
    }

    /// An empty registry: no peer is connected.
    pub fn new() -> (r: Registry)
        ensures
            r.inv(),
            r@ == Map::<Address, u64>::empty(),
    {
        Registry { entries: Vec::new() }
    }

    /// Whether a peer with this address is currently registered.
    pub fn contains(&self, a: Address) -> (r: bool)
        ensures
            r == self@.contains_key(a),
    {
        let mut i: usize = 0;
        while i < self.entries.len()
            invariant
                0 <= i <= self.entries@.len(),
                forall|k: int| 0 <= k < i ==> self.entries@[k].addr != a,
            decreases self.entries@.len() - i,
        {
            if self.entries[i].addr == a {
                proof {
                    assert(self.entries@[i as int].addr == a);
                    lemma_map_contains(self.entries@, a);
                }
                return true;
            }
            i += 1;
        }
        proof {
            lemma_map_contains(self.entries@, a);
        }
        false
    }

    /// Registers a freshly accepted connection.  The accept loop calls
    /// this exactly once per accepted connection; TCP never yields an
    /// address/port pair that is already live, so the address must be
    /// absent.
    pub fn insert(&mut self, a: Address, handle: u64)
        requires
            old(self).inv(),
            !old(self)@.contains_key(a),
        ensures
            final(self).inv(),
            final(self)@ == old(self)@.insert(a, handle),
    {
        proof {
            lemma_map_contains(self.entries@, a);
            assert(self.entries@.push(Entry { addr: a, handle }).drop_last() =~= self.entries@);
        }
        self.entries.push(Entry { addr: a, handle });
    }

    /// Deregisters a connection.  Idempotent: removing an address that
    /// is absent (already removed by a racing disconnect path) changes
    /// nothing and is not an error.
    pub fn remove(&mut self, a: Address)
        requires
            old(self).inv(),
        ensures
            final(self).inv(),
            final(self)@ == old(self)@.remove(a),
            !final(self)@.contains_key(a),
    {
        let mut i: usize = 0;
        while i < self.entries.len()
            invariant
                self.entries@ == old(self).entries@,
                unique_addrs(self.entries@),
                0 <= i <= self.entries@.len(),
                forall|k: int| 0 <= k < i ==> self.entries@[k].addr != a,
            decreases self.entries@.len() - i,
        {
            if self.entries[i].addr == a {
                proof {
                    assert(self.entries@[i as int].addr == a);
                    lemma_map_remove(self.entries@, i as int);
                }
                self.entries.remove(i);
                return ;
            }
            i += 1;
        }
        proof {
            lemma_map_contains(self.entries@, a);
            lemma_remove_absent(entries_map(self.entries@), a);
        }
    }

    /// A point-in-time enumeration of all live `(address, handle)`
    /// pairs, taken once per inbound read to drive one fan-out.  The
    /// snapshot stands for exactly the registry's current mapping.
    pub fn broadcast_snapshot(&self) -> (r: Vec<Entry>)
        requires
            self.inv(),
        ensures
            unique_addrs(r@),
            entries_map(r@) == self@,
            forall|j: int|
                0 <= j < r@.len() ==> self@.contains_key(#[trigger] r@[j].addr)
                    && self@[r@[j].addr] == r@[j].handle,
            forall|a: Address|
                self@.contains_key(a) ==> exists|j: int| 0 <= j < r@.len() && r@[j].addr == a,
    {
        let mut r: Vec<Entry> = Vec::new();
        let mut i: usize = 0;
        while i < self.entries.len()
            invariant
                0 <= i <= self.entries@.len(),
                r@ == self.entries@.take(i as int),
            decreases self.entries@.len() - i,
        {
            r.push(self.entries[i]);
            proof {
                assert(self.entries@.take(i + 1 as int) =~= self.entries@.take(i as int).push(
                    self.entries@[i as int],
                ));
            }
            i += 1;
        }
        proof {
            assert(self.entries@.take(self.entries@.len() as int) =~= self.entries@);
            assert forall|j: int| 0 <= j < r@.len() implies self@.contains_key(
                #[trigger] r@[j].addr,
            ) && self@[r@[j].addr] == r@[j].handle by {
                lemma_map_entry(r@, j);
            }
            assert forall|a: Address| self@.contains_key(a) implies exists|j: int|
                0 <= j < r@.len() && r@[j].addr == a by {
                lemma_map_contains(r@, a);
            }
        }
        r
    }
}

} // verus!
