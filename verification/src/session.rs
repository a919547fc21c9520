//! The per-connection session loop's decision core.
//!
//! Each connection runs one session: read a chunk, fan it out to every
//! other registered peer, repeat; stop and deregister on orderly close
//! or read failure.  The host performs the reads and writes; the
//! functions here decide, from plain values, what each read means, which
//! peers a fan-out targets, and that a failed write to one target never
//! affects the others or the session itself.

use vstd::prelude::*;
use crate::registry::{Address, Entry, entries_map, lemma_map_contains};

verus! {

/// Size of the read buffer: a chunk handed to one fan-out is at most
/// this many bytes.
pub const CHUNK_SIZE: usize = 4096;

/// The outcome of one read on a session's read-side: the bytes read
/// (empty on orderly peer shutdown), or a read failure.
pub enum ReadEvent {
    Data(Vec<u8>),
    Failed,
}

/// Where a session stands: still serving reads, or ended (after which
/// the host must deregister the connection).
#[derive(Clone, Copy, PartialEq, Eq, Structural, Debug)]
pub enum SessionState {
    Reading,
    Terminated,
}

/// What the host must do after a read: relay a chunk to the other
/// peers, or remove this connection from the registry and release it.
pub enum SessionAction {
    Broadcast(Vec<u8>),
    Deregister,
}

/// A read event that keeps the session alive: a non-empty chunk.
pub open spec fn is_chunk(e: ReadEvent) -> bool {
    e matches ReadEvent::Data(d) && d@.len() > 0
}

/// The bytes a read event carries.
pub open spec fn chunk_of(e: ReadEvent) -> Seq<u8> {
    match e {
        ReadEvent::Data(d) => d@,
        ReadEvent::Failed => Seq::empty(),
    }
}

/// One step of the session state machine.  A non-empty chunk is relayed
/// verbatim and the session keeps reading; a zero-byte read (orderly
/// shutdown) or a read failure ends the session, and the one action left
/// is to deregister.
pub fn on_read(event: ReadEvent) -> (r: (SessionState, SessionAction))
    ensures
        is_chunk(event) ==> r.0 == SessionState::Reading && (r.1 matches SessionAction::Broadcast(
            p,
        ) && p@ == chunk_of(event)),
        !is_chunk(event) ==> r.0 == SessionState::Terminated && r.1 == SessionAction::Deregister,
{
    match event {
        ReadEvent::Data(d) => {
            if d.len() > 0 {
                (SessionState::Reading, SessionAction::Broadcast(d))
            } else {
                (SessionState::Terminated, SessionAction::Deregister)
            }
        },
        ReadEvent::Failed => (SessionState::Terminated, SessionAction::Deregister),
    }
}

/// The targets of one fan-out: the snapshot's entries whose address
/// differs from the sender's, in snapshot order.
pub open spec fn targets_of(s: Seq<Entry>, me: Address) -> Seq<Entry>
    decreases s.len(),
{
    if s.len() == 0 {
        Seq::empty()
    } else {
        targets_of(s.drop_last(), me) + (if s.last().addr == me {
            Seq::<Entry>::empty()
        } else {
            seq![s.last()]
        })
    }
}

/// Selects the peers one chunk is relayed to: every snapshot entry but
/// the sender's own.
pub fn broadcast_targets(snapshot: &Vec<Entry>, me: Address) -> (r: Vec<Entry>)
    ensures
        r@ == targets_of(snapshot@, me),
{
    let mut r: Vec<Entry> = Vec::new();
    let mut i: usize = 0;
    while i < snapshot.len()
        invariant
            0 <= i <= snapshot@.len(),
            r@ == targets_of(snapshot@.take(i as int), me),
        decreases snapshot@.len() - i,
    {
        let e = snapshot[i];
        proof {
            assert(snapshot@.take(i + 1 as int).drop_last() =~= snapshot@.take(i as int));
            assert(snapshot@.take(i + 1 as int).last() == snapshot@[i as int]);
        }
        if e.addr != me {
            r.push(e);
        }
        i += 1;
    }
    proof {
        assert(snapshot@.take(snapshot@.len() as int) =~= snapshot@);
    }
    r
}

/// A chunk is never delivered to its own sender: no fan-out target
/// carries the sender's address.
pub proof fn lemma_targets_exclude_sender(s: Seq<Entry>, me: Address)
    ensures
        forall|j: int| 0 <= j < targets_of(s, me).len() ==> targets_of(s, me)[j].addr != me,
    decreases s.len(),
{
    if s.len() > 0 {
        lemma_targets_exclude_sender(s.drop_last(), me);
        let t0 = targets_of(s.drop_last(), me);
        assert forall|j: int| 0 <= j < targets_of(s, me).len() implies targets_of(s, me)[j].addr
            != me by {
            if j < t0.len() {
                assert(targets_of(s, me)[j] == t0[j]);
            } else {
                assert(targets_of(s, me)[j] == s.last());
            }
        }
    }
}

/// Every registered peer other than the sender is a target: a fan-out
/// reaches all of them.
pub proof fn lemma_targets_include_others(s: Seq<Entry>, me: Address)
    ensures
        forall|i: int|
            0 <= i < s.len() && s[i].addr != me ==> targets_of(s, me).contains(s[i]),
    decreases s.len(),
{
    if s.len() > 0 {
        lemma_targets_include_others(s.drop_last(), me);
        let t0 = targets_of(s.drop_last(), me);
        assert forall|i: int| 0 <= i < s.len() && s[i].addr != me implies targets_of(
            s,
            me,
        ).contains(s[i]) by {
            if i == s.len() - 1 {
                assert(targets_of(s, me)[t0.len() as int] == s.last());
            } else {
                assert(s.drop_last()[i] == s[i]);
                let k = choose|k: int| 0 <= k < t0.len() && t0[k] == s[i];
                assert(targets_of(s, me)[k] == s[i]);
            }
        }
    }
}

/// Every fan-out target comes from the snapshot: nothing is relayed to
/// a peer the registry does not hold.
pub proof fn lemma_targets_subset(s: Seq<Entry>, me: Address)
    ensures
        forall|j: int| 0 <= j < targets_of(s, me).len() ==> s.contains(targets_of(s, me)[j]),
    decreases s.len(),
{
    if s.len() > 0 {
        lemma_targets_subset(s.drop_last(), me);
        let t0 = targets_of(s.drop_last(), me);
        assert forall|j: int| 0 <= j < targets_of(s, me).len() implies s.contains(
            targets_of(s, me)[j],
        ) by {
            if j < t0.len() {
                assert(targets_of(s, me)[j] == t0[j]);
                let k = choose|k: int| 0 <= k < s.drop_last().len() && s.drop_last()[k] == t0[j];
                assert(s[k] == t0[j]);
            } else {
                assert(targets_of(s, me)[j] == s.last());
                assert(s[s.len() - 1] == s.last());
            }
        }
    }
}

/// One fan-out reaches exactly the other peers: every target is a
/// registered peer other than the sender, and every registered peer
/// other than the sender is a target.
pub proof fn lemma_fanout_targets_exactly_others(snap: Seq<Entry>, me: Address)
    ensures
        forall|j: int| 0 <= j < targets_of(snap, me).len() ==> targets_of(snap, me)[j].addr != me,
        forall|j: int|
            0 <= j < targets_of(snap, me).len() ==> entries_map(snap).contains_key(
                targets_of(snap, me)[j].addr,
            ),
        forall|a: Address|
            entries_map(snap).contains_key(a) && a != me ==> exists|j: int|
                0 <= j < targets_of(snap, me).len() && targets_of(snap, me)[j].addr == a,
{
    lemma_targets_exclude_sender(snap, me);
    lemma_targets_subset(snap, me);
    lemma_targets_include_others(snap, me);
    assert forall|j: int| 0 <= j < targets_of(snap, me).len() implies entries_map(
        snap,
    ).contains_key(targets_of(snap, me)[j].addr) by {
        let e = targets_of(snap, me)[j];
        let k = choose|k: int| 0 <= k < snap.len() && snap[k] == e;
        lemma_map_contains(snap, e.addr);
    }
    assert forall|a: Address| entries_map(snap).contains_key(a) && a != me implies exists|j: int|
        0 <= j < targets_of(snap, me).len() && targets_of(snap, me)[j].addr == a by {
        lemma_map_contains(snap, a);
        let i = choose|i: int| 0 <= i < snap.len() && snap[i].addr == a;
        assert(targets_of(snap, me).contains(snap[i]));
        let j = choose|j: int| 0 <= j < targets_of(snap, me).len() && targets_of(snap, me)[j]
            == snap[i];
        assert(targets_of(snap, me)[j].addr == a);
    }
}

/// A deregistered peer is never targeted again: once an address is out
/// of the registry, no snapshot of that registry yields a fan-out that
/// delivers to it, whoever the sender is.
pub proof fn lemma_removed_never_targeted(
    reg: Map<Address, u64>,
    snap: Seq<Entry>,
    gone: Address,
    me: Address,
)
    requires
        entries_map(snap) == reg,
        !reg.contains_key(gone),
    ensures
        forall|j: int| 0 <= j < targets_of(snap, me).len() ==> targets_of(snap, me)[j].addr
            != gone,
{
    lemma_targets_subset(snap, me);
    assert forall|j: int| 0 <= j < targets_of(snap, me).len() implies targets_of(snap, me)[j].addr
        != gone by {
        let e = targets_of(snap, me)[j];
        let k = choose|k: int| 0 <= k < snap.len() && snap[k] == e;
        lemma_map_contains(snap, e.addr);
    }
}

/// The targets of one fan-out that actually received the chunk, given
/// each target's own write outcome (`true` for a completed write).
pub open spec fn delivered_of(targets: Seq<Entry>, ok: Seq<bool>) -> Seq<Entry>
    decreases targets.len(),
{
    if targets.len() == 0 {
        Seq::empty()
    } else {
        delivered_of(targets.drop_last(), ok.drop_last()) + (if ok.len() == targets.len()
            && ok.last() {
            seq![targets.last()]
        } else {
            Seq::<Entry>::empty()
        })
    }
}

/// Replays one fan-out round against the per-target write outcomes the
/// host observed, and yields the targets that received the chunk.
pub fn fanout_deliveries(targets: &Vec<Entry>, write_ok: &Vec<bool>) -> (r: Vec<Entry>)
    requires
        targets@.len() == write_ok@.len(),
    ensures
        r@ == delivered_of(targets@, write_ok@),
{
    let mut r: Vec<Entry> = Vec::new();
    let mut i: usize = 0;
    while i < targets.len()
        invariant
            targets@.len() == write_ok@.len(),
            0 <= i <= targets@.len(),
            r@ == delivered_of(targets@.take(i as int), write_ok@.take(i as int)),
        decreases targets@.len() - i,
    {
        proof {
            assert(targets@.take(i + 1 as int).drop_last() =~= targets@.take(i as int));
            assert(write_ok@.take(i + 1 as int).drop_last() =~= write_ok@.take(i as int));
            assert(targets@.take(i + 1 as int).last() == targets@[i as int]);
            assert(write_ok@.take(i + 1 as int).last() == write_ok@[i as int]);
        }
        if write_ok[i] {
            r.push(targets[i]);
        }
        i += 1;
    }
    proof {
        assert(targets@.take(targets@.len() as int) =~= targets@);
        assert(write_ok@.take(write_ok@.len() as int) =~= write_ok@);
    }
    r
}

/// A write failure is isolated to its one target: whether a target
/// received the chunk depends only on that target's own write outcome,
/// so failures anywhere else in the same fan-out never block it.
pub proof fn lemma_write_failure_isolated(targets: Seq<Entry>, ok: Seq<bool>, j: int)
    requires
        targets.len() == ok.len(),
        0 <= j < targets.len(),
        ok[j],
    ensures
        delivered_of(targets, ok).contains(targets[j]),
    decreases targets.len(),
{
    if j == targets.len() - 1 {
        assert(delivered_of(targets, ok)[delivered_of(targets.drop_last(), ok.drop_last()).len()
            as int] == targets.last());
    } else {
        lemma_write_failure_isolated(targets.drop_last(), ok.drop_last(), j);
        let d0 = delivered_of(targets.drop_last(), ok.drop_last());
        assert(targets.drop_last()[j] == targets[j]);
        let k = choose|k: int| 0 <= k < d0.len() && d0[k] == targets[j];
        assert(delivered_of(targets, ok)[k] == targets[j]);
    }
}

/// The session goes on reading after a fan-out whatever the write
/// outcomes were: a failed write to one peer never ends the sender's
/// session (only its own read side can do that).
pub fn state_after_fanout(write_ok: &Vec<bool>) -> (r: SessionState)
    ensures
        r == SessionState::Reading,
{
    SessionState::Reading
}

/// The chunks a session relays, in order: the payloads of the leading
/// run of non-empty reads, cut short by the first orderly shutdown or
/// read failure.
pub open spec fn relayed_chunks(events: Seq<ReadEvent>) -> Seq<Seq<u8>>
    decreases events.len(),
{
    if events.len() == 0 {
        Seq::empty()
    } else if is_chunk(events[0]) {
        seq![chunk_of(events[0])] + relayed_chunks(events.drop_first())
    } else {
        Seq::empty()
    }
}

/// Where a session stands after a run of reads: still reading if every
/// read so far carried a chunk, ended at the first that did not.
pub open spec fn state_after(events: Seq<ReadEvent>) -> SessionState
    decreases events.len(),
{
    if events.len() == 0 {
        SessionState::Reading
    } else if is_chunk(events[0]) {
        state_after(events.drop_first())
    } else {
        SessionState::Terminated
    }
}

/// Runs the session state machine over a run of reads and collects the
/// relayed chunks.  Because one session serializes its own reads, the
/// chunks any other peer is offered appear here exactly in the order the
/// sender wrote them, each verbatim.
pub fn session_broadcasts(events: Vec<ReadEvent>) -> (r: (Vec<Vec<u8>>, SessionState))
    ensures
        r.0@.map_values(|v: Vec<u8>| v@) == relayed_chunks(events@),
        r.1 == state_after(events@),
{
    let ghost all: Seq<ReadEvent> = events@;
    let mut events = events;
    let mut out: Vec<Vec<u8>> = Vec::new();
    let mut state = SessionState::Reading;
    while state == SessionState::Reading && events.len() > 0
        invariant
            state == SessionState::Reading ==> relayed_chunks(all) =~= out@.map_values(
                |v: Vec<u8>| v@,
            ) + relayed_chunks(events@) && state_after(all) == state_after(events@),
            state == SessionState::Terminated ==> relayed_chunks(all) =~= out@.map_values(
                |v: Vec<u8>| v@,
            ) && state_after(all) == SessionState::Terminated,
        decreases events@.len(),
    {
        let ghost before: Seq<ReadEvent> = events@;
        let e = events.remove(0);
        proof {
            assert(events@ =~= before.drop_first());
        }
        let (st, act) = on_read(e);
        match act {
            SessionAction::Broadcast(p) => {
                proof {
                    assert(out@.push(p).map_values(|v: Vec<u8>| v@) =~= out@.map_values(
                        |v: Vec<u8>| v@,
                    ).push(p@));
                }
                out.push(p);
            },
            SessionAction::Deregister => {},
        }
        state = st;
    }
    proof {
        if state == SessionState::Reading {
            assert(events@.len() == 0);
            assert(relayed_chunks(events@) =~= Seq::<Seq<u8>>::empty());
        }
    }
    (out, state)
}

/// In-order delivery per sender: the k-th chunk a session relays is the
/// payload of the k-th read, so two chunks sent one after the other are
/// offered to every other peer in that same order.
pub proof fn lemma_relay_in_order(events: Seq<ReadEvent>, k: int)
    requires
        0 <= k < relayed_chunks(events).len(),
    ensures
        k < events.len(),
        is_chunk(events[k]),
        relayed_chunks(events)[k] == chunk_of(events[k]),
    decreases events.len(),
{
    if k > 0 {
        lemma_relay_in_order(events.drop_first(), k - 1);
        assert(events.drop_first()[k - 1] == events[k]);
    }
}

} // verus!
