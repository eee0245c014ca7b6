//! The pending-request table as a state machine.
//!
//! The executable table is a concurrent map shared by every caller thread
//! and the receive loop, so its wrappers can promise little about its
//! contents at any instant. What the multiplexer's routing discipline
//! guarantees is stated here instead, over a mathematical table mapping
//! each in-flight correlation identifier to the waiter registered under
//! it, and transitions that mirror the executable steps one for one:
//! registering a waiter, routing an arriving reply, cancelling on a
//! deadline, and draining everything at shutdown. The laws below are
//! proved of every interleaving of those transitions.

use vstd::prelude::*;

verus! {

/// The table of in-flight requests: each pending correlation identifier,
/// mapped to the waiter registered under it.
pub struct PendingModel {
    /// The pending entries.
    pub entries: Map<u64, nat>,
}

/// The table with nothing pending.
pub open spec fn empty_table() -> PendingModel {
    PendingModel { entries: Map::empty() }
}

/// A caller registers its waiter under its request's identifier.
pub open spec fn register(m: PendingModel, id: u64, w: nat) -> PendingModel {
    PendingModel { entries: m.entries.insert(id, w) }
}

/// A reply with identifier `id` arrives: the matching entry, if any, is
/// removed and its waiter is the delivery target; with no matching entry
/// the reply is discarded and the table is untouched.
pub open spec fn route(m: PendingModel, id: u64) -> (PendingModel, Option<nat>) {
    if m.entries.dom().contains(id) {
        (PendingModel { entries: m.entries.remove(id) }, Some(m.entries[id]))
    } else {
        (m, None)
    }
}

/// A deadline elapses: the caller withdraws its own entry, and only that.
pub open spec fn cancel(m: PendingModel, id: u64) -> PendingModel {
    PendingModel { entries: m.entries.remove(id) }
}

/// The shutdown drain over a snapshot of keys: each key is removed
/// individually, tolerating keys that are already gone, and each entry
/// found is released. This is the only drain a concurrent map offers —
/// there is no atomic take-everything step.
pub open spec fn drain(m: PendingModel, keys: Seq<u64>) -> (PendingModel, Seq<(u64, nat)>)
    decreases keys.len(),
{
    if keys.len() == 0 {
        (m, Seq::empty())
    } else {
        let k = keys[0];
        if m.entries.dom().contains(k) {
            let m1 = PendingModel { entries: m.entries.remove(k) };
            let rec = drain(m1, keys.drop_first());
            (rec.0, seq![(k, m.entries[k])] + rec.1)
        } else {
            drain(m, keys.drop_first())
        }
    }
}

/// A reply whose identifier has no pending entry — already timed out,
/// never sent, or a duplicate — is discarded: nothing is delivered and no
/// entry of any other call is touched.
pub proof fn lemma_unmatched_reply_discarded(m: PendingModel, id: u64)
    requires
        !m.entries.dom().contains(id),
    ensures
        route(m, id).0 == m,
        route(m, id).1 is None,
{
}

/// Routing a matched reply delivers exactly the registered waiter,
/// removes exactly that entry, and leaves every other entry as it was.
pub proof fn lemma_route_exact(m: PendingModel, id: u64)
    requires
        m.entries.dom().contains(id),
    ensures
        route(m, id).1 == Some(m.entries[id]),
        !route(m, id).0.entries.dom().contains(id),
        forall|other: u64|
            other != id ==> #[trigger] route(m, id).0.entries.dom().contains(other)
                == m.entries.dom().contains(other),
        forall|other: u64|
            other != id && m.entries.dom().contains(other)
                ==> #[trigger] route(m, id).0.entries[other] == m.entries[other],
{
}

/// A deadline that elapses removes only its own call's entry; a reply
/// bearing that identifier arriving afterwards is discarded, and no other
/// call is affected by either step.
pub proof fn lemma_timeout_then_late_reply_discarded(m: PendingModel, id: u64)
    ensures
        !cancel(m, id).entries.dom().contains(id),
        forall|other: u64|
            other != id ==> #[trigger] cancel(m, id).entries.dom().contains(other)
                == m.entries.dom().contains(other),
        forall|other: u64|
            other != id && m.entries.dom().contains(other)
                ==> #[trigger] cancel(m, id).entries[other] == m.entries[other],
        route(cancel(m, id), id).0 == cancel(m, id),
        route(cancel(m, id), id).1 is None,
{
}

/// Draining over any snapshot of keys that covers the pending entries
/// releases every pending waiter exactly once — the released pairs are
/// exactly the table's entries, no identifier is released twice — and
/// leaves nothing pending, however the snapshot is ordered and however
/// many stale keys it carries.
pub proof fn lemma_drain_releases_every_waiter(m: PendingModel, keys: Seq<u64>)
    requires
        forall|id: u64| m.entries.dom().contains(id) ==> keys.contains(id),
    ensures
        drain(m, keys).0.entries =~= Map::<u64, nat>::empty(),
        forall|p: (u64, nat)|
            #[trigger] drain(m, keys).1.contains(p) <==> (m.entries.dom().contains(p.0)
                && m.entries[p.0] == p.1),
        forall|i: int, j: int|
            0 <= i < j < drain(m, keys).1.len() ==> #[trigger] drain(m, keys).1[i].0
                != #[trigger] drain(m, keys).1[j].0,
    decreases keys.len(),
{
    if keys.len() == 0 {
        assert forall|id: u64| !(#[trigger] m.entries.dom().contains(id)) by {
            if m.entries.dom().contains(id) {
                assert(keys.contains(id));
            }
        };
        assert(m.entries =~= Map::<u64, nat>::empty());
    } else {
        let k = keys[0];
        let rest = keys.drop_first();
        if m.entries.dom().contains(k) {
            let m1 = PendingModel { entries: m.entries.remove(k) };
            assert forall|id: u64| m1.entries.dom().contains(id) implies rest.contains(
                id,
            ) by {
                assert(keys.contains(id));
                let p = choose|p: int| 0 <= p < keys.len() && keys[p] == id;
                assert(id != k);
                assert(rest[p - 1] == id);
            };
            lemma_drain_releases_every_waiter(m1, rest);
            let rec = drain(m1, rest);
            let released = seq![(k, m.entries[k])] + rec.1;
            assert forall|p: (u64, nat)| #[trigger]
                released.contains(p) implies (m.entries.dom().contains(p.0) && m.entries[p.0]
                == p.1) by {
                let i = choose|i: int| 0 <= i < released.len() && released[i] == p;
                if i == 0 {
                } else {
                    assert(rec.1[i - 1] == p);
                    assert(rec.1.contains(p));
                }
            };
            assert forall|p: (u64, nat)|
                (m.entries.dom().contains(p.0) && m.entries[p.0] == p.1) implies #[trigger]
                released.contains(p) by {
                if p.0 == k {
                    assert(released[0] == p);
                } else {
                    assert(rec.1.contains(p));
                    let i = choose|i: int| 0 <= i < rec.1.len() && rec.1[i] == p;
                    assert(released[i + 1] == p);
                }
            };
            assert forall|i: int, j: int|
                0 <= i < j < released.len() implies #[trigger] released[i].0
                != #[trigger] released[j].0 by {
                if i == 0 {
                    assert(rec.1[j - 1] == released[j]);
                    assert(rec.1.contains(rec.1[j - 1]));
                } else {
                    assert(rec.1[i - 1] == released[i]);
                    assert(rec.1[j - 1] == released[j]);
                }
            };
        } else {
            assert forall|id: u64| m.entries.dom().contains(id) implies rest.contains(
                id,
            ) by {
                assert(keys.contains(id));
                let p = choose|p: int| 0 <= p < keys.len() && keys[p] == id;
                assert(id != k);
                assert(rest[p - 1] == id);
            };
            lemma_drain_releases_every_waiter(m, rest);
        }
    }
}

/// One step of the shutdown phase, as the table sees it: the drain
/// removing the next key of its snapshot, or a concurrent step — a
/// deadline cancelling its own entry, or a last reply being routed —
/// removing some identifier on another thread.
pub enum ShutdownStep {
    /// The drain removes the next key of its snapshot.
    DrainKey {
        /// The snapshot key the drain removes next.
        id: u64,
    },
    /// A concurrent cancellation or routing removes this identifier.
    Concurrent {
        /// The identifier the concurrent step removes.
        id: u64,
    },
}

/// Runs a shutdown phase: each step removes its identifier's entry, if
/// the table still holds one. An entry the drain removes is released —
/// its waiter's wait ends with the channel-closed error — and one a
/// concurrent step removes was delivered or timed out there; both kinds
/// tolerate an identifier that is already gone.
pub open spec fn run_shutdown(m: PendingModel, steps: Seq<ShutdownStep>) -> (
    PendingModel,
    Seq<(u64, nat)>,
    Seq<(u64, nat)>,
)
    decreases steps.len(),
{
    if steps.len() == 0 {
        (m, Seq::empty(), Seq::empty())
    } else {
        match steps[0] {
            ShutdownStep::DrainKey { id } => {
                if m.entries.dom().contains(id) {
                    let m1 = PendingModel { entries: m.entries.remove(id) };
                    let rec = run_shutdown(m1, steps.drop_first());
                    (rec.0, seq![(id, m.entries[id])] + rec.1, rec.2)
                } else {
                    run_shutdown(m, steps.drop_first())
                }
            },
            ShutdownStep::Concurrent { id } => {
                if m.entries.dom().contains(id) {
                    let m1 = PendingModel { entries: m.entries.remove(id) };
                    let rec = run_shutdown(m1, steps.drop_first());
                    (rec.0, rec.1, seq![(id, m.entries[id])] + rec.2)
                } else {
                    run_shutdown(m, steps.drop_first())
                }
            },
        }
    }
}

/// Every entry pending in `m` has a drain step for its key somewhere in
/// the phase: the snapshot was taken no earlier than the last
/// registration.
pub open spec fn snapshot_covers(m: PendingModel, steps: Seq<ShutdownStep>) -> bool {
    forall|id: u64|
        m.entries.dom().contains(id) ==> exists|i: int|
            0 <= i < steps.len() && steps[i] == (ShutdownStep::DrainKey { id })
}

/// Closing while calls are pending, with the drain racing deadline
/// cancellations and final routings in any interleaving: provided the
/// drain's snapshot covers every entry pending at the start (and nothing
/// registers anew), the phase ends with nothing pending, and every
/// starting entry is removed exactly once — released by the drain, or
/// taken by the one concurrent step that removed it — so no waiter is
/// left hanging and none is handed out twice.
pub proof fn lemma_drain_under_interference(m: PendingModel, steps: Seq<ShutdownStep>)
    requires
        snapshot_covers(m, steps),
    ensures
        run_shutdown(m, steps).0.entries =~= Map::<u64, nat>::empty(),
        forall|p: (u64, nat)|
            #![trigger run_shutdown(m, steps).1.contains(p)]
            #![trigger run_shutdown(m, steps).2.contains(p)]
            (run_shutdown(m, steps).1.contains(p) || run_shutdown(m, steps).2.contains(p)) <==> (
            m.entries.dom().contains(p.0) && m.entries[p.0] == p.1),
        forall|p: (u64, nat)|
            #[trigger] run_shutdown(m, steps).1.contains(p) ==> !run_shutdown(
                m,
                steps,
            ).2.contains(p),
        forall|i: int, j: int|
            0 <= i < j < run_shutdown(m, steps).1.len() ==> #[trigger] run_shutdown(
                m,
                steps,
            ).1[i].0 != #[trigger] run_shutdown(m, steps).1[j].0,
        forall|i: int, j: int|
            0 <= i < j < run_shutdown(m, steps).2.len() ==> #[trigger] run_shutdown(
                m,
                steps,
            ).2[i].0 != #[trigger] run_shutdown(m, steps).2[j].0,
    decreases steps.len(),
{
    if steps.len() == 0 {
        assert forall|id: u64| !(#[trigger] m.entries.dom().contains(id)) by {
            if m.entries.dom().contains(id) {
                let i = choose|i: int|
                    0 <= i < steps.len() && steps[i] == (ShutdownStep::DrainKey { id });
            }
        };
        assert(m.entries =~= Map::<u64, nat>::empty());
    } else {
        let rest = steps.drop_first();
        let step_id: u64 = match steps[0] {
            ShutdownStep::DrainKey { id } => id,
            ShutdownStep::Concurrent { id } => id,
        };
        if m.entries.dom().contains(step_id) {
            let k = step_id;
            let w = m.entries[k];
            let m1 = PendingModel { entries: m.entries.remove(k) };
            assert(snapshot_covers(m1, rest)) by {
                assert forall|id: u64| m1.entries.dom().contains(id) implies exists|i: int|
                    0 <= i < rest.len() && rest[i] == (ShutdownStep::DrainKey { id }) by {
                    assert(m.entries.dom().contains(id));
                    let i = choose|i: int|
                        0 <= i < steps.len() && steps[i] == (ShutdownStep::DrainKey { id });
                    assert(i >= 1) by {
                        if i == 0 {
                            assert(id == k);
                        }
                    };
                    assert(rest[i - 1] == (ShutdownStep::DrainKey { id }));
                };
            };
            lemma_drain_under_interference(m1, rest);
            let rec = run_shutdown(m1, rest);
            lemma_shutdown_extend(m, k, w, rec.1, rec.2, m1);
            let grown_rel = seq![(k, w)] + rec.1;
            let grown_taken = seq![(k, w)] + rec.2;
            assert forall|i: int, j: int|
                0 <= i < j < grown_rel.len() implies #[trigger] grown_rel[i].0
                != #[trigger] grown_rel[j].0 by {
                if i == 0 {
                    assert(grown_rel[j] == rec.1[j - 1]);
                } else {
                    assert(grown_rel[i] == rec.1[i - 1]);
                    assert(grown_rel[j] == rec.1[j - 1]);
                }
            };
            assert forall|i: int, j: int|
                0 <= i < j < grown_taken.len() implies #[trigger] grown_taken[i].0
                != #[trigger] grown_taken[j].0 by {
                if i == 0 {
                    assert(grown_taken[j] == rec.2[j - 1]);
                } else {
                    assert(grown_taken[i] == rec.2[i - 1]);
                    assert(grown_taken[j] == rec.2[j - 1]);
                }
            };
            match steps[0] {
                ShutdownStep::DrainKey { .. } => {
                    assert(run_shutdown(m, steps).1 == grown_rel);
                    assert(run_shutdown(m, steps).2 == rec.2);
                    assert forall|p: (u64, nat)|
                        #[trigger] run_shutdown(m, steps).1.contains(p) implies !run_shutdown(
                        m,
                        steps,
                    ).2.contains(p) by {
                        if p == (k, w) {
                        } else {
                            assert(rec.1.contains(p));
                        }
                    };
                },
                ShutdownStep::Concurrent { .. } => {
                    assert(run_shutdown(m, steps).1 == rec.1);
                    assert(run_shutdown(m, steps).2 == grown_taken);
                    assert forall|p: (u64, nat)|
                        #[trigger] run_shutdown(m, steps).1.contains(p) implies !run_shutdown(
                        m,
                        steps,
                    ).2.contains(p) by {
                        if run_shutdown(m, steps).2.contains(p) {
                            assert(p == (k, w) || rec.2.contains(p));
                        }
                    };
                },
            }
        } else {
            assert(snapshot_covers(m, rest)) by {
                assert forall|id: u64| m.entries.dom().contains(id) implies exists|i: int|
                    0 <= i < rest.len() && rest[i] == (ShutdownStep::DrainKey { id }) by {
                    let i = choose|i: int|
                        0 <= i < steps.len() && steps[i] == (ShutdownStep::DrainKey { id });
                    assert(i >= 1) by {
                        if i == 0 {
                            assert(id == step_id);
                        }
                    };
                    assert(rest[i - 1] == (ShutdownStep::DrainKey { id }));
                };
            };
            lemma_drain_under_interference(m, rest);
        }
    }
}

// One removal prepended to an already-accounted-for tail: however the
// entry for `k` left — released or taken — the combined accounts still
// cover the bigger table exactly, and `k` appears in neither tail.
proof fn lemma_shutdown_extend(
    m: PendingModel,
    k: u64,
    w: nat,
    rel: Seq<(u64, nat)>,
    taken: Seq<(u64, nat)>,
    m1: PendingModel,
)
    requires
        m.entries.dom().contains(k),
        w == m.entries[k],
        m1.entries == m.entries.remove(k),
        forall|p: (u64, nat)|
            #![trigger rel.contains(p)]
            #![trigger taken.contains(p)]
            (rel.contains(p) || taken.contains(p)) <==> (m1.entries.dom().contains(p.0)
                && m1.entries[p.0] == p.1),
    ensures
        forall|p: (u64, nat)|
            #![trigger (seq![(k, w)] + rel).contains(p)]
            #![trigger taken.contains(p)]
            ((seq![(k, w)] + rel).contains(p) || taken.contains(p)) <==> (
            m.entries.dom().contains(p.0) && m.entries[p.0] == p.1),
        forall|p: (u64, nat)|
            #![trigger rel.contains(p)]
            #![trigger (seq![(k, w)] + taken).contains(p)]
            (rel.contains(p) || (seq![(k, w)] + taken).contains(p)) <==> (
            m.entries.dom().contains(p.0) && m.entries[p.0] == p.1),
        !rel.contains((k, w)) && !taken.contains((k, w)),
        forall|i: int|
            0 <= i < rel.len() ==> (#[trigger] rel[i]).0 != k,
        forall|i: int|
            0 <= i < taken.len() ==> (#[trigger] taken[i]).0 != k,
        forall|p: (u64, nat)|
            #[trigger] (seq![(k, w)] + rel).contains(p) ==> (p == (k, w) || rel.contains(p)),
        forall|p: (u64, nat)|
            #[trigger] (seq![(k, w)] + taken).contains(p) ==> (p == (k, w) || taken.contains(p)),
{
    assert forall|p: (u64, nat)|
        #![trigger (seq![(k, w)] + rel).contains(p)]
        #![trigger taken.contains(p)]
        ((seq![(k, w)] + rel).contains(p) || taken.contains(p)) implies (
        m.entries.dom().contains(p.0) && m.entries[p.0] == p.1) by {
        if (seq![(k, w)] + rel).contains(p) {
            let i = choose|i: int|
                0 <= i < (seq![(k, w)] + rel).len() && (seq![(k, w)] + rel)[i] == p;
            if i == 0 {
                assert(seq![(k, w)][0] == (k, w));
                assert((seq![(k, w)] + rel)[0] == (k, w));
                assert(p == (k, w));
            } else {
                assert(rel[i - 1] == p);
                assert(rel.contains(p));
                assert(m1.entries.dom().contains(p.0) && m1.entries[p.0] == p.1);
            }
        } else {
            assert(taken.contains(p));
            assert(m1.entries.dom().contains(p.0) && m1.entries[p.0] == p.1);
        }
        assert(m.entries.dom().contains(p.0) && m.entries[p.0] == p.1);
    };
    assert forall|p: (u64, nat)|
        #![trigger (seq![(k, w)] + rel).contains(p)]
        #![trigger taken.contains(p)]
        (m.entries.dom().contains(p.0) && m.entries[p.0] == p.1) implies ((seq![(k, w)]
        + rel).contains(p) || taken.contains(p)) by {
        if p.0 == k {
            assert((seq![(k, w)] + rel)[0] == p);
        } else {
            assert(rel.contains(p) || taken.contains(p));
            if rel.contains(p) {
                let i = choose|i: int| 0 <= i < rel.len() && rel[i] == p;
                assert((seq![(k, w)] + rel)[i + 1] == p);
            }
        }
    };
    assert forall|p: (u64, nat)|
        #![trigger rel.contains(p)]
        #![trigger (seq![(k, w)] + taken).contains(p)]
        (rel.contains(p) || (seq![(k, w)] + taken).contains(p)) implies (
        m.entries.dom().contains(p.0) && m.entries[p.0] == p.1) by {
        if (seq![(k, w)] + taken).contains(p) {
            let i = choose|i: int|
                0 <= i < (seq![(k, w)] + taken).len() && (seq![(k, w)] + taken)[i] == p;
            if i == 0 {
                assert(seq![(k, w)][0] == (k, w));
                assert((seq![(k, w)] + taken)[0] == (k, w));
                assert(p == (k, w));
            } else {
                assert(taken[i - 1] == p);
                assert(taken.contains(p));
                assert(m1.entries.dom().contains(p.0) && m1.entries[p.0] == p.1);
            }
        } else {
            assert(rel.contains(p));
            assert(m1.entries.dom().contains(p.0) && m1.entries[p.0] == p.1);
        }
        assert(m.entries.dom().contains(p.0) && m.entries[p.0] == p.1);
    };
    assert forall|p: (u64, nat)|
        #![trigger rel.contains(p)]
        #![trigger (seq![(k, w)] + taken).contains(p)]
        (m.entries.dom().contains(p.0) && m.entries[p.0] == p.1) implies (rel.contains(p) || (
        seq![(k, w)] + taken).contains(p)) by {
        if p.0 == k {
            assert((seq![(k, w)] + taken)[0] == p);
        } else {
            assert(rel.contains(p) || taken.contains(p));
            if taken.contains(p) {
                let i = choose|i: int| 0 <= i < taken.len() && taken[i] == p;
                assert((seq![(k, w)] + taken)[i + 1] == p);
            }
        }
    };
    assert forall|i: int| 0 <= i < rel.len() implies (#[trigger] rel[i]).0 != k by {
        assert(rel.contains(rel[i]));
    };
    assert forall|i: int| 0 <= i < taken.len() implies (#[trigger] taken[i]).0 != k by {
        assert(taken.contains(taken[i]));
    };
    assert forall|p: (u64, nat)|
        #[trigger] (seq![(k, w)] + rel).contains(p) implies (p == (k, w) || rel.contains(p)) by {
        let i = choose|i: int| 0 <= i < (seq![(k, w)] + rel).len() && (seq![(k, w)] + rel)[i] == p;
        if i > 0 {
            assert(rel[i - 1] == p);
            assert(rel.contains(p));
        }
    };
    assert forall|p: (u64, nat)|
        #[trigger] (seq![(k, w)] + taken).contains(p) implies (p == (k, w) || taken.contains(
            p,
        )) by {
        let i = choose|i: int|
            0 <= i < (seq![(k, w)] + taken).len() && (seq![(k, w)] + taken)[i] == p;
        if i > 0 {
            assert(taken[i - 1] == p);
            assert(taken.contains(p));
        }
    };
}

/// One observable step of the multiplexer, as seen by the table.
pub enum MuxEvent {
    /// A caller registers its waiter under its request's identifier.
    Register {
        /// The request's correlation identifier.
        id: u64,
        /// The registering caller's waiter.
        waiter: nat,
    },
    /// A reply bearing this identifier arrives from the transport.
    Arrive {
        /// The reply's correlation identifier.
        id: u64,
    },
    /// A deadline elapses and the caller withdraws this identifier.
    Cancel {
        /// The withdrawn correlation identifier.
        id: u64,
    },
}

/// The outcome of running a sequence of events against a table: the final
/// table, and each delivery made, as the pair of the reply's identifier
/// and the waiter it was handed to.
pub struct RunModel {
    /// The table after all events.
    pub table: PendingModel,
    /// Every delivery made, in order.
    pub deliveries: Seq<(u64, nat)>,
}

/// Runs a sequence of events against a starting table, collecting the
/// deliveries that routing makes.
pub open spec fn run_from(m: PendingModel, events: Seq<MuxEvent>) -> RunModel
    decreases events.len(),
{
    if events.len() == 0 {
        RunModel { table: m, deliveries: Seq::empty() }
    } else {
        match events[0] {
            MuxEvent::Register { id, waiter } => run_from(
                register(m, id, waiter),
                events.drop_first(),
            ),
            MuxEvent::Arrive { id } => {
                let stepped = route(m, id);
                let rec = run_from(stepped.0, events.drop_first());
                match stepped.1 {
                    Some(w) => RunModel {
                        table: rec.table,
                        deliveries: seq![(id, w)] + rec.deliveries,
                    },
                    None => rec,
                }
            },
            MuxEvent::Cancel { id } => run_from(cancel(m, id), events.drop_first()),
        }
    }
}

/// No two registrations in the events share an identifier.
pub open spec fn distinct_register_ids(events: Seq<MuxEvent>) -> bool {
    forall|i: int, j: int|
        0 <= i < j < events.len() && #[trigger] events[i] is Register && #[trigger] events[j]
            is Register ==> events[i]->Register_id != events[j]->Register_id
}

/// Some event registers this waiter under this identifier.
pub open spec fn registered(events: Seq<MuxEvent>, id: u64, w: nat) -> bool {
    exists|i: int|
        0 <= i < events.len() && #[trigger] events[i] == (MuxEvent::Register { id, waiter: w })
}

/// No event registers an identifier that the table already holds.
pub open spec fn ids_fresh(m: PendingModel, events: Seq<MuxEvent>) -> bool {
    forall|i: int|
        0 <= i < events.len() && #[trigger] events[i] is Register ==> !m.entries.dom().contains(
            events[i]->Register_id,
        )
}

proof fn lemma_distinct_drop_first(events: Seq<MuxEvent>)
    requires
        events.len() > 0,
        distinct_register_ids(events),
    ensures
        distinct_register_ids(events.drop_first()),
{
    let rest = events.drop_first();
    assert forall|i: int, j: int|
        0 <= i < j < rest.len() && #[trigger] rest[i] is Register && #[trigger] rest[j]
            is Register implies rest[i]->Register_id != rest[j]->Register_id by {
        assert(events[i + 1] == rest[i]);
        assert(events[j + 1] == rest[j]);
    };
}

proof fn lemma_registered_shift(events: Seq<MuxEvent>, id: u64, w: nat)
    requires
        events.len() > 0,
        registered(events.drop_first(), id, w),
    ensures
        registered(events, id, w),
{
    let rest = events.drop_first();
    let i = choose|i: int|
        0 <= i < rest.len() && #[trigger] rest[i] == (MuxEvent::Register { id, waiter: w });
    assert(events[i + 1] == (MuxEvent::Register { id, waiter: w }));
}

proof fn lemma_ids_fresh_sub(m: PendingModel, sub: PendingModel, events: Seq<MuxEvent>)
    requires
        ids_fresh(m, events),
        forall|id: u64| sub.entries.dom().contains(id) ==> m.entries.dom().contains(id),
    ensures
        ids_fresh(sub, events),
{
}

proof fn lemma_run_from_routes_exactly(m: PendingModel, events: Seq<MuxEvent>)
    requires
        distinct_register_ids(events),
        ids_fresh(m, events),
    ensures
        ({
            let r = run_from(m, events);
            &&& forall|k: int|
                0 <= k < r.deliveries.len() ==> (m.entries.dom().contains(
                    #[trigger] r.deliveries[k].0,
                ) && m.entries[r.deliveries[k].0] == r.deliveries[k].1) || registered(
                    events,
                    r.deliveries[k].0,
                    r.deliveries[k].1,
                )
            &&& forall|k1: int, k2: int|
                0 <= k1 < k2 < r.deliveries.len() ==> #[trigger] r.deliveries[k1].0
                    != #[trigger] r.deliveries[k2].0
        }),
    decreases events.len(),
{
    if events.len() == 0 {
    } else {
        let rest = events.drop_first();
        lemma_distinct_drop_first(events);
        let r = run_from(m, events);
        match events[0] {
            MuxEvent::Register { id, waiter } => {
                let m1 = register(m, id, waiter);
                assert(ids_fresh(m1, rest)) by {
                    assert forall|i: int|
                        0 <= i < rest.len() && #[trigger] rest[i] is Register implies !m1
                        .entries.dom().contains(rest[i]->Register_id) by {
                        assert(events[i + 1] == rest[i]);
                        assert(events[0] is Register && events[i + 1] is Register);
                        assert(rest[i]->Register_id != id);
                    };
                };
                lemma_run_from_routes_exactly(m1, rest);
                let rr = run_from(m1, rest);
                assert forall|k: int|
                    0 <= k < r.deliveries.len() implies (m.entries.dom().contains(
                    #[trigger] r.deliveries[k].0,
                ) && m.entries[r.deliveries[k].0] == r.deliveries[k].1) || registered(
                    events,
                    r.deliveries[k].0,
                    r.deliveries[k].1,
                ) by {
                    let did = rr.deliveries[k].0;
                    let dw = rr.deliveries[k].1;
                    if m1.entries.dom().contains(did) && m1.entries[did] == dw {
                        if did == id {
                            assert(events[0] == (MuxEvent::Register { id, waiter: dw }));
                            assert(registered(events, did, dw));
                        }
                    } else {
                        lemma_registered_shift(events, did, dw);
                    }
                };
            },
            MuxEvent::Arrive { id } => {
                let stepped = route(m, id);
                let m1 = stepped.0;
                lemma_ids_fresh_sub(m, m1, rest);
                lemma_run_from_routes_exactly(m1, rest);
                let rr = run_from(m1, rest);
                if m.entries.dom().contains(id) {
                    let w = m.entries[id];
                    assert(r.deliveries == seq![(id, w)] + rr.deliveries);
                    assert forall|k: int|
                        0 <= k < r.deliveries.len() implies (m.entries.dom().contains(
                        #[trigger] r.deliveries[k].0,
                    ) && m.entries[r.deliveries[k].0] == r.deliveries[k].1) || registered(
                        events,
                        r.deliveries[k].0,
                        r.deliveries[k].1,
                    ) by {
                        if k == 0 {
                            assert(r.deliveries[0] == (id, w));
                        } else {
                            assert(r.deliveries[k] == rr.deliveries[k - 1]);
                            let did = rr.deliveries[k - 1].0;
                            let dw = rr.deliveries[k - 1].1;
                            if m1.entries.dom().contains(did) && m1.entries[did] == dw {
                            } else {
                                lemma_registered_shift(events, did, dw);
                            }
                        }
                    };
                    assert forall|k1: int, k2: int|
                        0 <= k1 < k2 < r.deliveries.len() implies #[trigger] r.deliveries[k1].0
                        != #[trigger] r.deliveries[k2].0 by {
                        if k1 == 0 {
                            let did = rr.deliveries[k2 - 1].0;
                            let dw = rr.deliveries[k2 - 1].1;
                            assert(r.deliveries[k2] == rr.deliveries[k2 - 1]);
                            if m1.entries.dom().contains(did) && m1.entries[did] == dw {
                                assert(did != id);
                            } else {
                                if did == id {
                                    let i = choose|i: int|
                                        0 <= i < rest.len() && #[trigger] rest[i]
                                            == (MuxEvent::Register { id: did, waiter: dw });
                                    assert(events[i + 1] == rest[i]);
                                    assert(events[i + 1] is Register);
                                    assert(!m.entries.dom().contains(id));
                                    assert(false);
                                }
                            }
                        } else {
                            assert(r.deliveries[k1] == rr.deliveries[k1 - 1]);
                            assert(r.deliveries[k2] == rr.deliveries[k2 - 1]);
                        }
                    };
                } else {
                    assert(r.deliveries == rr.deliveries);
                    assert forall|k: int|
                        0 <= k < r.deliveries.len() implies (m.entries.dom().contains(
                        #[trigger] r.deliveries[k].0,
                    ) && m.entries[r.deliveries[k].0] == r.deliveries[k].1) || registered(
                        events,
                        r.deliveries[k].0,
                        r.deliveries[k].1,
                    ) by {
                        let did = rr.deliveries[k].0;
                        let dw = rr.deliveries[k].1;
                        if m1.entries.dom().contains(did) && m1.entries[did] == dw {
                        } else {
                            lemma_registered_shift(events, did, dw);
                        }
                    };
                }
            },
            MuxEvent::Cancel { id } => {
                let m1 = cancel(m, id);
                lemma_ids_fresh_sub(m, m1, rest);
                lemma_run_from_routes_exactly(m1, rest);
                let rr = run_from(m1, rest);
                assert forall|k: int|
                    0 <= k < r.deliveries.len() implies (m.entries.dom().contains(
                    #[trigger] r.deliveries[k].0,
                ) && m.entries[r.deliveries[k].0] == r.deliveries[k].1) || registered(
                    events,
                    r.deliveries[k].0,
                    r.deliveries[k].1,
                ) by {
                    let did = rr.deliveries[k].0;
                    let dw = rr.deliveries[k].1;
                    if m1.entries.dom().contains(did) && m1.entries[did] == dw {
                    } else {
                        lemma_registered_shift(events, did, dw);
                    }
                };
            },
        }
    }
}

/// For any interleaving of concurrently issued calls with distinct
/// identifiers — registrations, arrivals in any order, and cancellations —
/// every delivery hands a waiter exactly the reply whose identifier that
/// waiter registered, and no identifier is delivered twice.
pub proof fn lemma_each_delivery_matches_its_registration(events: Seq<MuxEvent>)
    requires
        distinct_register_ids(events),
    ensures
        ({
            let r = run_from(empty_table(), events);
            &&& forall|k: int|
                0 <= k < r.deliveries.len() ==> registered(
                    events,
                    #[trigger] r.deliveries[k].0,
                    r.deliveries[k].1,
                )
            &&& forall|k1: int, k2: int|
                0 <= k1 < k2 < r.deliveries.len() ==> #[trigger] r.deliveries[k1].0
                    != #[trigger] r.deliveries[k2].0
        }),
{
    lemma_run_from_routes_exactly(empty_table(), events);
}

} // verus!
