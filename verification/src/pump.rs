//! The relay pump: forwarding rules for a paired session.
//!
//! Once two connections are paired, both are switched to raw passthrough and
//! the pump copies bytes between them. The driver waits for readiness on
//! either leg and hands each arrival to `relay_step` as an event; the
//! returned action tells it what to write where, or to shut the session
//! down. The pump never inspects, re-frames or retries anything: data from
//! one side is forwarded verbatim to the other, and the first end-of-stream
//! or error on either leg ends the whole session, both legs closed.
//!
//! `pump_run` is the mathematical account of a whole session — the fold of
//! `relay_step`'s specification over the event sequence — and the proof
//! functions at the bottom state the streaming laws over it.

use vstd::prelude::*;

verus! {

/// One leg of an established relay session.
#[derive(PartialEq, Eq, Structural, Clone, Copy, Debug)]
pub enum Side {
    A,
    B,
}

impl Side {
    /// The other leg.
    pub open spec fn flip(self) -> Side {
        match self {
            Side::A => Side::B,
            Side::B => Side::A,
        }
    }

    /// The other leg, executably.
    pub fn opposite(self) -> (r: Side)
        ensures
            r == self.flip(),
    {
        match self {
            Side::A => Side::B,
            Side::B => Side::A,
        }
    }
}

/// What the driver observed on the session: bytes arrived on one leg, or one
/// leg reached end-of-stream or failed (the two are treated identically).
pub enum PumpEvent {
    Data(Side, Vec<u8>),
    Closed(Side),
}

/// What the driver must do next: write these bytes to the named leg, or end
/// the session and close both legs.
pub enum PumpAction {
    Forward(Side, Vec<u8>),
    Shutdown,
}

/// The action a running pump takes on one event: data is forwarded verbatim
/// to the opposite leg; a close on either leg shuts the session down.
pub open spec fn action_of(ev: PumpEvent) -> PumpAction {
    match ev {
        PumpEvent::Data(src, bytes) => PumpAction::Forward(src.flip(), bytes),
        PumpEvent::Closed(_) => PumpAction::Shutdown,
    }
}

/// One step of the pump. The returned action carries the very vector that
/// arrived: no truncation, no copy, no interpretation.
pub fn relay_step(ev: PumpEvent) -> (a: PumpAction)
    ensures
        a == action_of(ev),
{
    match ev {
        PumpEvent::Data(src, bytes) => PumpAction::Forward(src.opposite(), bytes),
        PumpEvent::Closed(_) => PumpAction::Shutdown,
    }
}

/// The actions a whole session performs on a sequence of events: one
/// `action_of` per event, stopping at the first close — events after it are
/// never processed, because the session is already torn down.
pub open spec fn pump_run(evs: Seq<PumpEvent>) -> Seq<PumpAction>
    decreases evs.len(),
{
    if evs.len() == 0 {
        Seq::empty()
    } else {
        match evs.first() {
            PumpEvent::Closed(_) => seq![PumpAction::Shutdown],
            PumpEvent::Data(_, _) => seq![action_of(evs.first())] + pump_run(evs.drop_first()),
        }
    }
}

/// The bytes one side sent while the session was alive: the concatenation,
/// in arrival order, of its data payloads before the first close.
pub open spec fn sent_from(evs: Seq<PumpEvent>, src: Side) -> Seq<u8>
    decreases evs.len(),
{
    if evs.len() == 0 {
        Seq::empty()
    } else {
        match evs.first() {
            PumpEvent::Closed(_) => Seq::empty(),
            PumpEvent::Data(s, bytes) => (if s == src {
                bytes@
            } else {
                Seq::<u8>::empty()
            }) + sent_from(evs.drop_first(), src),
        }
    }
}

/// The bytes the pump's actions deliver to one side: the concatenation, in
/// order, of the payloads forwarded to it.
pub open spec fn delivered_to(acts: Seq<PumpAction>, dest: Side) -> Seq<u8>
    decreases acts.len(),
{
    if acts.len() == 0 {
        Seq::empty()
    } else {
        (match acts.first() {
            PumpAction::Forward(d, bytes) => if d == dest {
                bytes@
            } else {
                Seq::<u8>::empty()
            },
            PumpAction::Shutdown => Seq::<u8>::empty(),
        }) + delivered_to(acts.drop_first(), dest)
    }
}

/// Byte-exact relay: over any session, each side receives exactly the bytes
/// the other side sent — identical content, identical order, nothing
/// truncated, duplicated or reordered.
pub proof fn lemma_byte_exact_relay(evs: Seq<PumpEvent>, dest: Side)
    ensures
        delivered_to(pump_run(evs), dest) == sent_from(evs, dest.flip()),
    decreases evs.len(),
{
    if evs.len() == 0 {
    } else {
        match evs.first() {
            PumpEvent::Closed(_) => {
                assert(pump_run(evs) == seq![PumpAction::Shutdown]);
                assert(delivered_to(seq![PumpAction::Shutdown], dest)
                    == Seq::<u8>::empty() + delivered_to(seq![PumpAction::Shutdown].drop_first(), dest));
                assert(seq![PumpAction::Shutdown].drop_first() =~= Seq::<PumpAction>::empty());
            },
            PumpEvent::Data(s, bytes) => {
                lemma_byte_exact_relay(evs.drop_first(), dest);
                let head = action_of(evs.first());
                let run = seq![head] + pump_run(evs.drop_first());
                assert(pump_run(evs) == run);
                assert(run.first() == head);
                assert(run.drop_first() =~= pump_run(evs.drop_first()));
                assert(s.flip() == dest <==> s == dest.flip());
            },
        }
    }
}

/// Clean teardown: the first close on either leg stops the pump at once.
/// The session's actions are exactly the forwards of the data that preceded
/// the close, followed by one shutdown — nothing is forwarded afterwards.
pub proof fn lemma_clean_teardown(evs: Seq<PumpEvent>, i: int)
    requires
        0 <= i < evs.len(),
        evs[i] is Closed,
        forall|j: int| 0 <= j < i ==> evs[j] is Data,
    ensures
        pump_run(evs) == pump_run(evs.take(i)).push(PumpAction::Shutdown),
        pump_run(evs).len() == i + 1,
        pump_run(evs).last() == PumpAction::Shutdown,
        forall|j: int| 0 <= j < i ==> pump_run(evs)[j] is Forward,
    decreases evs.len(),
{
    if i == 0 {
        assert(evs.first() is Closed);
        assert(pump_run(evs) == seq![PumpAction::Shutdown]);
        assert(evs.take(0) =~= Seq::<PumpEvent>::empty());
        assert(pump_run(evs.take(0)).push(PumpAction::Shutdown) =~= seq![PumpAction::Shutdown]);
    } else {
        assert(evs[0] is Data);
        let head = action_of(evs.first());
        assert(head is Forward);
        let rest = evs.drop_first();
        assert(rest[i - 1] is Closed);
        assert(forall|j: int| 0 <= j < i - 1 ==> rest[j] is Data);
        lemma_clean_teardown(rest, i - 1);
        assert(pump_run(evs) == seq![head] + pump_run(rest));
        assert(evs.take(i).first() == evs.first());
        assert(evs.take(i).drop_first() =~= rest.take(i - 1));
        assert(pump_run(evs.take(i)) == seq![head] + pump_run(rest.take(i - 1)));
        assert(pump_run(evs) =~= pump_run(evs.take(i)).push(PumpAction::Shutdown));
        assert forall|j: int| 0 <= j < i implies pump_run(evs)[j] is Forward by {
            if j > 0 {
                assert(pump_run(evs)[j] == pump_run(rest)[j - 1]);
            }
        }
    }
}

} // verus!
