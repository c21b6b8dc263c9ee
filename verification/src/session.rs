//! The per-connection session supervisor.
//!
//! Each accepted connection is driven by one supervisor, which sequences:
//! read one framed control message (bounded by the handshake timeout), check
//! it semantically, then take the pairing table's atomic claim-or-insert
//! step. The supervisor either becomes the claiming side and starts the
//! relay, or registers as the waiter; a waiter that is never claimed purges
//! its own entry when the pairing window elapses.
//!
//! The driver performs the reads, the sleeps and the closes; every decision
//! stands here with a contract. The spec functions `pairing_step` and
//! `pairing_table_after` give the mathematical account of one arrival's
//! effect, and the proof functions at the bottom state the pairing laws over
//! them.

use vstd::prelude::*;
use crate::request::{RelayRequest, request_admitted};
use crate::table::{PairingTable, Waiter};

verus! {

/// What the handshake read produced. A timeout, an unparseable frame and a
/// control message of the wrong kind are deliberately indistinguishable
/// here: every such failure is handled identically (silent close), so the
/// decoder collapses them all into `NoValidMessage`.
pub enum HandshakeOutcome {
    NoValidMessage,
    Request(RelayRequest),
}

/// The decision a supervisor's handshake yields; it tells the driver what to
/// do with the connection.
#[derive(PartialEq, Eq, Structural, Clone, Copy, Debug)]
pub enum SessionStep {
    /// Close the connection silently, sending nothing.
    Reject,
    /// The connection is registered in the table; hold it until claimed or
    /// until the pairing window elapses.
    Wait,
    /// A waiter for the same token was claimed; start the relay pump between
    /// this connection and `peer`.
    Relay { peer: u64 },
}

/// A supervisor's position in its lifecycle.
pub enum SessionState {
    /// Fresh connection; its one control message has not been read yet.
    AwaitingHandshake,
    /// Registered in the table under `token`, waiting to be claimed.
    WaitingForPeer { token: String },
    /// Paired; the relay pump is forwarding between this connection and `peer`.
    Relaying { peer: u64 },
    /// Handshake failed; the connection was closed with no response.
    Rejected,
    /// Lifecycle over: claimed by a partner, purged on timeout, or relay done.
    Closed,
}

/// Whether the handshake outcome is a relay request the server admits.
pub open spec fn outcome_admitted(outcome: HandshakeOutcome, server_key: Seq<char>) -> bool {
    match outcome {
        HandshakeOutcome::NoValidMessage => false,
        HandshakeOutcome::Request(req) => request_admitted(
            req.token@,
            req.presented_key@,
            server_key,
        ),
    }
}

/// The token an admitted outcome carries.
pub open spec fn outcome_token(outcome: HandshakeOutcome) -> Seq<char> {
    match outcome {
        HandshakeOutcome::NoValidMessage => Seq::empty(),
        HandshakeOutcome::Request(req) => req.token@,
    }
}

/// The decision an admitted arrival for `token` obtains against table `m`:
/// claim the waiter if one is registered, otherwise become the waiter.
pub open spec fn pairing_step(m: Map<Seq<char>, Waiter>, token: Seq<char>) -> SessionStep {
    if m.contains_key(token) {
        SessionStep::Relay { peer: m[token].conn }
    } else {
        SessionStep::Wait
    }
}

/// The table an admitted arrival for `token` leaves behind: the claimed
/// entry removed, or the arrival itself inserted.
pub open spec fn pairing_table_after(
    m: Map<Seq<char>, Waiter>,
    token: Seq<char>,
    conn: u64,
    now: u64,
) -> Map<Seq<char>, Waiter> {
    if m.contains_key(token) {
        m.remove(token)
    } else {
        m.insert(token, Waiter { conn, inserted_at: now })
    }
}

/// The token recorded in a waiting state; empty for every other state.
pub open spec fn waiting_token(state: SessionState) -> Seq<char> {
    match state {
        SessionState::WaitingForPeer { token } => token@,
        _ => Seq::empty(),
    }
}

/// One supervisor: the unit of work for one accepted connection.
pub struct Supervisor {
    /// Handle the driver uses to address this supervisor's connection.
    pub conn: u64,
    pub state: SessionState,
}

impl Supervisor {
    /// A supervisor for a freshly accepted connection.
    pub fn new(conn: u64) -> (s: Self)
        ensures
            s.conn == conn,
            s.state is AwaitingHandshake,
    {
        Supervisor { conn, state: SessionState::AwaitingHandshake }
    }

    /// The whole handshake decision: semantic validation followed by the
    /// table's atomic claim-or-insert. A rejection of any cause leaves the
    /// table untouched and directs a silent close; an admitted request takes
    /// exactly one `pairing_step` against the table.
    pub fn handle_handshake(
        &mut self,
        table: &mut PairingTable,
        outcome: HandshakeOutcome,
        now: u64,
        server_key: &String,
    ) -> (r: SessionStep)
        requires
            old(self).state is AwaitingHandshake,
            old(table).wf(),
        ensures
            final(table).wf(),
            final(self).conn == old(self).conn,
            !outcome_admitted(outcome, server_key@) ==> {
                &&& r is Reject
                &&& final(self).state is Rejected
                &&& final(table)@ == old(table)@
            },
            outcome_admitted(outcome, server_key@) ==> {
                &&& r == pairing_step(old(table)@, outcome_token(outcome))
                &&& final(table)@ == pairing_table_after(
                    old(table)@,
                    outcome_token(outcome),
                    old(self).conn,
                    now,
                )
                &&& match final(self).state {
                    SessionState::WaitingForPeer { token } => r is Wait
                        && token@ == outcome_token(outcome),
                    SessionState::Relaying { peer } => r == (SessionStep::Relay { peer }),
                    _ => false,
                }
            },
    {
        match outcome {
            HandshakeOutcome::NoValidMessage => {
                self.state = SessionState::Rejected;
                SessionStep::Reject
            },
            HandshakeOutcome::Request(req) => {
                if !req.admitted(server_key) {
                    self.state = SessionState::Rejected;
                    SessionStep::Reject
                } else {
                    let token_copy = req.token.clone();
                    match table.claim_or_insert(req.token, self.conn, now) {
                        Some(peer) => {
                            self.state = SessionState::Relaying { peer };
                            SessionStep::Relay { peer }
                        },
                        None => {
                            self.state = SessionState::WaitingForPeer { token: token_copy };
                            SessionStep::Wait
                        },
                    }
                }
            },
        }
    }

    /// A waiting supervisor learns that a later arrival claimed its entry:
    /// ownership of the connection has transferred to the claimant, so this
    /// task ends without touching the connection or the table.
    pub fn on_claimed(&mut self)
        requires
            old(self).state is WaitingForPeer,
        ensures
            final(self).state is Closed,
            final(self).conn == old(self).conn,
    {
        self.state = SessionState::Closed;
    }

    /// The pairing window elapsed with no claim: purge this supervisor's own
    /// entry — and only its own. The purge removes the entry for the waited
    /// token only when that entry still records this supervisor's connection;
    /// if the entry was claimed, or claimed and then re-registered by a later
    /// arrival, the table is left untouched, so a newcomer's live
    /// registration is never evicted by a stale deadline. The returned
    /// handle, if any, is this supervisor's own connection, which the driver
    /// must now close; `None` means ownership has passed to a claimant.
    pub fn on_wait_timeout(&mut self, table: &mut PairingTable) -> (r: Option<u64>)
        requires
            old(self).state is WaitingForPeer,
            old(table).wf(),
        ensures
            final(table).wf(),
            final(self).state is Closed,
            final(self).conn == old(self).conn,
            ({
                let t = waiting_token(old(self).state);
                match r {
                    Some(conn) => {
                        &&& old(table)@.contains_key(t)
                        &&& old(table)@[t].conn == old(self).conn
                        &&& conn == old(self).conn
                        &&& final(table)@ == old(table)@.remove(t)
                    },
                    None => {
                        &&& !(old(table)@.contains_key(t) && old(table)@[t].conn == old(self).conn)
                        &&& final(table)@ == old(table)@
                    },
                }
            }),
    {
        let token = match &self.state {
            SessionState::WaitingForPeer { token } => token.clone(),
            _ => vstd::pervasive::unreached(),
        };
        let r = table.remove_if_present(&token, self.conn);
        self.state = SessionState::Closed;
        r
    }

    /// The relay pump reported termination: both legs are closed by the
    /// driver and this supervisor's lifecycle ends.
    pub fn on_relay_end(&mut self)
        requires
            old(self).state is Relaying,
        ensures
            final(self).state is Closed,
            final(self).conn == old(self).conn,
    {
        self.state = SessionState::Closed;
    }
}

/// Exactly-once pairing: on a table with no waiter for `token`, the first
/// admitted arrival registers (it does not pair), and the second pairs with
/// exactly the first — the earlier connection is the claimed leg, the later
/// one the claimer — after which the entry is gone and the table is exactly
/// what it was before either arrived.
pub proof fn lemma_exactly_once_pairing(
    m: Map<Seq<char>, Waiter>,
    token: Seq<char>,
    first_conn: u64,
    second_conn: u64,
    t1: u64,
    t2: u64,
)
    requires
        !m.contains_key(token),
    ensures
        pairing_step(m, token) == SessionStep::Wait,
        pairing_step(pairing_table_after(m, token, first_conn, t1), token)
            == (SessionStep::Relay { peer: first_conn }),
        pairing_table_after(
            pairing_table_after(m, token, first_conn, t1),
            token,
            second_conn,
            t2,
        ) == m,
{
    let m1 = pairing_table_after(m, token, first_conn, t1);
    assert(m1 == m.insert(token, Waiter { conn: first_conn, inserted_at: t1 }));
    assert(m1.remove(token) =~= m);
}

/// No double pairing: once a waiter has been claimed, the very next admitted
/// arrival for the same token finds no entry and registers anew — the claimed
/// connection is never handed out a second time.
pub proof fn lemma_no_double_pairing(m: Map<Seq<char>, Waiter>, token: Seq<char>, second_conn: u64, t2: u64)
    requires
        m.contains_key(token),
    ensures
        pairing_step(m, token) == (SessionStep::Relay { peer: m[token].conn }),
        pairing_step(pairing_table_after(m, token, second_conn, t2), token) == SessionStep::Wait,
{
}

/// Timeout purge: after a waiter's entry is removed on expiry, a later
/// arrival with the same token starts a fresh wait — it registers itself
/// rather than pairing with the stale, already-closed connection.
pub proof fn lemma_timeout_purge(m: Map<Seq<char>, Waiter>, token: Seq<char>, late_conn: u64, t2: u64)
    requires
        m.contains_key(token),
    ensures
        pairing_step(m.remove(token), token) == SessionStep::Wait,
        pairing_table_after(m.remove(token), token, late_conn, t2)
            == m.remove(token).insert(token, Waiter { conn: late_conn, inserted_at: t2 }),
{
}

/// The table after a run of admitted arrivals for one token, each taking its
/// atomic pairing step in processing order. Each arrival is described by the
/// waiter it would register: its connection handle and arrival time.
pub open spec fn table_after_arrivals(
    m: Map<Seq<char>, Waiter>,
    token: Seq<char>,
    arrivals: Seq<Waiter>,
) -> Map<Seq<char>, Waiter>
    decreases arrivals.len(),
{
    if arrivals.len() == 0 {
        m
    } else {
        table_after_arrivals(
            pairing_table_after(m, token, arrivals.first().conn, arrivals.first().inserted_at),
            token,
            arrivals.drop_first(),
        )
    }
}

proof fn lemma_arrivals_snoc(m: Map<Seq<char>, Waiter>, token: Seq<char>, arrivals: Seq<Waiter>, w: Waiter)
    ensures
        table_after_arrivals(m, token, arrivals.push(w)) == pairing_table_after(
            table_after_arrivals(m, token, arrivals),
            token,
            w.conn,
            w.inserted_at,
        ),
    decreases arrivals.len(),
{
    if arrivals.len() == 0 {
        let m1 = pairing_table_after(m, token, w.conn, w.inserted_at);
        assert(arrivals.push(w).first() == w);
        assert(arrivals.push(w).drop_first() =~= Seq::<Waiter>::empty());
        assert(table_after_arrivals(m, token, arrivals.push(w))
            == table_after_arrivals(m1, token, Seq::<Waiter>::empty()));
        assert(table_after_arrivals(m1, token, Seq::<Waiter>::empty()) == m1);
        assert(table_after_arrivals(m, token, arrivals) == m);
    } else {
        let m1 = pairing_table_after(m, token, arrivals.first().conn, arrivals.first().inserted_at);
        assert(arrivals.push(w).first() == arrivals.first());
        assert(arrivals.push(w).drop_first() =~= arrivals.drop_first().push(w));
        assert(table_after_arrivals(m, token, arrivals.push(w))
            == table_after_arrivals(m1, token, arrivals.drop_first().push(w)));
        lemma_arrivals_snoc(m1, token, arrivals.drop_first(), w);
        assert(table_after_arrivals(m, token, arrivals)
            == table_after_arrivals(m1, token, arrivals.drop_first()));
    }
}

proof fn lemma_arrivals_parity(m: Map<Seq<char>, Waiter>, token: Seq<char>, arrivals: Seq<Waiter>, k: int)
    requires
        !m.contains_key(token),
        0 <= k <= arrivals.len(),
    ensures
        k % 2 == 0 ==> table_after_arrivals(m, token, arrivals.take(k)) == m,
        k % 2 == 1 ==> table_after_arrivals(m, token, arrivals.take(k))
            == m.insert(token, arrivals[k - 1]),
    decreases k,
{
    if k == 0 {
        assert(arrivals.take(0) =~= Seq::<Waiter>::empty());
    } else {
        lemma_arrivals_parity(m, token, arrivals, k - 1);
        assert(arrivals.take(k) =~= arrivals.take(k - 1).push(arrivals[k - 1]));
        lemma_arrivals_snoc(m, token, arrivals.take(k - 1), arrivals[k - 1]);
        let w = arrivals[k - 1];
        if k % 2 == 1 {
            assert(pairing_table_after(m, token, w.conn, w.inserted_at)
                == m.insert(token, Waiter { conn: w.conn, inserted_at: w.inserted_at }));
            assert((Waiter { conn: w.conn, inserted_at: w.inserted_at }) == w);
        } else {
            let prev = arrivals[k - 2];
            assert(m.insert(token, prev).contains_key(token));
            assert(pairing_table_after(m.insert(token, prev), token, w.conn, w.inserted_at)
                == m.insert(token, prev).remove(token));
            assert(m.insert(token, prev).remove(token) =~= m);
        }
    }
}

/// Pairing alternates strictly: starting from a table with no waiter for
/// `token`, any run of admitted arrivals for that token pairs two by two.
/// Every even-positioned arrival registers and waits; every odd-positioned
/// arrival claims exactly the arrival just before it. In particular no
/// waiter is ever handed out twice and no arrival is lost: under any number
/// of concurrent arrivals, serialized in some order by the table's atomic
/// step, each pairing is exactly-once.
pub proof fn lemma_pairing_alternates(
    m: Map<Seq<char>, Waiter>,
    token: Seq<char>,
    arrivals: Seq<Waiter>,
    i: int,
)
    requires
        !m.contains_key(token),
        0 <= i < arrivals.len(),
    ensures
        i % 2 == 0 ==> pairing_step(table_after_arrivals(m, token, arrivals.take(i)), token)
            == SessionStep::Wait,
        i % 2 == 1 ==> pairing_step(table_after_arrivals(m, token, arrivals.take(i)), token)
            == (SessionStep::Relay { peer: arrivals[i - 1].conn }),
{
    lemma_arrivals_parity(m, token, arrivals, i);
    if i % 2 == 1 {
        assert(m.insert(token, arrivals[i - 1]).contains_key(token));
        assert(m.insert(token, arrivals[i - 1])[token] == arrivals[i - 1]);
    }
}

/// Credential enforcement: with a non-empty configured key, a request whose
/// presented key differs is never admitted (so it can neither pair nor be
/// inserted); a matching key, or any key in open mode, is admitted whenever
/// the token is non-empty.
pub proof fn lemma_credential_enforcement(token: Seq<char>, presented: Seq<char>, server_key: Seq<char>)
    ensures
        server_key.len() > 0 && presented != server_key
            ==> !request_admitted(token, presented, server_key),
        (presented == server_key || server_key.len() == 0) && token.len() > 0
            ==> request_admitted(token, presented, server_key),
{
}

} // verus!
