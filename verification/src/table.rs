//! The pairing table: the server's only shared mutable state.
//!
//! It maps each token to at most one waiting connection. Callers reach it
//! through exactly two operations, `claim_or_insert` and `remove_if_present`;
//! there is deliberately no separate "exists" check, so the lookup and the
//! insertion cannot be separated by a racing arrival. The driver holds the
//! table behind a lock and each operation is one critical section, so the
//! contracts here describe the table's atomic steps.
//!
//! The table is viewed as a mathematical map from token contents to the
//! waiting connection's handle and registration time; every contract is
//! stated over that map.

use vstd::prelude::*;

verus! {

/// What the table records for one waiting connection: the handle the driver
/// uses to address the connection, and when the entry was inserted (driver
/// clock, milliseconds).
pub struct Waiter {
    pub conn: u64,
    pub inserted_at: u64,
}

/// One stored entry: a token together with its waiter.
struct Entry {
    token: String,
    conn: u64,
    inserted_at: u64,
}

spec fn waiter_of(e: Entry) -> Waiter {
    Waiter { conn: e.conn, inserted_at: e.inserted_at }
}

/// The map a sequence of entries denotes; later entries would shadow earlier
/// ones, but the table's invariant keeps tokens distinct so no shadowing
/// ever occurs.
spec fn map_of(s: Seq<Entry>) -> Map<Seq<char>, Waiter>
    decreases s.len(),
{
    if s.len() == 0 {
        Map::empty()
    } else {
        map_of(s.drop_last()).insert(s.last().token@, waiter_of(s.last()))
    }
}

spec fn tokens_unique(s: Seq<Entry>) -> bool {
    forall|i: int, j: int| 0 <= i < j < s.len() ==> s[i].token@ != s[j].token@
}

/// Registry mapping each token to at most one waiting connection.
pub struct PairingTable {
    entries: Vec<Entry>,
}

impl View for PairingTable {
    type V = Map<Seq<char>, Waiter>;

    closed spec fn view(&self) -> Map<Seq<char>, Waiter> {
        map_of(self.entries@)
    }
}

proof fn lemma_map_of_index(s: Seq<Entry>, i: int)
    requires
        0 <= i < s.len(),
        tokens_unique(s),
    ensures
        map_of(s).contains_key(s[i].token@),
        map_of(s)[s[i].token@] == waiter_of(s[i]),
    decreases s.len(),
{
    if i < s.len() - 1 {
        assert(tokens_unique(s.drop_last()));
        lemma_map_of_index(s.drop_last(), i);
        assert(s.drop_last()[i] == s[i]);
        assert(s[i].token@ != s.last().token@);
    }
}

proof fn lemma_map_of_absent(s: Seq<Entry>, t: Seq<char>)
    requires
        forall|i: int| 0 <= i < s.len() ==> s[i].token@ != t,
    ensures
        !map_of(s).contains_key(t),
    decreases s.len(),
{
    if s.len() > 0 {
        assert(forall|i: int| 0 <= i < s.drop_last().len() ==> s.drop_last()[i].token@ != t);
        lemma_map_of_absent(s.drop_last(), t);
        assert(s.last().token@ != t);
    }
}

proof fn lemma_unique_remove(s: Seq<Entry>, i: int)
    requires
        tokens_unique(s),
        0 <= i < s.len(),
    ensures
        tokens_unique(s.remove(i)),
{
    assert forall|p: int, q: int|
        0 <= p < q < s.remove(i).len() implies s.remove(i)[p].token@ != s.remove(i)[q].token@ by {
        let p0 = if p < i { p } else { p + 1 };
        let q0 = if q < i { q } else { q + 1 };
        assert(s.remove(i)[p] == s[p0]);
        assert(s.remove(i)[q] == s[q0]);
    }
}

proof fn lemma_map_of_remove(s: Seq<Entry>, i: int)
    requires
        tokens_unique(s),
        0 <= i < s.len(),
    ensures
        map_of(s.remove(i)) == map_of(s).remove(s[i].token@),
    decreases s.len(),
{
    let t = s[i].token@;
    if i == s.len() - 1 {
        assert(s.remove(i) =~= s.drop_last());
        assert(forall|k: int| 0 <= k < s.drop_last().len() ==> s.drop_last()[k].token@ != t);
        lemma_map_of_absent(s.drop_last(), t);
        assert(map_of(s.drop_last()).insert(t, waiter_of(s.last())).remove(t)
            =~= map_of(s.drop_last()));
    } else {
        let dl = s.drop_last();
        let last = s.last();
        assert(tokens_unique(dl));
        lemma_map_of_remove(dl, i);
        assert(s.remove(i).drop_last() =~= dl.remove(i));
        assert(s.remove(i).last() == last);
        assert(s.remove(i).len() == s.len() - 1);
        assert(map_of(s.remove(i)) == map_of(dl.remove(i)).insert(last.token@, waiter_of(last)));
        assert(dl[i] == s[i]);
        assert(last.token@ != t);
        assert(map_of(dl).remove(t).insert(last.token@, waiter_of(last))
            =~= map_of(dl).insert(last.token@, waiter_of(last)).remove(t));
    }
}

proof fn lemma_map_of_push(s: Seq<Entry>, e: Entry)
    ensures
        map_of(s.push(e)) == map_of(s).insert(e.token@, waiter_of(e)),
{
    assert(s.push(e).drop_last() =~= s);
    assert(s.push(e).last() == e);
}

impl PairingTable {
    /// The table's internal invariant: no token occurs twice.
    pub closed spec fn wf(&self) -> bool {
        tokens_unique(self.entries@)
    }

    /// An empty table, created once at server startup.
    pub fn new() -> (t: Self)
        ensures
            t.wf(),
            t@ == Map::<Seq<char>, Waiter>::empty(),
    {
        PairingTable { entries: Vec::new() }
    }

    /// Index of the entry holding `token`, if any.
    fn find_index(&self, token: &String) -> (r: Option<usize>)
        requires
            self.wf(),
        ensures
            match r {
                Some(i) => i < self.entries@.len() && self.entries@[i as int].token@ == token@,
                None => !self@.contains_key(token@),
            },
    {
        let n = self.entries.len();
        let mut i: usize = 0;
        while i < n
            invariant
                i <= n,
                n == self.entries@.len(),
                forall|j: int| 0 <= j < i ==> self.entries@[j].token@ != token@,
            decreases n - i,
        {
            if self.entries[i].token == *token {
                return Some(i);
            }
            i += 1;
        }
        proof {
            lemma_map_of_absent(self.entries@, token@);
        }
        None
    }

    /// The table's sole arbiter of pairing, one atomic step: if a waiter for
    /// `token` exists, it is removed and its connection handle returned (the
    /// caller now owns both legs and proceeds to relay); otherwise the caller
    /// is registered as the new waiter and nothing is returned.
    ///
    /// Fusing the lookup and the insertion into one operation is what makes
    /// pairing exactly-once: two concurrent arrivals for the same token take
    /// this step in some order, and whichever goes second necessarily sees
    /// the first.
    pub fn claim_or_insert(&mut self, token: String, conn: u64, now: u64) -> (r: Option<u64>)
        requires
            old(self).wf(),
        ensures
            final(self).wf(),
            match r {
                Some(peer) => {
                    &&& old(self)@.contains_key(token@)
                    &&& peer == old(self)@[token@].conn
                    &&& final(self)@ == old(self)@.remove(token@)
                },
                None => {
                    &&& !old(self)@.contains_key(token@)
                    &&& final(self)@ == old(self)@.insert(token@, Waiter { conn, inserted_at: now })
                },
            },
    {
        match self.find_index(&token) {
            Some(i) => {
                proof {
                    lemma_map_of_index(self.entries@, i as int);
                    lemma_map_of_remove(self.entries@, i as int);
                    lemma_unique_remove(self.entries@, i as int);
                }
                let e = self.entries.remove(i);
                Some(e.conn)
            },
            None => {
                let ghost prev = self.entries@;
                let ghost t = token@;
                proof {
                    assert forall|j: int| 0 <= j < prev.len() implies prev[j].token@ != t by {
                        if prev[j].token@ == t {
                            lemma_map_of_index(prev, j);
                        }
                    }
                }
                let e = Entry { token, conn, inserted_at: now };
                proof {
                    lemma_map_of_push(prev, e);
                    assert(tokens_unique(prev.push(e)));
                }
                self.entries.push(e);
                None
            },
        }
    }

    /// The expiry path, one atomic step: removes and returns the waiter for
    /// `token` only if one is still present *and it is the caller's own
    /// registration*, identified by `conn`. The presence guard protects
    /// against the race where the entry was claimed just before the waiting
    /// supervisor's deadline fired; the identity guard protects against the
    /// longer race where, after that claim, a later arrival re-registered
    /// the same token — purging then would evict the newcomer's live
    /// registration, silently dropping a waiter forever.
    pub fn remove_if_present(&mut self, token: &String, conn: u64) -> (r: Option<u64>)
        requires
            old(self).wf(),
        ensures
            final(self).wf(),
            match r {
                Some(removed) => {
                    &&& old(self)@.contains_key(token@)
                    &&& old(self)@[token@].conn == conn
                    &&& removed == conn
                    &&& final(self)@ == old(self)@.remove(token@)
                },
                None => {
                    &&& !(old(self)@.contains_key(token@) && old(self)@[token@].conn == conn)
                    &&& final(self)@ == old(self)@
                },
            },
    {
        match self.find_index(token) {
            Some(i) => {
                proof {
                    lemma_map_of_index(self.entries@, i as int);
                }
                if self.entries[i].conn == conn {
                    proof {
                        lemma_map_of_remove(self.entries@, i as int);
                        lemma_unique_remove(self.entries@, i as int);
                    }
                    let e = self.entries.remove(i);
                    Some(e.conn)
                } else {
                    None
                }
            },
            None => None,
        }
    }
}

} // verus!
