//! How many interactive clients each session has.

use std::collections::BTreeMap;

use vstd::prelude::*;

use crate::domain::{ClientId, SessionId};
use crate::maps::keys_of;
use crate::protocol::{self, ClientPresenceSnapshot, SessionPresence};

verus! {

/// Which session each interactive client shows, and what was last published of
/// it.
#[derive(Debug)]
pub struct ClientPresence {
    pub revision: u64,
    pub clients: BTreeMap<u128, SessionId>,
    pub published: ClientPresenceSnapshot,
}

/// A client's part in the presence of sessions.
#[derive(Debug)]
pub struct ClientPresenceGuard {
    pub client: ClientId,
}

/// Those of some clients that show a session.
pub open spec fn showing(
    clients: Map<u128, SessionId>,
    among: Set<u128>,
    session: SessionId,
) -> Set<u128> {
    among.filter(|k: u128| clients[k] == session)
}

/// How many clients show a session.
pub open spec fn client_total(clients: Map<u128, SessionId>, session: SessionId) -> nat {
    showing(clients, clients.dom(), session).len()
}

/// A list counts the clients of every session that has any, each session once,
/// in the order of their identifiers.
pub open spec fn counts(clients: Map<u128, SessionId>, list: Seq<SessionPresence>) -> bool {
    &&& forall|i: int, j: int|
        0 <= i < j < list.len() ==> #[trigger] list[i].session_id.0 < #[trigger] list[j].session_id.0
    &&& forall|i: int|
        0 <= i < list.len() ==> (#[trigger] list[i]).clients > 0 && list[i].clients
            == client_total(clients, list[i].session_id)
    &&& forall|s: SessionId| #[trigger]
        client_total(clients, s) > 0 ==> exists|i: int|
            0 <= i < list.len() && #[trigger] list[i].session_id == s
}

/// How many of the listed clients show a session.
spec fn tally(clients: Map<u128, SessionId>, keys: Seq<u128>, session: u128) -> nat
    decreases keys.len(),
{
    if keys.len() == 0 {
        0
    } else {
        tally(clients, keys.drop_last(), session) + if clients[keys.last()].0 == session {
            1nat
        } else {
            0nat
        }
    }
}

proof fn lemma_tally(clients: Map<u128, SessionId>, keys: Seq<u128>, session: u128)
    requires
        keys.no_duplicates(),
    ensures
        showing(clients, keys.to_set(), SessionId(session)).len() == tally(clients, keys, session),
        showing(clients, keys.to_set(), SessionId(session)).finite(),
        tally(clients, keys, session) <= keys.len(),
    decreases keys.len(),
{
    let id = SessionId(session);
    if keys.len() == 0 {
        assert(showing(clients, keys.to_set(), id) =~= Set::<u128>::empty());
    } else {
        let before = keys.drop_last();
        let last = keys.last();
        lemma_tally(clients, before, session);
        assert(clients[last].0 == session <==> clients[last] == SessionId(session));
        assert(!before.to_set().contains(last));
        assert forall|k: u128| keys.to_set().contains(k) <==> before.to_set().insert(
            last,
        ).contains(k) by {
            if keys.to_set().contains(k) {
                let i = choose|i: int| 0 <= i < keys.len() && keys[i] == k;
                if i < keys.len() - 1 {
                    assert(before[i] == k);
                }
            }
            if before.to_set().contains(k) {
                let i = choose|i: int| 0 <= i < before.len() && before[i] == k;
                assert(keys[i] == k);
            }
            assert(keys[keys.len() - 1] == last);
        }
        if clients[last] == id {
            assert(showing(clients, keys.to_set(), id) =~= showing(
                clients,
                before.to_set(),
                id,
            ).insert(last));
        } else {
            assert(showing(clients, keys.to_set(), id) =~= showing(clients, before.to_set(), id));
        }
    }
}

/// What there is to publish of a state of the clients.
pub fn snapshot(revision: u64, clients: &BTreeMap<u128, SessionId>) -> (r: ClientPresenceSnapshot)
    requires
        clients@.len() <= u32::MAX,
    ensures
        r.revision == revision,
        counts(clients@, r.sessions@),
{
    let keys = keys_of(clients);
    let mut totals: BTreeMap<u128, u32> = BTreeMap::new();
    let ghost map = clients@;
    let mut i: usize = 0;
    assert(keys@.take(0) =~= Seq::<u128>::empty());
    while i < keys.len()
        invariant
            i <= keys.len(),
            map == clients@,
            keys@.len() <= u32::MAX,
            keys@.no_duplicates(),
            forall|k: u128| #[trigger] keys@.contains(k) <==> map.contains_key(k),
            forall|s: u128|
                #![trigger totals@.contains_key(s)]
                #![trigger tally(map, keys@.take(i as int), s)]
                totals@.contains_key(s) <==> tally(map, keys@.take(i as int), s) > 0,
            forall|s: u128| #[trigger]
                totals@.contains_key(s) ==> totals@[s] == tally(map, keys@.take(i as int), s),
        decreases keys.len() - i,
    {
        let ghost before = keys@.take(i as int);
        let ghost after = keys@.take(i as int + 1);
        assert(keys@.contains(keys@[i as int]));
        let session: u128 = clients.get(&keys[i]).unwrap().0;
        let ghost totals_before = totals@;
        proof {
            assert(after.drop_last() =~= before);
            assert(after.last() == keys@[i as int]);
            assert(before.no_duplicates());
            lemma_tally(map, before, session);
            assert forall|s: u128| #[trigger] tally(map, after, s) == tally(map, before, s) + if s
                == session {
                1nat
            } else {
                0nat
            } by {}
        }
        let count: u32 = match totals.get(&session) {
            Some(count) => *count,
            None => 0,
        };
        assert(count == tally(map, before, session)) by {
            assert(totals_before.contains_key(session) <==> tally(map, before, session) > 0);
        }
        totals.insert(session, count + 1);
        assert forall|s: u128|
            #![trigger totals@.contains_key(s)]
            #![trigger tally(map, after, s)]
            totals@.contains_key(s) <==> tally(map, after, s) > 0 by {
            assert(totals_before.contains_key(s) <==> tally(map, before, s) > 0);
        }
        assert forall|s: u128| #[trigger] totals@.contains_key(s) implies totals@[s] == tally(
            map,
            after,
            s,
        ) by {
            assert(totals_before.contains_key(s) <==> tally(map, before, s) > 0);
        }
        i += 1;
    }
    assert(keys@.take(i as int) =~= keys@);
    assert(keys@.to_set() =~= map.dom()) by {
        assert forall|k: u128| keys@.to_set().contains(k) <==> map.dom().contains(k) by {
            assert(keys@.contains(k) <==> map.contains_key(k));
        }
    }
    let ids = keys_of(&totals);
    let mut sessions: Vec<SessionPresence> = Vec::new();
    let mut j: usize = 0;
    while j < ids.len()
        invariant
            j <= ids.len(),
            sessions@.len() == j,
            forall|k: u128| #[trigger] ids@.contains(k) <==> totals@.contains_key(k),
            forall|n: int|
                0 <= n < j ==> #[trigger] sessions@[n].session_id.0 == ids@[n]
                    && sessions@[n].clients == totals@[ids@[n]],
        decreases ids.len() - j,
    {
        assert(ids@.contains(ids@[j as int]));
        let clients: u32 = *totals.get(&ids[j]).unwrap();
        sessions.push(SessionPresence { session_id: SessionId(ids[j]), clients });
        j += 1;
    }
    proof {
        assert forall|n: int| 0 <= n < sessions@.len() implies (#[trigger] sessions@[n]).clients > 0
            && sessions@[n].clients == client_total(map, sessions@[n].session_id) by {
            assert(sessions@[n].session_id.0 == ids@[n]);
            assert(ids@.contains(ids@[n]));
            lemma_tally(map, keys@, ids@[n]);
            assert(SessionId(ids@[n]) == sessions@[n].session_id);
        }
        assert forall|s: SessionId| #[trigger] client_total(map, s) > 0 implies exists|n: int|
            0 <= n < sessions@.len() && #[trigger] sessions@[n].session_id == s by {
            lemma_tally(map, keys@, s.0);
            assert(SessionId(s.0) == s);
            assert(totals@.contains_key(s.0) <==> tally(map, keys@, s.0) > 0);
            assert(ids@.contains(s.0));
            let n = choose|n: int| 0 <= n < ids@.len() && ids@[n] == s.0;
            assert(sessions@[n].session_id.0 == s.0);
            assert(sessions@[n].session_id == s);
        }
    }
    ClientPresenceSnapshot { revision, sessions }
}

impl Default for ClientPresence {
    fn default() -> (r: Self)
        ensures
            r.wf(),
            r.revision == 0,
            r.clients@ == Map::<u128, SessionId>::empty(),
    {
        let r = ClientPresence {
            revision: 0,
            clients: BTreeMap::new(),
            published: ClientPresenceSnapshot { revision: 0, sessions: Vec::new() },
        };
        assert forall|s: SessionId| #[trigger] client_total(r.clients@, s) == 0 by {
            assert(showing(r.clients@, r.clients@.dom(), s) =~= Set::<u128>::empty());
        }
        r
    }
}

impl ClientPresence {
    /// What was published counts the clients as they are.
    pub open spec fn wf(self) -> bool {
        &&& self.published.revision == self.revision
        &&& counts(self.clients@, self.published.sessions@)
    }

    /// Adds a client that shows a session.
    pub fn attach(&mut self, client: ClientId, session_id: SessionId) -> (r: ClientPresenceGuard)
        requires
            old(self).wf(),
            old(self).revision < u64::MAX,
            old(self).clients@.len() < u32::MAX,
        ensures
            final(self).wf(),
            final(self).clients@ == old(self).clients@.insert(client.0, session_id),
            final(self).revision == old(self).revision + shows_anew(
                old(self).clients@,
                client,
                session_id,
            ),
            r.client == client,
    {
        self.set(client, session_id);
        ClientPresenceGuard { client }
    }

    /// What was last published.
    pub fn snapshot(&self) -> (r: &ClientPresenceSnapshot)
        ensures
            *r == self.published,
    {
        &self.published
    }

    /// Notes which session a client shows, and publishes the change if there is
    /// one.
    pub fn set(&mut self, client: ClientId, session_id: SessionId)
        requires
            old(self).wf(),
            old(self).revision < u64::MAX,
            old(self).clients@.len() < u32::MAX,
        ensures
            final(self).wf(),
            final(self).clients@ == old(self).clients@.insert(client.0, session_id),
            final(self).revision == old(self).revision + shows_anew(
                old(self).clients@,
                client,
                session_id,
            ),
    {
        let ghost before = self.clients@;
        let previous = self.clients.insert(client.0, session_id);
        match previous {
            Some(shown) => {
                if shown.0 == session_id.0 {
                    assert(self.clients@ =~= before);
                    return;
                }
            },
            None => {},
        }
        self.revision = self.revision + 1;
        self.published = snapshot(self.revision, &self.clients);
    }

    /// Forgets a client, and publishes the change if there is one.
    pub fn remove(&mut self, client: ClientId)
        requires
            old(self).wf(),
            old(self).revision < u64::MAX,
            old(self).clients@.len() <= u32::MAX,
        ensures
            final(self).wf(),
            final(self).clients@ == old(self).clients@.remove(client.0),
            final(self).revision == old(self).revision + if old(self).clients@.contains_key(
                client.0,
            ) {
                1int
            } else {
                0int
            },
    {
        let ghost before = self.clients@;
        match self.clients.remove(&client.0) {
            None => {
                assert(self.clients@ =~= before);
            },
            Some(_) => {
                self.revision = self.revision + 1;
                self.published = snapshot(self.revision, &self.clients);
            },
        }
    }
}

/// One where a client that shows a session did not show it before, else nought.
pub open spec fn shows_anew(
    clients: Map<u128, SessionId>,
    client: ClientId,
    session: SessionId,
) -> int {
    if clients.contains_key(client.0) && clients[client.0] == session {
        0
    } else {
        1
    }
}

impl ClientPresenceGuard {
    /// Notes that this client shows another session.
    pub fn select(&self, presence: &mut ClientPresence, session_id: SessionId)
        requires
            old(presence).wf(),
            old(presence).revision < u64::MAX,
            old(presence).clients@.len() < u32::MAX,
        ensures
            final(presence).wf(),
            final(presence).clients@ == old(presence).clients@.insert(self.client.0, session_id),
            final(presence).revision == old(presence).revision + shows_anew(
                old(presence).clients@,
                self.client,
                session_id,
            ),
    {
        presence.set(self.client, session_id);
    }

    /// Ends this client's part.
    pub fn release(self, presence: &mut ClientPresence)
        requires
            old(presence).wf(),
            old(presence).revision < u64::MAX,
            old(presence).clients@.len() <= u32::MAX,
        ensures
            final(presence).wf(),
            final(presence).clients@ == old(presence).clients@.remove(self.client.0),
            final(presence).revision == old(presence).revision + if old(
                presence,
            ).clients@.contains_key(self.client.0) {
                1int
            } else {
                0int
            },
    {
        presence.remove(self.client);
    }
}

/// What is published answers, for every session, how many clients show it.
pub proof fn law_published_counts_answer_for_every_session(
    presence: ClientPresence,
    session: SessionId,
)
    requires
        presence.wf(),
    ensures
        protocol::clients_listed(presence.published.sessions@, session, 0) == client_total(
            presence.clients@,
            session,
        ),
{
    lemma_listed(presence.clients@, presence.published.sessions@, session, 0);
}

proof fn lemma_listed(
    clients: Map<u128, SessionId>,
    list: Seq<SessionPresence>,
    session: SessionId,
    from: int,
)
    requires
        counts(clients, list),
        0 <= from <= list.len(),
        forall|i: int| 0 <= i < from ==> (#[trigger] list[i]).session_id != session,
    ensures
        protocol::clients_listed(list, session, from) == client_total(clients, session),
    decreases list.len() - from,
{
    if from == list.len() {
        if client_total(clients, session) > 0 {
            let i = choose|i: int| 0 <= i < list.len() && #[trigger] list[i].session_id == session;
            assert(list[i].session_id == session);
        }
    } else if list[from].session_id != session {
        lemma_listed(clients, list, session, from + 1);
    }
}

/// A client counts for the session that it shows and for no other: showing
/// another session takes it from the one and adds it to the other.
pub proof fn law_client_counts_once(
    clients: Map<u128, SessionId>,
    client: ClientId,
    shown: SessionId,
    session: SessionId,
)
    requires
        clients.dom().finite(),
    ensures
        client_total(clients.insert(client.0, shown), session) == client_total(
            clients.remove(client.0),
            session,
        ) + if shown == session {
            1int
        } else {
            0int
        },
        client_total(clients, session) == client_total(clients.remove(client.0), session) + if
        clients.contains_key(client.0) && clients[client.0] == session {
            1int
        } else {
            0int
        },
{
    let rest = clients.remove(client.0);
    let now = clients.insert(client.0, shown);
    let in_rest = showing(rest, rest.dom(), session);
    let in_now = showing(now, now.dom(), session);
    let in_all = showing(clients, clients.dom(), session);
    assert(in_rest.finite() && in_now.finite() && in_all.finite());
    if shown == session {
        assert(in_now =~= in_rest.insert(client.0));
    } else {
        assert(in_now =~= in_rest);
    }
    if clients.contains_key(client.0) && clients[client.0] == session {
        assert(in_all =~= in_rest.insert(client.0));
    } else {
        assert(in_all =~= in_rest);
    }
}

/// The revision moves on exactly where what is shown changes: not where a client goes on showing
/// the session that it showed.
pub proof fn law_revision_moves_with_the_clients(
    clients: Map<u128, SessionId>,
    client: ClientId,
    session: SessionId,
)
    ensures
        shows_anew(clients, client, session) == if clients.insert(client.0, session) == clients {
            0int
        } else {
            1int
        },
{
    if clients.contains_key(client.0) && clients[client.0] == session {
        assert(clients.insert(client.0, session) =~= clients);
    } else {
        assert(clients.insert(client.0, session)[client.0] == session);
        assert(clients.insert(client.0, session).contains_key(client.0));
    }
}

/// Nobody shows a session where there are no clients, and a session is listed exactly where
/// some client shows it.
pub proof fn law_listed_sessions_are_shown(
    clients: Map<u128, SessionId>,
    list: Seq<SessionPresence>,
    session: SessionId,
)
    requires
        clients.dom().finite(),
        counts(clients, list),
    ensures
        (exists|i: int| 0 <= i < list.len() && (#[trigger] list[i]).session_id == session)
            <==> exists|client: u128|
            clients.contains_key(client) && #[trigger] clients[client] == session,
{
    let shown = showing(clients, clients.dom(), session);
    assert(shown.finite());
    if exists|client: u128| clients.contains_key(client) && #[trigger] clients[client] == session {
        let client = choose|client: u128|
            clients.contains_key(client) && #[trigger] clients[client] == session;
        assert(shown.contains(client));
        if shown.len() == 0 {
            assert(shown =~= Set::empty());
        }
        assert(client_total(clients, session) > 0);
    }
    if exists|i: int| 0 <= i < list.len() && (#[trigger] list[i]).session_id == session {
        let i = choose|i: int| 0 <= i < list.len() && (#[trigger] list[i]).session_id == session;
        assert(client_total(clients, session) > 0);
        if forall|client: u128| !shown.contains(client) {
            assert(shown =~= Set::empty());
        }
        let client = choose|client: u128| shown.contains(client);
        assert(clients.contains_key(client) && clients[client] == session);
    }
}

} // verus!
