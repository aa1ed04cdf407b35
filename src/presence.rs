use vstd::prelude::*;

use crate::message::{EventData, Message};
use crate::queue::{without, TurnQueue};
use crate::room::texts;

verus! {

/// How long a presence lease lives without renewal.
pub const PRESENCE_TTL_MS: u64 = 5000;

/// How often a connected session renews its presence lease.
pub const PRESENCE_RENEW_MS: u64 = 3000;

#[derive(PartialEq, Eq, Structural, Clone, Copy, Debug)]
pub enum PresenceEventActivty {
    Join,
    Leave,
}

/// A change of presence in a room, as the store notifies it.
pub struct PresenceEvent {
    pub user_id: String,
    pub activity: PresenceEventActivty,
}

/// The set after one notification: a join adds the user, a leave removes them.
pub open spec fn apply_event(s: Set<Seq<char>>, e: (Seq<char>, PresenceEventActivty)) -> Set<Seq<char>> {
    match e.1 {
        PresenceEventActivty::Join => s.insert(e.0),
        PresenceEventActivty::Leave => s.remove(e.0),
    }
}

/// The set after notifications in order.
pub open spec fn apply_events(s: Set<Seq<char>>, es: Seq<(Seq<char>, PresenceEventActivty)>) -> Set<Seq<char>>
    decreases es.len(),
{
    if es.len() == 0 {
        s
    } else {
        apply_events(apply_event(s, es[0]), es.drop_first())
    }
}

pub open spec fn event_views(v: Seq<PresenceEvent>) -> Seq<(Seq<char>, PresenceEventActivty)> {
    v.map_values(|e: PresenceEvent| (e.user_id@, e.activity))
}

proof fn lemma_apply_events_push(s: Set<Seq<char>>, es: Seq<(Seq<char>, PresenceEventActivty)>, e: (Seq<char>, PresenceEventActivty))
    ensures
        apply_events(s, es.push(e)) == apply_event(apply_events(s, es), e),
    decreases es.len(),
{
    let t = es.push(e);
    if es.len() == 0 {
        assert(t.drop_first() =~= Seq::<(Seq<char>, PresenceEventActivty)>::empty());
        assert(t[0] == e);
        assert(apply_events(s, t) == apply_events(apply_event(s, e), t.drop_first()));
    } else {
        assert(t.drop_first() =~= es.drop_first().push(e));
        assert(t[0] == es[0]);
        lemma_apply_events_push(apply_event(s, es[0]), es.drop_first(), e);
    }
}

/// Reads the kind of a keyspace notification on a presence lease.
pub fn presence_activity(payload: &str) -> (r: Option<PresenceEventActivty>)
    ensures
        r == (if payload@ == "new"@ {
            Some(PresenceEventActivty::Join)
        } else if payload@ == "del"@ || payload@ == "expired"@ {
            Some(PresenceEventActivty::Leave)
        } else {
            None
        }),
{
    let p = String::from_str(payload);
    if p == String::from_str("new") {
        Some(PresenceEventActivty::Join)
    } else if p == String::from_str("del") || p == String::from_str("expired") {
        Some(PresenceEventActivty::Leave)
    } else {
        None
    }
}

/// The users that hold an entry.
pub open spec fn holders(s: Seq<(Seq<char>, u64)>) -> Set<Seq<char>> {
    Set::new(|u: Seq<char>| exists|i: int| 0 <= i < s.len() && #[trigger] s[i].0 == u)
}

pub open spec fn distinct_users(s: Seq<(Seq<char>, u64)>) -> bool {
    forall|i: int, j: int| 0 <= i < s.len() && 0 <= j < s.len() && i != j ==> s[i].0 != s[j].0
}

pub open spec fn lease_views(v: Seq<(String, u64)>) -> Seq<(Seq<char>, u64)> {
    v.map_values(|e: (String, u64)| (e.0@, e.1))
}

/// The presence leases of one room: for each user, when the lease ends.
/// An ended lease is removed, with a leave notification, by `expire`.
pub struct PresenceLeases {
    leases: Vec<(String, u64)>,
}

impl View for PresenceLeases {
    type V = Seq<(Seq<char>, u64)>;

    closed spec fn view(&self) -> Seq<(Seq<char>, u64)> {
        lease_views(self.leases@)
    }
}

proof fn lemma_holders_push(s: Seq<(Seq<char>, u64)>, e: (Seq<char>, u64))
    ensures
        holders(s.push(e)) == holders(s).insert(e.0),
{
    let t = s.push(e);
    assert forall|u: Seq<char>| holders(t).contains(u) <==> holders(s).insert(e.0).contains(u) by {
        if holders(s).contains(u) {
            let i = choose|i: int| 0 <= i < s.len() && #[trigger] s[i].0 == u;
            assert(t[i] == s[i]);
        }
        if holders(t).contains(u) && u != e.0 {
            let i = choose|i: int| 0 <= i < t.len() && #[trigger] t[i].0 == u;
            assert(t[i] == s[i]);
        }
        if u == e.0 {
            assert(t[s.len() as int].0 == u);
        }
    }
    assert(holders(t) =~= holders(s).insert(e.0));
}

proof fn lemma_holders_remove(s: Seq<(Seq<char>, u64)>, i: int)
    requires
        distinct_users(s),
        0 <= i < s.len(),
    ensures
        holders(s.remove(i)) == holders(s).remove(s[i].0),
        distinct_users(s.remove(i)),
{
    let t = s.remove(i);
    assert forall|u: Seq<char>| holders(t).contains(u) <==> holders(s).remove(s[i].0).contains(u) by {
        if holders(t).contains(u) {
            let k = choose|k: int| 0 <= k < t.len() && #[trigger] t[k].0 == u;
            if k < i {
                assert(t[k] == s[k]);
            } else {
                assert(t[k] == s[k + 1]);
            }
        }
        if holders(s).remove(s[i].0).contains(u) {
            let k = choose|k: int| 0 <= k < s.len() && #[trigger] s[k].0 == u;
            if k < i {
                assert(t[k] == s[k]);
            } else {
                assert(t[k - 1] == s[k]);
            }
        }
    }
    assert(holders(t) =~= holders(s).remove(s[i].0));
    assert forall|a: int, b: int| 0 <= a < t.len() && 0 <= b < t.len() && a != b implies t[a].0 != t[b].0 by {
        let a2 = if a < i { a } else { a + 1 };
        let b2 = if b < i { b } else { b + 1 };
        assert(t[a] == s[a2]);
        assert(t[b] == s[b2]);
    }
}

proof fn lemma_holders_update(s: Seq<(Seq<char>, u64)>, i: int, exp: u64)
    requires
        distinct_users(s),
        0 <= i < s.len(),
    ensures
        holders(s.update(i, (s[i].0, exp))) == holders(s),
        distinct_users(s.update(i, (s[i].0, exp))),
{
    let t = s.update(i, (s[i].0, exp));
    assert forall|u: Seq<char>| holders(t).contains(u) <==> holders(s).contains(u) by {
        if holders(t).contains(u) {
            let k = choose|k: int| 0 <= k < t.len() && #[trigger] t[k].0 == u;
            assert(s[k].0 == t[k].0);
        }
        if holders(s).contains(u) {
            let k = choose|k: int| 0 <= k < s.len() && #[trigger] s[k].0 == u;
            assert(s[k].0 == t[k].0);
        }
    }
    assert(holders(t) =~= holders(s));
    assert forall|a: int, b: int| 0 <= a < t.len() && 0 <= b < t.len() && a != b implies t[a].0 != t[b].0 by {
        assert(t[a].0 == s[a].0);
        assert(t[b].0 == s[b].0);
    }
}

proof fn lemma_lease_end_at(s: Seq<(Seq<char>, u64)>, i: int)
    requires
        distinct_users(s),
        0 <= i < s.len(),
    ensures
        lease_end(s, s[i].0) == Some(s[i].1),
{
    let j = choose|j: int| 0 <= j < s.len() && #[trigger] s[j].0 == s[i].0;
    assert(j == i);
}

/// Only the lease of the changed user moves when one entry is updated.
proof fn lemma_lease_end_update(s: Seq<(Seq<char>, u64)>, i: int, exp: u64, u: Seq<char>)
    requires
        distinct_users(s),
        0 <= i < s.len(),
        u != s[i].0,
    ensures
        lease_end(s.update(i, (s[i].0, exp)), u) == lease_end(s, u),
{
    let t = s.update(i, (s[i].0, exp));
    lemma_holders_update(s, i, exp);
    if exists|k: int| 0 <= k < s.len() && #[trigger] s[k].0 == u {
        let k = choose|k: int| 0 <= k < s.len() && #[trigger] s[k].0 == u;
        assert(t[k] == s[k]);
        lemma_lease_end_at(s, k);
        lemma_lease_end_at(t, k);
    } else {
        assert forall|k: int| 0 <= k < t.len() implies #[trigger] t[k].0 != u by {
            assert(t[k].0 == s[k].0);
        }
    }
}

/// Adding a user's entry leaves the others' leases as they were.
proof fn lemma_lease_end_push(s: Seq<(Seq<char>, u64)>, e: (Seq<char>, u64), u: Seq<char>)
    requires
        distinct_users(s.push(e)),
        u != e.0,
    ensures
        lease_end(s.push(e), u) == lease_end(s, u),
{
    let t = s.push(e);
    assert forall|a: int, b: int| 0 <= a < s.len() && 0 <= b < s.len() && a != b implies s[a].0 != s[b].0 by {
        assert(t[a] == s[a]);
        assert(t[b] == s[b]);
    }
    if exists|k: int| 0 <= k < s.len() && #[trigger] s[k].0 == u {
        let k = choose|k: int| 0 <= k < s.len() && #[trigger] s[k].0 == u;
        assert(t[k] == s[k]);
        lemma_lease_end_at(s, k);
        lemma_lease_end_at(t, k);
    } else {
        assert forall|k: int| 0 <= k < t.len() implies #[trigger] t[k].0 != u by {
            if k < s.len() {
                assert(t[k] == s[k]);
            }
        }
    }
}

/// Removing a user's entry leaves the others' leases as they were.
proof fn lemma_lease_end_remove(s: Seq<(Seq<char>, u64)>, i: int, u: Seq<char>)
    requires
        distinct_users(s),
        0 <= i < s.len(),
        u != s[i].0,
    ensures
        lease_end(s.remove(i), u) == lease_end(s, u),
{
    let t = s.remove(i);
    lemma_holders_remove(s, i);
    if exists|k: int| 0 <= k < s.len() && #[trigger] s[k].0 == u {
        let k = choose|k: int| 0 <= k < s.len() && #[trigger] s[k].0 == u;
        let k2 = if k < i { k } else { k - 1 };
        assert(k != i);
        assert(t[k2] == s[k]);
        lemma_lease_end_at(s, k);
        lemma_lease_end_at(t, k2);
    } else {
        assert forall|k: int| 0 <= k < t.len() implies #[trigger] t[k].0 != u by {
            if k < i {
                assert(t[k] == s[k]);
            } else {
                assert(t[k] == s[k + 1]);
            }
        }
    }
}

impl PresenceLeases {
    pub closed spec fn wf(&self) -> bool {
        distinct_users(self@)
    }

    /// The users holding a lease that has not been expired yet.
    pub open spec fn users(&self) -> Set<Seq<char>> {
        holders(self@)
    }

    /// When the lease of `user` ends, if the user holds one.
    pub open spec fn expiry(&self, user: Seq<char>) -> Option<u64> {
        lease_end(self@, user)
    }

    pub fn new() -> (r: PresenceLeases)
        ensures
            r.wf(),
            r.users() == Set::<Seq<char>>::empty(),
    {
        let r = PresenceLeases { leases: Vec::new() };
        assert(r.users() =~= Set::<Seq<char>>::empty());
        r
    }

    fn position(&self, user: &String) -> (r: Option<usize>)
        ensures
            r matches Some(i) ==> i < self@.len() && self@[i as int].0 == user@,
            r is None ==> forall|j: int| 0 <= j < self@.len() ==> #[trigger] self@[j].0 != user@,
    {
        let mut i: usize = 0;
        while i < self.leases.len()
            invariant
                0 <= i <= self.leases.len(),
                forall|j: int| 0 <= j < i ==> #[trigger] self@[j].0 != user@,
            decreases self.leases.len() - i,
        {
            if self.leases[i].0 == *user {
                return Some(i);
            }
            i = i + 1;
        }
        None
    }

    /// Starts or refreshes the lease of `user` at `now`; a user who held none
    /// is announced as joining.
    pub fn join(&mut self, user: &String, now: u64) -> (r: Vec<PresenceEvent>)
        requires
            old(self).wf(),
            now + PRESENCE_TTL_MS <= u64::MAX,
        ensures
            final(self).wf(),
            final(self).users() == old(self).users().insert(user@),
            final(self).users() == apply_events(old(self).users(), event_views(r@)),
            final(self).expiry(user@) == Some((now + PRESENCE_TTL_MS) as u64),
            forall|u: Seq<char>| u != user@ ==> #[trigger] final(self).expiry(u) == old(self).expiry(u),
            old(self).users().contains(user@) ==> r@.len() == 0,
            !old(self).users().contains(user@) ==> event_views(r@) == seq![
                (user@, PresenceEventActivty::Join),
            ],
    {
        let ghost s = self@;
        let mut events: Vec<PresenceEvent> = Vec::new();
        let exp = now + PRESENCE_TTL_MS;
        match self.position(user) {
            Some(i) => {
                self.leases.set(i, (user.clone(), exp));
                assert(self@ =~= s.update(i as int, (s[i as int].0, exp)));
                proof {
                    lemma_holders_update(s, i as int, exp);
                    lemma_lease_end_at(self@, i as int);
                    assert forall|u: Seq<char>| u != user@ implies #[trigger] lease_end(self@, u) == lease_end(s, u) by {
                        lemma_lease_end_update(s, i as int, exp, u);
                    }
                    assert(holders(s).contains(user@));
                    assert(holders(s).insert(user@) =~= holders(s));
                    assert(event_views(events@) =~= Seq::<(Seq<char>, PresenceEventActivty)>::empty());
                }
            },
            None => {
                self.leases.push((user.clone(), exp));
                events.push(PresenceEvent { user_id: user.clone(), activity: PresenceEventActivty::Join });
                assert(self@ =~= s.push((user@, exp)));
                proof {
                    lemma_holders_push(s, (user@, exp));
                    assert forall|a: int, b: int| 0 <= a < self@.len() && 0 <= b < self@.len() && a != b implies self@[a].0 != self@[b].0 by {
                        if a < s.len() { assert(self@[a] == s[a]); }
                        if b < s.len() { assert(self@[b] == s[b]); }
                    }
                    lemma_lease_end_at(self@, s.len() as int);
                    assert forall|u: Seq<char>| u != user@ implies #[trigger] lease_end(self@, u) == lease_end(s, u) by {
                        lemma_lease_end_push(s, (user@, exp), u);
                    }
                    assert(!holders(s).contains(user@));
                    let ev = event_views(events@);
                    assert(ev =~= seq![(user@, PresenceEventActivty::Join)]);
                    assert(ev.drop_first() =~= Seq::<(Seq<char>, PresenceEventActivty)>::empty());
                    assert(apply_events(holders(s), ev) == apply_events(apply_event(holders(s), ev[0]), ev.drop_first()));
                }
            },
        }
        events
    }

    /// Extends the lease of `user` to a full lease from `now`; nothing happens
    /// for a user who holds none.
    pub fn renew(&mut self, user: &String, now: u64)
        requires
            old(self).wf(),
            now + PRESENCE_TTL_MS <= u64::MAX,
        ensures
            final(self).wf(),
            final(self).users() == old(self).users(),
            old(self).users().contains(user@) ==> final(self).expiry(user@) == Some(
                (now + PRESENCE_TTL_MS) as u64,
            ),
            !old(self).users().contains(user@) ==> final(self)@ == old(self)@,
            forall|u: Seq<char>| u != user@ ==> #[trigger] final(self).expiry(u) == old(self).expiry(u),
    {
        let ghost s = self@;
        let exp = now + PRESENCE_TTL_MS;
        match self.position(user) {
            Some(i) => {
                self.leases.set(i, (user.clone(), exp));
                assert(self@ =~= s.update(i as int, (s[i as int].0, exp)));
                proof {
                    lemma_holders_update(s, i as int, exp);
                    lemma_lease_end_at(self@, i as int);
                    assert forall|u: Seq<char>| u != user@ implies #[trigger] lease_end(self@, u) == lease_end(s, u) by {
                        lemma_lease_end_update(s, i as int, exp, u);
                    }
                }
            },
            None => {
                proof {
                    assert(!holders(s).contains(user@));
                }
            },
        }
    }

    /// Ends the lease of `user` at once; a user who held one is announced as
    /// leaving.
    pub fn leave(&mut self, user: &String) -> (r: Vec<PresenceEvent>)
        requires
            old(self).wf(),
        ensures
            final(self).wf(),
            final(self).users() == old(self).users().remove(user@),
            final(self).users() == apply_events(old(self).users(), event_views(r@)),
            forall|u: Seq<char>| u != user@ ==> #[trigger] final(self).expiry(u) == old(self).expiry(u),
            !old(self).users().contains(user@) ==> r@.len() == 0,
            old(self).users().contains(user@) ==> event_views(r@) == seq![
                (user@, PresenceEventActivty::Leave),
            ],
    {
        let ghost s = self@;
        let mut events: Vec<PresenceEvent> = Vec::new();
        match self.position(user) {
            Some(i) => {
                self.leases.remove(i);
                assert(self@ =~= s.remove(i as int));
                events.push(PresenceEvent { user_id: user.clone(), activity: PresenceEventActivty::Leave });
                proof {
                    lemma_holders_remove(s, i as int);
                    assert forall|u: Seq<char>| u != user@ implies #[trigger] lease_end(self@, u) == lease_end(s, u) by {
                        lemma_lease_end_remove(s, i as int, u);
                    }
                    assert(holders(s).contains(user@));
                    let ev = event_views(events@);
                    assert(ev =~= seq![(user@, PresenceEventActivty::Leave)]);
                    assert(ev.drop_first() =~= Seq::<(Seq<char>, PresenceEventActivty)>::empty());
                    assert(apply_events(holders(s), ev) == apply_events(apply_event(holders(s), ev[0]), ev.drop_first()));
                }
            },
            None => {
                proof {
                    assert(!holders(s).contains(user@));
                    assert(holders(s).remove(user@) =~= holders(s));
                    assert(event_views(events@) =~= Seq::<(Seq<char>, PresenceEventActivty)>::empty());
                }
            },
        }
        events
    }

    /// Removes every lease that has ended by `now`, announcing each user as
    /// leaving; afterwards exactly the users whose lease is live at `now` remain.
    pub fn expire(&mut self, now: u64) -> (r: Vec<PresenceEvent>)
        requires
            old(self).wf(),
        ensures
            final(self).wf(),
            final(self).users() == apply_events(old(self).users(), event_views(r@)),
            forall|u: Seq<char>|
                #[trigger] final(self).users().contains(u) <==> (old(self).users().contains(u)
                    && old(self).expiry(u).unwrap() > now),
            forall|u: Seq<char>| final(self).users().contains(u) ==> #[trigger] final(self).expiry(u) == old(self).expiry(u),
    {
        let ghost s = self@;
        let ghost old_users = self.users();
        let mut events: Vec<PresenceEvent> = Vec::new();
        let mut i: usize = 0;
        assert(event_views(events@) =~= Seq::<(Seq<char>, PresenceEventActivty)>::empty());
        assert forall|k: int| 0 <= k < self@.len() implies s.contains(#[trigger] self@[k]) by {
            assert(s[k] == self@[k]);
        }
        while i < self.leases.len()
            invariant
                0 <= i <= self.leases.len(),
                old_users == holders(s),
                distinct_users(s),
                self.wf(),
                self.users() == apply_events(old_users, event_views(events@)),
                forall|k: int| 0 <= k < i ==> (#[trigger] self@[k]).1 > now,
                forall|k: int| 0 <= k < self@.len() ==> s.contains(#[trigger] self@[k]),
                forall|j: int| 0 <= j < s.len() && (#[trigger] s[j]).1 > now ==> self.users().contains(s[j].0),
            decreases self.leases.len() - i,
        {
            if self.leases[i].1 <= now {
                let ghost cur = self@;
                let ghost before_events = event_views(events@);
                let (name, _) = self.leases.remove(i);
                assert(self@ =~= cur.remove(i as int));
                proof {
                    lemma_holders_remove(cur, i as int);
                }
                let ghost u = name@;
                events.push(PresenceEvent { user_id: name, activity: PresenceEventActivty::Leave });
                proof {
                    assert(event_views(events@) =~= before_events.push((u, PresenceEventActivty::Leave)));
                    lemma_apply_events_push(old_users, before_events, (u, PresenceEventActivty::Leave));
                    assert forall|k: int| 0 <= k < self@.len() implies s.contains(#[trigger] self@[k]) by {
                        if k < i {
                            assert(self@[k] == cur[k]);
                        } else {
                            assert(self@[k] == cur[k + 1]);
                        }
                    }
                    assert forall|j: int| 0 <= j < s.len() && (#[trigger] s[j]).1 > now implies self.users().contains(s[j].0) by {
                        assert(holders(cur).contains(s[j].0));
                        if s[j].0 == u {
                            assert(s.contains(cur[i as int]));
                            let j2 = choose|j2: int| 0 <= j2 < s.len() && s[j2] == cur[i as int];
                            assert(s[j2].0 == u);
                            assert(j2 == j);
                        }
                    }
                    assert forall|k: int| 0 <= k < i implies (#[trigger] self@[k]).1 > now by {
                        assert(self@[k] == cur[k]);
                    }
                }
            } else {
                i = i + 1;
            }
        }
        proof {
            assert forall|u: Seq<char>| #[trigger] self.users().contains(u) <==> (old_users.contains(u) && lease_end(s, u).unwrap() > now) by {
                if self.users().contains(u) {
                    let k = choose|k: int| 0 <= k < self@.len() && #[trigger] self@[k].0 == u;
                    assert(s.contains(self@[k]));
                    let j = choose|j: int| 0 <= j < s.len() && s[j] == self@[k];
                    lemma_lease_end_at(s, j);
                    assert(s[j].0 == u);
                }
                if old_users.contains(u) && lease_end(s, u).unwrap() > now {
                    let j = choose|j: int| 0 <= j < s.len() && #[trigger] s[j].0 == u;
                    lemma_lease_end_at(s, j);
                }
            }
            assert forall|u: Seq<char>| self.users().contains(u) implies #[trigger] self.expiry(u) == lease_end(s, u) by {
                let k = choose|k: int| 0 <= k < self@.len() && #[trigger] self@[k].0 == u;
                assert(s.contains(self@[k]));
                let j = choose|j: int| 0 <= j < s.len() && s[j] == self@[k];
                lemma_lease_end_at(s, j);
                lemma_lease_end_at(self@, k);
            }
        }
        events
    }
}

/// When the lease of `user` in `s` ends, if the user holds one.
pub open spec fn lease_end(s: Seq<(Seq<char>, u64)>, user: Seq<char>) -> Option<u64> {
    if exists|i: int| 0 <= i < s.len() && #[trigger] s[i].0 == user {
        Some(s[choose|i: int| 0 <= i < s.len() && #[trigger] s[i].0 == user].1)
    } else {
        None
    }
}

/// The cached presence list of a room, kept in step with lease notifications.
pub struct PresenceSet {
    users: Vec<String>,
}

pub open spec fn distinct(s: Seq<Seq<char>>) -> bool {
    s.no_duplicates()
}

impl View for PresenceSet {
    type V = Set<Seq<char>>;

    closed spec fn view(&self) -> Set<Seq<char>> {
        texts(self.users@).to_set()
    }
}

impl PresenceSet {
    pub closed spec fn wf(&self) -> bool {
        distinct(texts(self.users@))
    }

    pub fn new() -> (r: PresenceSet)
        ensures
            r.wf(),
            r@ == Set::<Seq<char>>::empty(),
    {
        let r = PresenceSet { users: Vec::new() };
        assert(r@ =~= Set::<Seq<char>>::empty());
        r
    }

    fn position(&self, user: &String) -> (r: Option<usize>)
        ensures
            r matches Some(i) ==> i < self.users@.len() && self.users@[i as int]@ == user@,
            r is None ==> !self@.contains(user@),
    {
        let mut i: usize = 0;
        while i < self.users.len()
            invariant
                0 <= i <= self.users.len(),
                forall|j: int| 0 <= j < i ==> (#[trigger] self.users@[j])@ != user@,
            decreases self.users.len() - i,
        {
            if self.users[i] == *user {
                return Some(i);
            }
            i = i + 1;
        }
        proof {
            if self@.contains(user@) {
                let k = choose|k: int| 0 <= k < texts(self.users@).len() && texts(self.users@)[k] == user@;
                assert(self.users@[k]@ == user@);
            }
        }
        None
    }

    /// Adds `user` unless already present.
    pub fn add(&mut self, user: &String)
        requires
            old(self).wf(),
        ensures
            final(self).wf(),
            final(self)@ == old(self)@.insert(user@),
    {
        let p = self.position(user);
        if p.is_none() {
            let ghost t = texts(self.users@);
            self.users.push(user.clone());
            assert(texts(self.users@) =~= t.push(user@));
            assert(texts(self.users@).to_set() =~= t.to_set().insert(user@)) by {
                assert forall|u: Seq<char>| texts(self.users@).to_set().contains(u) implies t.to_set().insert(user@).contains(u) by {
                    let k = choose|k: int| 0 <= k < texts(self.users@).len() && texts(self.users@)[k] == u;
                    if k < t.len() {
                        assert(t[k] == u);
                    }
                }
                assert forall|u: Seq<char>| t.to_set().insert(user@).contains(u) implies texts(self.users@).to_set().contains(u) by {
                    if u == user@ {
                        assert(texts(self.users@)[t.len() as int] == u);
                    } else {
                        let k = choose|k: int| 0 <= k < t.len() && t[k] == u;
                        assert(texts(self.users@)[k] == u);
                    }
                }
            }
            assert(distinct(texts(self.users@))) by {
                assert forall|i: int, j: int| 0 <= i < texts(self.users@).len() && 0 <= j < texts(self.users@).len() && i != j implies texts(self.users@)[i] != texts(self.users@)[j] by {
                    if i == t.len() {
                        assert(t.to_set().contains(t[j]));
                    } else if j == t.len() {
                        assert(t.to_set().contains(t[i]));
                    }
                }
            }
        } else {
            let i = p.unwrap();
            assert(texts(self.users@)[i as int] == user@);
            assert(self@.insert(user@) =~= self@);
        }
    }

    /// Removes `user` if present.
    pub fn remove(&mut self, user: &String)
        requires
            old(self).wf(),
        ensures
            final(self).wf(),
            final(self)@ == old(self)@.remove(user@),
    {
        match self.position(user) {
            None => {
                assert(self@.remove(user@) =~= self@);
            },
            Some(i) => {
                let ghost t = texts(self.users@);
                assert(t[i as int] == user@);
                self.users.remove(i);
                let ghost t2 = texts(self.users@);
                assert(t2 =~= t.remove(i as int));
                assert forall|k: int| 0 <= k < t2.len() implies #[trigger] t2[k] == t[if k < i { k } else { k + 1 }] by {}
                assert(t2.to_set() =~= t.to_set().remove(user@)) by {
                    assert forall|u: Seq<char>| t2.to_set().contains(u) implies t.to_set().remove(user@).contains(u) by {
                        let k = choose|k: int| 0 <= k < t2.len() && t2[k] == u;
                        let k2 = if k < i { k } else { k + 1 };
                        assert(t[k2] == u);
                        assert(k2 != i);
                    }
                    assert forall|u: Seq<char>| t.to_set().remove(user@).contains(u) implies t2.to_set().contains(u) by {
                        let k = choose|k: int| 0 <= k < t.len() && t[k] == u;
                        assert(k != i);
                        let k2 = if k < i { k } else { k - 1 };
                        assert(t2[k2] == u);
                    }
                }
                assert(distinct(t2)) by {
                    assert forall|a: int, b: int| 0 <= a < t2.len() && 0 <= b < t2.len() && a != b implies t2[a] != t2[b] by {
                        let a2 = if a < i { a } else { a + 1 };
                        let b2 = if b < i { b } else { b + 1 };
                        assert(t2[a] == t[a2]);
                        assert(t2[b] == t[b2]);
                    }
                }
            },
        }
    }

    /// Follows one notification: a join adds the user, a leave removes them.
    pub fn apply(&mut self, event: &PresenceEvent)
        requires
            old(self).wf(),
        ensures
            final(self).wf(),
            final(self)@ == apply_event(old(self)@, (event.user_id@, event.activity)),
    {
        match event.activity {
            PresenceEventActivty::Join => self.add(&event.user_id),
            PresenceEventActivty::Leave => self.remove(&event.user_id),
        }
    }

    /// Replaces the contents with the users of a snapshot of live leases.
    pub fn rebuild(&mut self, snapshot: &Vec<String>)
        ensures
            final(self).wf(),
            final(self)@ == texts(snapshot@).to_set(),
    {
        *self = PresenceSet::new();
        let mut i: usize = 0;
        while i < snapshot.len()
            invariant
                0 <= i <= snapshot.len(),
                self.wf(),
                self@ == texts(snapshot@.subrange(0, i as int)).to_set(),
            decreases snapshot.len() - i,
        {
            let ghost before = self@;
            self.add(&snapshot[i]);
            assert(texts(snapshot@.subrange(0, i + 1)) =~= texts(snapshot@.subrange(0, i as int)).push(snapshot@[i as int]@));
            proof {
                let prefix = texts(snapshot@.subrange(0, i as int));
                Seq::lemma_to_set_insert_commutes(prefix, snapshot@[i as int]@);
                assert(prefix + seq![snapshot@[i as int]@] =~= prefix.push(snapshot@[i as int]@));
            }
            i = i + 1;
        }
        assert(snapshot@.subrange(0, i as int) =~= snapshot@);
    }

    /// The users present, each once.
    pub fn list(&self) -> (r: Vec<String>)
        requires
            self.wf(),
        ensures
            texts(r@).to_set() == self@,
            texts(r@).len() == self@.len(),
    {
        proof {
            texts(self.users@).unique_seq_to_set();
        }
        let r = self.users.clone();
        assert(texts(r@) =~= texts(self.users@));
        r
    }
}

/// The presence list rebuilt from a snapshot of live leases, and the one note
/// to post.
pub struct Reconciled {
    pub members: Vec<String>,
    pub notice: Message,
}

/// Rebuilds the presence list from a snapshot of live leases when the room's
/// orchestrator starts: each user once, and one note that presence changed.
pub fn reconcile_snapshot(snapshot: &Vec<String>) -> (r: Reconciled)
    ensures
        texts(r.members@).to_set() == texts(snapshot@).to_set(),
        texts(r.members@).no_duplicates(),
        r.notice.id is None,
        r.notice.data@ == EventData::PresencesChanged,
{
    let mut set = PresenceSet::new();
    set.rebuild(snapshot);
    let members = set.list();
    proof {
        texts(members@).lemma_no_dup_set_cardinality();
    }
    Reconciled { members, notice: Message::presence_changed() }
}

/// Sets the cached presence list from a snapshot of the live leases, when the
/// room's orchestrator starts; returns the one note to post.
pub fn reconcile_presence(cache: &mut PresenceSet, snapshot: &Vec<String>) -> (r: Message)
    ensures
        final(cache).wf(),
        final(cache)@ == texts(snapshot@).to_set(),
        r.id is None,
        r.data@ == EventData::PresencesChanged,
{
    cache.rebuild(snapshot);
    Message::presence_changed()
}

/// What one presence notification calls for.
pub struct PresenceEffects {
    /// The user joined (else left) the cached presence list.
    pub joined: bool,
    /// The user is taken out of the turn queue.
    pub leaves_turns: bool,
    /// The note to post.
    pub notice: Message,
}

/// Decides what one presence notification calls for: a join adds the user,
/// a leave removes them from the presence list and the turn queue; either
/// posts that presence changed.
pub fn presence_effects(event: &PresenceEvent) -> (r: PresenceEffects)
    ensures
        r.joined == (event.activity == PresenceEventActivty::Join),
        r.leaves_turns == (event.activity == PresenceEventActivty::Leave),
        r.notice.id is None,
        r.notice.data@ == EventData::PresencesChanged,
{
    let joined = event.activity == PresenceEventActivty::Join;
    PresenceEffects { joined, leaves_turns: !joined, notice: Message::presence_changed() }
}

/// Follows one presence notification: updates the cached list, takes a user
/// who left out of the turn queue, and returns the note to post.
pub fn on_presence_event(cache: &mut PresenceSet, turns: &mut TurnQueue, event: &PresenceEvent) -> (r: Message)
    requires
        old(cache).wf(),
    ensures
        final(cache).wf(),
        final(cache)@ == apply_event(old(cache)@, (event.user_id@, event.activity)),
        event.activity == PresenceEventActivty::Join ==> final(turns)@ == old(turns)@,
        event.activity == PresenceEventActivty::Leave ==> final(turns)@ == without(
            old(turns)@,
            event.user_id@,
        ),
        r.id is None,
        r.data@ == EventData::PresencesChanged,
{
    let effects = presence_effects(event);
    cache.apply(event);
    if effects.leaves_turns {
        turns.remove_turn(&event.user_id);
    }
    effects.notice
}

/// The users whose lease in `leases` is live at `now`.
pub open spec fn live_at(leases: Seq<(Seq<char>, u64)>, now: u64) -> Set<Seq<char>> {
    holders(leases).filter(|u: Seq<char>| lease_end(leases, u).unwrap() > now)
}

/// After the expiry sweep at `now` and its notifications, the cached list is
/// exactly the set of users with a live lease at `now`.
pub proof fn lemma_swept_cache_is_live_set(
    cache: Set<Seq<char>>,
    before: Seq<(Seq<char>, u64)>,
    after: Set<Seq<char>>,
    events: Seq<(Seq<char>, PresenceEventActivty)>,
    now: u64,
)
    requires
        cache == holders(before),
        after == apply_events(holders(before), events),
        forall|u: Seq<char>|
            #[trigger] after.contains(u) <==> (holders(before).contains(u) && lease_end(
                before,
                u,
            ).unwrap() > now),
    ensures
        apply_events(cache, events) == live_at(before, now),
{
    assert(after =~= live_at(before, now));
}

} // verus!
