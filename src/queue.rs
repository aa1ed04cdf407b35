use vstd::prelude::*;

use crate::room::texts;

verus! {

/// The order in which users get to play a track: a FIFO of user ids.
pub struct TurnQueue {
    users: Vec<String>,
}

impl View for TurnQueue {
    type V = Seq<Seq<char>>;

    closed spec fn view(&self) -> Seq<Seq<char>> {
        texts(self.users@)
    }
}

/// `s` without any occurrence of `x`.
pub open spec fn without(s: Seq<Seq<char>>, x: Seq<char>) -> Seq<Seq<char>> {
    s.filter(|u: Seq<char>| u != x)
}

impl TurnQueue {
    pub fn new() -> (r: TurnQueue)
        ensures
            r@ == Seq::<Seq<char>>::empty(),
    {
        let r = TurnQueue { users: Vec::new() };
        assert(r@ =~= Seq::<Seq<char>>::empty());
        r
    }

    /// Puts `user` at the tail.
    pub fn enqueue_turn(&mut self, user: String)
        ensures
            final(self)@ == old(self)@.push(user@),
    {
        let ghost u = user@;
        self.users.push(user);
        assert(self@ =~= old(self)@.push(u));
    }

    /// Takes the user at the head.
    pub fn dequeue_turn(&mut self) -> (r: Option<String>)
        ensures
            old(self)@.len() == 0 ==> r is None && final(self)@ == old(self)@,
            old(self)@.len() > 0 ==> (r matches Some(u) && u@ == old(self)@[0] && final(self)@
                == old(self)@.drop_first()),
    {
        if self.users.len() == 0 {
            None
        } else {
            let u = self.users.remove(0);
            assert(self@ =~= old(self)@.drop_first());
            Some(u)
        }
    }

    /// Takes every occurrence of `user` out of the queue, keeping the order of
    /// the others.
    pub fn remove_turn(&mut self, user: &String)
        ensures
            final(self)@ == without(old(self)@, user@),
    {
        let ghost start = self@;
        let mut kept: Vec<String> = Vec::new();
        let mut i: usize = 0;
        while i < self.users.len()
            invariant
                0 <= i <= self.users.len(),
                self@ == start,
                texts(kept@) == without(start.subrange(0, i as int), user@),
            decreases self.users.len() - i,
        {
            let ghost prefix = start.subrange(0, i as int);
            assert(start.subrange(0, i + 1) =~= prefix.push(start[i as int]));
            assert(start.subrange(0, i + 1).drop_last() =~= prefix);
            proof {
                reveal(Seq::filter);
            }
            if self.users[i] != *user {
                let ghost prev = kept@;
                kept.push(self.users[i].clone());
                assert(texts(kept@) =~= texts(prev).push(start[i as int]));
            }
            i = i + 1;
        }
        assert(start.subrange(0, i as int) =~= start);
        self.users = kept;
    }

    /// The users in queue order.
    pub fn list_turn(&self) -> (r: Vec<String>)
        ensures
            texts(r@) == self@,
    {
        let r = self.users.clone();
        assert(texts(r@) =~= self@);
        r
    }
}

/// A room's track queues, one FIFO of track ids for each user.
pub struct TrackQueues {
    queues: Vec<(String, Vec<String>)>,
}

pub open spec fn queue_views(q: Seq<(String, Vec<String>)>) -> Seq<(Seq<char>, Seq<Seq<char>>)> {
    q.map_values(|e: (String, Vec<String>)| (e.0@, texts(e.1@)))
}

/// The queue kept for `user`: the tracks pushed and not yet popped, oldest first.
pub open spec fn tracks_of(q: Seq<(Seq<char>, Seq<Seq<char>>)>, user: Seq<char>) -> Seq<Seq<char>> {
    if exists|i: int| 0 <= i < q.len() && #[trigger] q[i].0 == user {
        q[choose|i: int| 0 <= i < q.len() && #[trigger] q[i].0 == user].1
    } else {
        Seq::empty()
    }
}

pub open spec fn users_distinct(q: Seq<(Seq<char>, Seq<Seq<char>>)>) -> bool {
    forall|i: int, j: int| 0 <= i < q.len() && 0 <= j < q.len() && i != j ==> q[i].0 != q[j].0
}

proof fn lemma_tracks_at(q: Seq<(Seq<char>, Seq<Seq<char>>)>, i: int)
    requires
        users_distinct(q),
        0 <= i < q.len(),
    ensures
        tracks_of(q, q[i].0) == q[i].1,
{
    let j = choose|j: int| 0 <= j < q.len() && #[trigger] q[j].0 == q[i].0;
    assert(j == i);
}

proof fn lemma_tracks_update(
    q: Seq<(Seq<char>, Seq<Seq<char>>)>,
    i: int,
    t: Seq<Seq<char>>,
    other: Seq<char>,
)
    requires
        users_distinct(q),
        0 <= i < q.len(),
    ensures
        users_distinct(q.update(i, (q[i].0, t))),
        other != q[i].0 ==> tracks_of(q.update(i, (q[i].0, t)), other) == tracks_of(q, other),
        tracks_of(q.update(i, (q[i].0, t)), q[i].0) == t,
{
    let q2 = q.update(i, (q[i].0, t));
    assert forall|a: int, b: int|
        0 <= a < q2.len() && 0 <= b < q2.len() && a != b implies q2[a].0 != q2[b].0 by {
        assert(q2[a].0 == q[a].0);
        assert(q2[b].0 == q[b].0);
    }
    lemma_tracks_at(q2, i);
    if other == q[i].0 {
    } else if exists|j: int| 0 <= j < q.len() && #[trigger] q[j].0 == other {
        let j = choose|j: int| 0 <= j < q.len() && #[trigger] q[j].0 == other;
        assert(q2[j].0 == other);
        lemma_tracks_at(q, j);
        lemma_tracks_at(q2, j);
    } else {
        assert forall|j: int| 0 <= j < q2.len() implies #[trigger] q2[j].0 != other by {
            assert(q2[j].0 == q[j].0);
        }
    }
}

proof fn lemma_tracks_add(q: Seq<(Seq<char>, Seq<Seq<char>>)>, user: Seq<char>, t: Seq<Seq<char>>, other: Seq<char>)
    requires
        users_distinct(q),
        forall|j: int| 0 <= j < q.len() ==> #[trigger] q[j].0 != user,
    ensures
        users_distinct(q.push((user, t))),
        other != user ==> tracks_of(q.push((user, t)), other) == tracks_of(q, other),
        tracks_of(q.push((user, t)), user) == t,
{
    let q2 = q.push((user, t));
    assert forall|a: int, b: int|
        0 <= a < q2.len() && 0 <= b < q2.len() && a != b implies q2[a].0 != q2[b].0 by {
        if a < q.len() {
            assert(q2[a] == q[a]);
        }
        if b < q.len() {
            assert(q2[b] == q[b]);
        }
    }
    lemma_tracks_at(q2, q.len() as int);
    if other == user {
    } else if exists|j: int| 0 <= j < q.len() && #[trigger] q[j].0 == other {
        let j = choose|j: int| 0 <= j < q.len() && #[trigger] q[j].0 == other;
        assert(q2[j] == q[j]);
        lemma_tracks_at(q, j);
        lemma_tracks_at(q2, j);
    } else {
        assert forall|j: int| 0 <= j < q2.len() implies #[trigger] q2[j].0 != other by {
            if j < q.len() {
                assert(q2[j] == q[j]);
            }
        }
    }
}

impl View for TrackQueues {
    type V = Seq<(Seq<char>, Seq<Seq<char>>)>;

    closed spec fn view(&self) -> Seq<(Seq<char>, Seq<Seq<char>>)> {
        queue_views(self.queues@)
    }
}

impl TrackQueues {
    pub closed spec fn wf(&self) -> bool {
        users_distinct(self@)
    }

    /// The queue of `user`, oldest track first.
    pub open spec fn tracks(&self, user: Seq<char>) -> Seq<Seq<char>> {
        tracks_of(self@, user)
    }

    pub fn new() -> (r: TrackQueues)
        ensures
            r.wf(),
            forall|u: Seq<char>| r.tracks(u) == Seq::<Seq<char>>::empty(),
    {
        let r = TrackQueues { queues: Vec::new() };
        assert(r@ =~= Seq::<(Seq<char>, Seq<Seq<char>>)>::empty());
        r
    }

    fn position(&self, user: &String) -> (r: Option<usize>)
        ensures
            r matches Some(i) ==> i < self@.len() && self@[i as int].0 == user@,
            r is None ==> forall|j: int| 0 <= j < self@.len() ==> #[trigger] self@[j].0 != user@,
    {
        let mut i: usize = 0;
        while i < self.queues.len()
            invariant
                0 <= i <= self.queues.len(),
                forall|j: int| 0 <= j < i ==> #[trigger] self@[j].0 != user@,
            decreases self.queues.len() - i,
        {
            if self.queues[i].0 == *user {
                return Some(i);
            }
            i = i + 1;
        }
        None
    }

    /// Adds `track` at the tail of the queue of `user`.
    pub fn push_track(&mut self, user: &String, track: String)
        requires
            old(self).wf(),
        ensures
            final(self).wf(),
            final(self).tracks(user@) == old(self).tracks(user@).push(track@),
            forall|u: Seq<char>| u != user@ ==> final(self).tracks(u) == old(self).tracks(u),
    {
        let ghost q = self@;
        match self.position(user) {
            Some(i) => {
                let (name, mut list) = self.queues.remove(i);
                let ghost t = track@;
                list.push(track);
                assert(texts(list@) =~= q[i as int].1.push(t));
                self.queues.insert(i, (name, list));
                assert(self@ =~= q.update(i as int, (q[i as int].0, q[i as int].1.push(t))));
                proof {
                    lemma_tracks_at(q, i as int);
                    assert forall|u: Seq<char>| u != user@ implies #[trigger] tracks_of(self@, u)
                        == tracks_of(q, u) by {
                        lemma_tracks_update(q, i as int, q[i as int].1.push(t), u);
                    }
                    lemma_tracks_update(q, i as int, q[i as int].1.push(t), q[i as int].0);
                }
            },
            None => {
                let mut list: Vec<String> = Vec::new();
                let ghost t = track@;
                list.push(track);
                assert(texts(list@) =~= seq![t]);
                self.queues.push((user.clone(), list));
                assert(self@ =~= q.push((user@, seq![t])));
                proof {
                    assert(tracks_of(q, user@) == Seq::<Seq<char>>::empty());
                    assert(Seq::<Seq<char>>::empty().push(t) =~= seq![t]);
                    assert forall|u: Seq<char>| u != user@ implies #[trigger] tracks_of(self@, u)
                        == tracks_of(q, u) by {
                        lemma_tracks_add(q, user@, seq![t], u);
                    }
                    lemma_tracks_add(q, user@, seq![t], user@);
                }
            },
        }
    }

    /// Takes the oldest track of `user`, if any.
    pub fn pop_track(&mut self, user: &String) -> (r: Option<String>)
        requires
            old(self).wf(),
        ensures
            final(self).wf(),
            old(self).tracks(user@).len() == 0 ==> r is None && final(self).tracks(user@)
                == old(self).tracks(user@),
            old(self).tracks(user@).len() > 0 ==> (r matches Some(t) && t@ == old(self).tracks(
                user@,
            )[0] && final(self).tracks(user@) == old(self).tracks(user@).drop_first()),
            forall|u: Seq<char>| u != user@ ==> final(self).tracks(u) == old(self).tracks(u),
    {
        let ghost q = self@;
        match self.position(user) {
            Some(i) => {
                proof {
                    lemma_tracks_at(q, i as int);
                }
                if self.queues[i].1.len() == 0 {
                    return None;
                }
                let (name, mut list) = self.queues.remove(i);
                let t = list.remove(0);
                assert(texts(list@) =~= q[i as int].1.drop_first());
                self.queues.insert(i, (name, list));
                assert(self@ =~= q.update(i as int, (q[i as int].0, q[i as int].1.drop_first())));
                proof {
                    assert forall|u: Seq<char>| u != user@ implies #[trigger] tracks_of(self@, u)
                        == tracks_of(q, u) by {
                        lemma_tracks_update(q, i as int, q[i as int].1.drop_first(), u);
                    }
                    lemma_tracks_update(q, i as int, q[i as int].1.drop_first(), q[i as int].0);
                }
                Some(t)
            },
            None => None,
        }
    }
}

} // verus!
