use vstd::prelude::*;

use crate::fields::fields_view;
use crate::message::{decode_spec, EventData, Message, MessageType};
use crate::stream_id::{id_lt, StreamId};

verus! {

/// An entry of the log as the model sees it: its id and what it says.
pub type Entry = (StreamId, EventData);

/// Ids strictly increase along the log.
pub open spec fn increasing(entries: Seq<Entry>) -> bool {
    forall|i: int, j: int| 0 <= i < j < entries.len() ==> id_lt(entries[i].0, entries[j].0)
}

/// The id of the newest entry, if any.
pub open spec fn last_id(entries: Seq<Entry>) -> Option<StreamId> {
    if entries.len() == 0 {
        None
    } else {
        Some(entries.last().0)
    }
}

/// Whether an entry with id `id` comes after the cursor.
pub open spec fn beyond(cursor: Option<StreamId>, id: StreamId) -> bool {
    match cursor {
        None => true,
        Some(c) => id_lt(c, id),
    }
}

/// The entries that come after the cursor, in log order.
pub open spec fn after(entries: Seq<Entry>, cursor: Option<StreamId>) -> Seq<Entry> {
    entries.filter(|e: Entry| beyond(cursor, e.0))
}

/// The id the store gives the next entry appended at `now_ms`.
pub open spec fn next_id(last: Option<StreamId>, now_ms: u64) -> StreamId {
    match last {
        None => StreamId { ms: now_ms, seq: 0 },
        Some(l) => if now_ms > l.ms {
            StreamId { ms: now_ms, seq: 0 }
        } else if l.seq < u64::MAX {
            StreamId { ms: l.ms, seq: (l.seq + 1) as u64 }
        } else {
            StreamId { ms: (l.ms + 1) as u64, seq: 0 }
        },
    }
}

/// Whether one more id can follow `last`.
pub open spec fn has_next_id(last: Option<StreamId>) -> bool {
    match last {
        None => true,
        Some(l) => l.ms < u64::MAX || l.seq < u64::MAX,
    }
}

pub open spec fn message_entry(m: Message) -> Entry {
    (m.id.unwrap(), m.data@)
}

pub open spec fn message_entries(v: Seq<Message>) -> Seq<Entry> {
    v.map_values(|m: Message| message_entry(m))
}

/// A room's event log: append-only, ids strictly increasing.
pub struct EventLog {
    entries: Vec<Message>,
}

impl View for EventLog {
    type V = Seq<Entry>;

    closed spec fn view(&self) -> Seq<Entry> {
        message_entries(self.entries@)
    }
}

/// A reader's position in a log: entries after `cursor` are still to come.
pub struct Subscription {
    pub cursor: Option<StreamId>,
}

/// The cursor after a batch: the highest of the old cursor and the ids seen.
pub open spec fn advance_spec(cursor: Option<StreamId>, ids: Seq<StreamId>) -> Option<StreamId>
    decreases ids.len(),
{
    if ids.len() == 0 {
        cursor
    } else {
        let c = advance_spec(cursor, ids.drop_last());
        let id = ids.last();
        if beyond(c, id) {
            Some(id)
        } else {
            c
        }
    }
}

/// `m` is what the stored entry `e` says, under the id the store gave it.
pub open spec fn decoded_one(e: (StreamId, Vec<(String, String)>), m: Message) -> bool {
    m.id == Some(e.0) && decode_spec(fields_view(e.1@)) == Ok::<EventData, &'static str>(m.data@)
}

pub open spec fn decoded_all(batch: Seq<(StreamId, Vec<(String, String)>)>, out: Seq<Message>) -> bool {
    out.len() == batch.len() && forall|i: int|
        0 <= i < batch.len() ==> #[trigger] decoded_one(batch[i], out[i])
}

/// At most the first `n` items of `s`.
pub open spec fn first_n<A>(s: Seq<A>, n: nat) -> Seq<A> {
    if n < s.len() {
        s.take(n as int)
    } else {
        s
    }
}

proof fn lemma_after_push(s: Seq<Entry>, e: Entry, cursor: Option<StreamId>)
    ensures
        after(s.push(e), cursor) == (if beyond(cursor, e.0) {
            after(s, cursor).push(e)
        } else {
            after(s, cursor)
        }),
{
    reveal(Seq::filter);
    assert(s.push(e).drop_last() =~= s);
}

proof fn lemma_after_none(s: Seq<Entry>, cursor: Option<StreamId>)
    requires
        forall|i: int| 0 <= i < s.len() ==> !beyond(cursor, #[trigger] s[i].0),
    ensures
        after(s, cursor) == Seq::<Entry>::empty(),
    decreases s.len(),
{
    reveal(Seq::filter);
    if s.len() > 0 {
        lemma_after_none(s.drop_last(), cursor);
    }
}

proof fn lemma_after_all(s: Seq<Entry>, cursor: Option<StreamId>)
    requires
        forall|i: int| 0 <= i < s.len() ==> beyond(cursor, #[trigger] s[i].0),
    ensures
        after(s, cursor) == s,
    decreases s.len(),
{
    reveal(Seq::filter);
    if s.len() > 0 {
        lemma_after_all(s.drop_last(), cursor);
        assert(s.drop_last().push(s.last()) =~= s);
    }
}

/// A reader that subscribes when the log holds `before` receives none of
/// those entries and every entry appended afterwards, in order.
pub proof fn lemma_subscriber_sees_only_new(before: Seq<Entry>, appended: Seq<Entry>)
    requires
        increasing(before + appended),
    ensures
        after(before + appended, last_id(before)) == appended,
{
    let all = before + appended;
    let c = last_id(before);
    assert forall|i: int| 0 <= i < before.len() implies !beyond(c, #[trigger] before[i].0) by {
        assert(all[before.len() - 1] == before.last());
        if i < before.len() - 1 {
            assert(all[i] == before[i]);
            assert(id_lt(all[i].0, all[before.len() - 1].0));
        }
    }
    assert forall|i: int| 0 <= i < appended.len() implies beyond(c, #[trigger] appended[i].0) by {
        assert(all[before.len() + i] == appended[i]);
        if before.len() > 0 {
            assert(all[before.len() - 1] == before.last());
        }
    }
    lemma_after_none(before, c);
    lemma_after_all(appended, c);
    Seq::filter_distributes_over_add(before, appended, |e: Entry| beyond(c, e.0));
    assert(after(before, c) + after(appended, c) =~= appended);
}

impl EventLog {
    pub closed spec fn wf(&self) -> bool {
        &&& increasing(self@)
        &&& forall|i: int| 0 <= i < self.entries@.len() ==> (#[trigger] self.entries@[i]).id is Some
    }

    /// Ids strictly increase along a well-formed log.
    pub proof fn lemma_ids_increase(&self)
        requires
            self.wf(),
        ensures
            increasing(self@),
    {
    }

    /// An empty log.
    pub fn new() -> (r: EventLog)
        ensures
            r.wf(),
            increasing(r@),
            r@ == Seq::<Entry>::empty(),
    {
        let r = EventLog { entries: Vec::new() };
        assert(r@ =~= Seq::<Entry>::empty());
        r
    }

    /// The id of the newest entry.
    pub fn last(&self) -> (r: Option<StreamId>)
        requires
            self.wf(),
        ensures
            r == last_id(self@),
    {
        let n = self.entries.len();
        if n == 0 {
            None
        } else {
            self.entries[n - 1].id
        }
    }

    /// Appends an entry at time `now_ms` and returns the id it was given, which
    /// is higher than every id before it.
    pub fn append(&mut self, data: MessageType, now_ms: u64) -> (r: StreamId)
        requires
            old(self).wf(),
            has_next_id(last_id(old(self)@)),
        ensures
            final(self).wf(),
            increasing(final(self)@),
            r == next_id(last_id(old(self)@), now_ms),
            forall|i: int| 0 <= i < old(self)@.len() ==> id_lt(#[trigger] old(self)@[i].0, r),
            final(self)@ == old(self)@.push((r, data@)),
    {
        let id = match self.last() {
            None => StreamId { ms: now_ms, seq: 0 },
            Some(l) => if now_ms > l.ms {
                StreamId { ms: now_ms, seq: 0 }
            } else if l.seq < u64::MAX {
                StreamId { ms: l.ms, seq: l.seq + 1 }
            } else {
                StreamId { ms: l.ms + 1, seq: 0 }
            },
        };
        let ghost before = self@;
        let ghost d = data@;
        self.entries.push(Message { id: Some(id), data });
        assert(self@ =~= before.push((id, d)));
        assert forall|i: int, j: int| 0 <= i < j < self@.len() implies id_lt(
            self@[i].0,
            self@[j].0,
        ) by {
            if j == before.len() && i < before.len() - 1 {
                assert(id_lt(before[i].0, before.last().0));
            }
        }
        assert forall|i: int| 0 <= i < before.len() implies id_lt(#[trigger] before[i].0, id) by {
            assert(self@[i] == before[i]);
            assert(self@[before.len() as int].0 == id);
        }
        id
    }

    /// A reader positioned at the newest entry.
    pub fn subscribe(&self) -> (r: Subscription)
        requires
            self.wf(),
        ensures
            r.cursor == last_id(self@),
    {
        Subscription::at_latest(self.last())
    }

    /// Hands the reader, in order, at most `max` of the entries after its
    /// cursor, and moves the cursor to the last one handed out.
    pub fn poll(&self, sub: &mut Subscription, max: usize) -> (r: Vec<Message>)
        requires
            self.wf(),
        ensures
            message_entries(r@) == first_n(after(self@, old(sub).cursor), max as nat),
            final(sub).cursor == (if r@.len() == 0 {
                old(sub).cursor
            } else {
                r@.last().id
            }),
            forall|i: int| 0 <= i < r@.len() ==> (#[trigger] r@[i]).id is Some,
    {
        let ghost c = sub.cursor;
        let mut out: Vec<Message> = Vec::new();
        let mut i: usize = 0;
        while i < self.entries.len()
            invariant
                0 <= i <= self.entries.len(),
                self.wf(),
                sub.cursor == c,
                message_entries(out@) == first_n(
                    after(self@.subrange(0, i as int), c),
                    max as nat,
                ),
                forall|k: int| 0 <= k < out@.len() ==> (#[trigger] out@[k]).id is Some,
            decreases self.entries.len() - i,
        {
            let e = &self.entries[i];
            let id = match e.id {
                Some(id) => id,
                None => {
                    assert(false);
                    StreamId { ms: 0, seq: 0 }
                },
            };
            let ghost prefix = self@.subrange(0, i as int);
            assert(self@.subrange(0, i + 1) =~= prefix.push(self@[i as int]));
            proof {
                lemma_after_push(prefix, self@[i as int], c);
            }
            let is_new = match sub.cursor {
                None => true,
                Some(cur) => cur.is_before(&id),
            };
            if is_new && out.len() < max {
                let ghost prev = out@;
                let m = e.clone();
                out.push(m);
                assert(message_entries(out@) =~= message_entries(prev).push(self@[i as int]));
                assert(first_n(after(prefix, c), max as nat) == after(prefix, c));
            }
            i = i + 1;
        }
        assert(self@.subrange(0, i as int) =~= self@);
        if out.len() > 0 {
            sub.cursor = out[out.len() - 1].id;
        }
        out
    }
}

impl Subscription {
    /// A reader that starts at the newest entry `last`: nothing written before it
    /// will be delivered.
    pub fn at_latest(last: Option<StreamId>) -> (r: Subscription)
        ensures
            r.cursor == last,
    {
        Subscription { cursor: last }
    }

    /// Takes in one batch read from the store after the cursor: decodes each
    /// entry in order and moves the cursor to the highest id seen, also when
    /// the batch is empty or an entry cannot be read.
    pub fn accept_batch(&mut self, batch: &Vec<(StreamId, Vec<(String, String)>)>) -> (r: Result<
        Vec<Message>,
        &'static str,
    >)
        ensures
            final(self).cursor == advance_spec(
                old(self).cursor,
                batch@.map_values(|e: (StreamId, Vec<(String, String)>)| e.0),
            ),
            r matches Ok(out) ==> decoded_all(batch@, out@),
            r matches Err(e) ==> exists|i: int|
                0 <= i < batch@.len() && decode_spec(fields_view(#[trigger] batch@[i].1@))
                    == Err::<EventData, &'static str>(e) && forall|j: int|
                    0 <= j < i ==> (decode_spec(fields_view(#[trigger] batch@[j].1@)) is Ok),
    {
        let ghost ids = batch@.map_values(|e: (StreamId, Vec<(String, String)>)| e.0);
        let ghost start = self.cursor;
        let mut out: Vec<Message> = Vec::new();
        let mut failure: Option<&'static str> = None;
        let mut i: usize = 0;
        while i < batch.len()
            invariant
                0 <= i <= batch.len(),
                ids == batch@.map_values(|e: (StreamId, Vec<(String, String)>)| e.0),
                self.cursor == advance_spec(start, ids.subrange(0, i as int)),
                failure is None ==> decoded_all(batch@.subrange(0, i as int), out@),
                failure matches Some(e) ==> exists|k: int|
                    0 <= k < batch@.len() && decode_spec(fields_view(#[trigger] batch@[k].1@))
                        == Err::<EventData, &'static str>(e) && forall|j: int|
                        0 <= j < k ==> (decode_spec(fields_view(#[trigger] batch@[j].1@)) is Ok),
            decreases batch.len() - i,
        {
            let id = batch[i].0;
            let advance = match self.cursor {
                None => true,
                Some(c) => c.is_before(&id),
            };
            if advance {
                self.cursor = Some(id);
            }
            assert(ids.subrange(0, i + 1).drop_last() =~= ids.subrange(0, i as int));
            if failure.is_none() {
                match Message::from_fields(id, &batch[i].1) {
                    Ok(m) => {
                        let ghost prev = out@;
                        let ghost gm = m;
                        out.push(m);
                        assert(decoded_all(batch@.subrange(0, i + 1), out@)) by {
                            let b = batch@.subrange(0, i + 1);
                            let p = batch@.subrange(0, i as int);
                            assert forall|k: int| 0 <= k < b.len() implies #[trigger] decoded_one(
                                b[k],
                                out@[k],
                            ) by {
                                if k < i {
                                    assert(b[k] == p[k]);
                                    assert(out@[k] == prev[k]);
                                    assert(decoded_one(p[k], prev[k]));
                                } else {
                                    assert(out@[k] == gm);
                                }
                            }
                        }
                    },
                    Err(e) => {
                        proof {
                            assert forall|j: int| 0 <= j < i implies (decode_spec(
                                fields_view(#[trigger] batch@[j].1@),
                            ) is Ok) by {
                                let p = batch@.subrange(0, i as int);
                                assert(p[j] == batch@[j]);
                                assert(decoded_one(p[j], out@[j]));
                            }
                        }
                        failure = Some(e);
                    },
                }
            }
            i = i + 1;
        }
        assert(ids.subrange(0, i as int) =~= ids);
        assert(batch@.subrange(0, i as int) =~= batch@);
        match failure {
            Some(e) => Err(e),
            None => Ok(out),
        }
    }
}

} // verus!
