use vstd::prelude::*;

verus! {

/// How long a claim lives without renewal.
pub const CLAIM_TTL_MS: u64 = 5000;

/// How often the owner renews its claim; shorter than the lease, leaving room
/// for one missed renewal.
pub const CLAIM_RENEW_MS: u64 = 3000;

/// Whether a lease that ends at `expires` is live at `now`.
pub open spec fn held(expires: Option<u64>, now: int) -> bool {
    match expires {
        Some(e) => now < e,
        None => false,
    }
}

/// A claim attempt at `now`: it succeeds exactly when no live lease exists,
/// and then starts a fresh lease.
pub open spec fn claim_step(expires: Option<u64>, now: u64) -> (Option<u64>, bool) {
    if held(expires, now as int) {
        (expires, false)
    } else {
        (Some((now + CLAIM_TTL_MS) as u64), true)
    }
}

/// A renewal at `now`: a live lease is extended to a full lease from `now`;
/// an expired one stays expired.
pub open spec fn renew_step(expires: Option<u64>, now: u64) -> Option<u64> {
    if held(expires, now as int) {
        Some((now + CLAIM_TTL_MS) as u64)
    } else {
        expires
    }
}

/// The store's claim record for one room.
pub struct RoomClaim {
    expires: Option<u64>,
}

impl View for RoomClaim {
    type V = Option<u64>;

    closed spec fn view(&self) -> Option<u64> {
        self.expires
    }
}

impl RoomClaim {
    /// A room nobody has claimed.
    pub fn new() -> (r: RoomClaim)
        ensures
            r@ is None,
    {
        RoomClaim { expires: None }
    }

    /// Whether a live claim exists at `now`.
    pub fn is_held(&self, now: u64) -> (r: bool)
        ensures
            r == held(self@, now as int),
    {
        match self.expires {
            Some(e) => now < e,
            None => false,
        }
    }

    /// Attempts to claim the room at `now`; exactly one of competing attempts
    /// succeeds while its lease lives.
    pub fn try_claim(&mut self, now: u64) -> (r: bool)
        requires
            now + CLAIM_TTL_MS <= u64::MAX,
        ensures
            (final(self)@, r) == claim_step(old(self)@, now),
    {
        if self.is_held(now) {
            false
        } else {
            self.expires = Some(now + CLAIM_TTL_MS);
            true
        }
    }

    /// Renews the claim at `now`; reports whether a live claim was extended.
    pub fn renew(&mut self, now: u64) -> (r: bool)
        requires
            now + CLAIM_TTL_MS <= u64::MAX,
        ensures
            final(self)@ == renew_step(old(self)@, now),
            r == held(old(self)@, now as int),
    {
        if self.is_held(now) {
            self.expires = Some(now + CLAIM_TTL_MS);
            true
        } else {
            false
        }
    }
}

/// The answers to claim attempts made one after another at `times`.
pub open spec fn run_claims(expires: Option<u64>, times: Seq<u64>) -> Seq<bool>
    decreases times.len(),
{
    if times.len() == 0 {
        Seq::empty()
    } else {
        let (next, won) = claim_step(expires, times[0]);
        seq![won] + run_claims(next, times.drop_first())
    }
}

/// Competing attempts on an unclaimed room, all within one lease period of
/// the first, in order: the first one wins and every other one loses.
pub proof fn lemma_single_winner(expires: Option<u64>, times: Seq<u64>)
    requires
        times.len() > 0,
        !held(expires, times[0] as int),
        times[0] + CLAIM_TTL_MS <= u64::MAX,
        forall|i: int| 0 <= i < times.len() ==> times[0] <= #[trigger] times[i] < times[0] + CLAIM_TTL_MS,
    ensures
        run_claims(expires, times).len() == times.len(),
        run_claims(expires, times)[0],
        forall|i: int| 1 <= i < times.len() ==> !#[trigger] run_claims(expires, times)[i],
{
    let lease = Some((times[0] + CLAIM_TTL_MS) as u64);
    lemma_all_lose(lease, times.drop_first());
}

/// Every attempt made while a lease lives loses, and leaves it as it was.
proof fn lemma_all_lose(expires: Option<u64>, times: Seq<u64>)
    requires
        forall|i: int| 0 <= i < times.len() ==> held(expires, #[trigger] times[i] as int),
    ensures
        run_claims(expires, times).len() == times.len(),
        forall|i: int| 0 <= i < times.len() ==> !#[trigger] run_claims(expires, times)[i],
    decreases times.len(),
{
    if times.len() > 0 {
        let rest = times.drop_first();
        assert forall|i: int| 0 <= i < rest.len() implies held(expires, #[trigger] rest[i] as int) by {
            assert(rest[i] == times[i + 1]);
        }
        lemma_all_lose(expires, rest);
        let r = run_claims(expires, times);
        assert forall|i: int| 0 <= i < times.len() implies !#[trigger] r[i] by {
            if i > 0 {
                assert(r[i] == run_claims(expires, rest)[i - 1]);
            }
        }
    }
}

/// A claim last renewed (or taken) at `renewed`, and not renewed for a full
/// lease period since, can be claimed again.
pub proof fn lemma_lapsed_claim_is_free(renewed: u64, now: u64)
    requires
        renewed + CLAIM_TTL_MS <= u64::MAX,
        now >= renewed + CLAIM_TTL_MS,
        now + CLAIM_TTL_MS <= u64::MAX,
    ensures
        claim_step(Some((renewed + CLAIM_TTL_MS) as u64), now).1,
{
}

/// What happens to a claim: the owner renews it, or a competitor tries to take it.
pub enum ClaimEvent {
    Renew(u64),
    Attempt(u64),
}

pub open spec fn event_time(e: ClaimEvent) -> u64 {
    match e {
        ClaimEvent::Renew(t) => t,
        ClaimEvent::Attempt(t) => t,
    }
}

/// The competitors' answers as the events happen in order.
pub open spec fn run_events(expires: Option<u64>, events: Seq<ClaimEvent>) -> Seq<bool>
    decreases events.len(),
{
    if events.len() == 0 {
        Seq::empty()
    } else {
        match events[0] {
            ClaimEvent::Renew(t) => run_events(renew_step(expires, t), events.drop_first()),
            ClaimEvent::Attempt(t) => {
                let (next, won) = claim_step(expires, t);
                seq![won] + run_events(next, events.drop_first())
            },
        }
    }
}

/// Each event comes no later than one renewal period after the last renewal
/// before it (the first at `renewed`), and no time is near the end of the clock.
pub open spec fn renewed_in_time(renewed: u64, events: Seq<ClaimEvent>) -> bool
    decreases events.len(),
{
    if events.len() == 0 {
        true
    } else {
        let t = event_time(events[0]);
        &&& renewed <= t <= renewed + CLAIM_RENEW_MS
        &&& t + CLAIM_TTL_MS <= u64::MAX
        &&& renewed_in_time(
            match events[0] {
                ClaimEvent::Renew(t) => t,
                ClaimEvent::Attempt(_) => renewed,
            },
            events.drop_first(),
        )
    }
}

/// An owner that took or renewed its claim at `renewed` and renews it at most
/// one renewal period apart never loses it: every competitor's attempt fails.
pub proof fn lemma_renewed_claim_is_kept(renewed: u64, events: Seq<ClaimEvent>)
    requires
        renewed + CLAIM_TTL_MS <= u64::MAX,
        renewed_in_time(renewed, events),
    ensures
        forall|i: int|
            0 <= i < run_events(Some((renewed + CLAIM_TTL_MS) as u64), events).len() ==> !(
            #[trigger] run_events(Some((renewed + CLAIM_TTL_MS) as u64), events)[i]),
    decreases events.len(),
{
    let lease = Some((renewed + CLAIM_TTL_MS) as u64);
    if events.len() > 0 {
        let rest = events.drop_first();
        match events[0] {
            ClaimEvent::Renew(t) => {
                assert(renew_step(lease, t) == Some((t + CLAIM_TTL_MS) as u64));
                lemma_renewed_claim_is_kept(t, rest);
                assert(run_events(lease, events) == run_events(
                    Some((t + CLAIM_TTL_MS) as u64),
                    rest,
                ));
            },
            ClaimEvent::Attempt(t) => {
                assert(claim_step(lease, t) == (lease, false));
                lemma_renewed_claim_is_kept(renewed, rest);
                let r = run_events(lease, events);
                assert(r == seq![false] + run_events(lease, rest));
                assert forall|i: int| 0 <= i < r.len() implies !#[trigger] r[i] by {
                    if i > 0 {
                        assert(r[i] == run_events(lease, rest)[i - 1]);
                    }
                }
            },
        }
    }
}

} // verus!
