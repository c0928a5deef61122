//! Floor control: who may speak in a push-to-talk room.
//!
//! One participant holds the floor at a time. A request of higher priority takes
//! it from the speaker; any other request waits in a queue, ordered by priority
//! and then by time. When the floor becomes free, the head of the queue gets it.

use vstd::prelude::*;

use crate::clock::wall_clock_ms;
use crate::config;
use crate::text::{owned, text_eq};

verus! {

// ---------------------------------------------------------------------------
// Types
// ---------------------------------------------------------------------------

#[derive(Debug)]
pub enum FloorState {
    /// Nobody speaks.
    Idle,
    /// Somebody speaks. Times are in milliseconds since the Unix epoch.
    Taken { speaker: String, speaker_priority: u8, burst_start: u64, last_ping: u64 },
}

/// What the caller has to tell the participants.
#[derive(Debug)]
pub enum FloorAction {
    Granted { speaker: String, priority: u8, duration_s: u16 },
    Denied { reason: String, current_speaker: String },
    Queued { user_id: String, position: u8, priority: u8, queue_size: u16 },
    Released { prev_speaker: String },
    Revoked { prev_speaker: String, cause: String },
    PingOk,
    PingDenied,
    NotPttRoom,
}

#[derive(Debug, Clone, Copy, PartialEq, Eq, Structural)]
pub struct FloorConfig {
    pub queuing_enabled: bool,
    pub max_queue_size: usize,
    pub preemption_enabled: bool,
    /// Longest talk burst.
    pub max_burst_ms: u64,
    /// Longest time without a ping.
    pub ping_timeout_ms: u64,
}

impl Default for FloorConfig {
    fn default() -> (r: Self)
        ensures
            r.queuing_enabled,
            r.max_queue_size == config::FLOOR_QUEUE_MAX_SIZE,
            r.preemption_enabled,
            r.max_burst_ms == config::FLOOR_MAX_BURST_MS,
            r.ping_timeout_ms == config::FLOOR_PING_TIMEOUT_MS,
    {
        FloorConfig {
            queuing_enabled: true,
            max_queue_size: config::FLOOR_QUEUE_MAX_SIZE,
            preemption_enabled: true,
            max_burst_ms: config::FLOOR_MAX_BURST_MS,
            ping_timeout_ms: config::FLOOR_PING_TIMEOUT_MS,
        }
    }
}

#[derive(Debug)]
struct QueueEntry {
    user_id: String,
    priority: u8,
    enqueued_at: u64,
}

/// The floor of one room.
#[derive(Debug)]
pub struct FloorController {
    state: FloorState,
    queue: Vec<QueueEntry>,
    prev_speaker: Option<String>,
    pub config: FloorConfig,
}

// ---------------------------------------------------------------------------
// Model
// ---------------------------------------------------------------------------

/// A talk burst in progress.
pub struct TalkBurst {
    pub speaker: Seq<char>,
    pub priority: u8,
    pub burst_start: u64,
    pub last_ping: u64,
}

/// A waiting request.
pub struct Waiting {
    pub user: Seq<char>,
    pub priority: u8,
    pub enqueued_at: u64,
}

/// The floor: who speaks, who waits in which order, and who spoke last.
#[verifier::ext_equal]
pub struct Floor {
    pub burst: Option<TalkBurst>,
    pub queue: Seq<Waiting>,
    pub prev_speaker: Option<Seq<char>>,
}

/// What an action says.
pub enum FloorNotice {
    Granted { speaker: Seq<char>, priority: u8, duration_s: u16 },
    Denied { reason: Seq<char>, current_speaker: Seq<char> },
    Queued { user_id: Seq<char>, position: u8, priority: u8, queue_size: u16 },
    Released { prev_speaker: Seq<char> },
    Revoked { prev_speaker: Seq<char>, cause: Seq<char> },
    PingOk,
    PingDenied,
    NotPttRoom,
}

impl View for FloorAction {
    type V = FloorNotice;

    open spec fn view(&self) -> FloorNotice {
        match self {
            FloorAction::Granted { speaker, priority, duration_s } => FloorNotice::Granted {
                speaker: speaker@,
                priority: *priority,
                duration_s: *duration_s,
            },
            FloorAction::Denied { reason, current_speaker } => FloorNotice::Denied {
                reason: reason@,
                current_speaker: current_speaker@,
            },
            FloorAction::Queued { user_id, position, priority, queue_size } => FloorNotice::Queued {
                user_id: user_id@,
                position: *position,
                priority: *priority,
                queue_size: *queue_size,
            },
            FloorAction::Released { prev_speaker } => FloorNotice::Released {
                prev_speaker: prev_speaker@,
            },
            FloorAction::Revoked { prev_speaker, cause } => FloorNotice::Revoked {
                prev_speaker: prev_speaker@,
                cause: cause@,
            },
            FloorAction::PingOk => FloorNotice::PingOk,
            FloorAction::PingDenied => FloorNotice::PingDenied,
            FloorAction::NotPttRoom => FloorNotice::NotPttRoom,
        }
    }
}

/// What a list of actions says.
pub open spec fn notices(actions: Seq<FloorAction>) -> Seq<FloorNotice> {
    actions.map_values(|a: FloorAction| a@)
}

impl View for FloorState {
    type V = Option<TalkBurst>;

    open spec fn view(&self) -> Option<TalkBurst> {
        match self {
            FloorState::Idle => None,
            FloorState::Taken { speaker, speaker_priority, burst_start, last_ping } => Some(
                TalkBurst {
                    speaker: speaker@,
                    priority: *speaker_priority,
                    burst_start: *burst_start,
                    last_ping: *last_ping,
                },
            ),
        }
    }
}

impl View for QueueEntry {
    type V = Waiting;

    closed spec fn view(&self) -> Waiting {
        Waiting { user: self.user_id@, priority: self.priority, enqueued_at: self.enqueued_at }
    }
}

impl View for FloorController {
    type V = Floor;

    closed spec fn view(&self) -> Floor {
        Floor {
            burst: self.state@,
            queue: waiting(self.queue@),
            prev_speaker: match self.prev_speaker {
                Some(s) => Some(s@),
                None => None,
            },
        }
    }
}

spec fn waiting(q: Seq<QueueEntry>) -> Seq<Waiting> {
    q.map_values(|e: QueueEntry| e@)
}

/// Whether `a` is served before `b` whatever their order of arrival.
pub open spec fn goes_first(a: Waiting, b: Waiting) -> bool {
    a.priority > b.priority || (a.priority == b.priority && a.enqueued_at < b.enqueued_at)
}

/// Higher priority stands first, and among equals the earlier request.
pub open spec fn in_order(q: Seq<Waiting>) -> bool {
    forall|i: int, j: int| 0 <= i < j < q.len() ==> !goes_first(#[trigger] q[j], #[trigger] q[i])
}

/// Nobody waits twice.
pub open spec fn waits_once(q: Seq<Waiting>) -> bool {
    forall|i: int, j: int|
        0 <= i < j < q.len() ==> (#[trigger] q[i]).user != (#[trigger] q[j]).user
}

/// What holds of the queue at all times.
pub open spec fn queue_valid(q: Seq<Waiting>, c: FloorConfig) -> bool {
    &&& in_order(q)
    &&& waits_once(q)
    &&& q.len() <= c.max_queue_size
}

/// What holds of the floor at all times: nobody waits while nobody speaks.
pub open spec fn floor_valid(f: Floor, c: FloorConfig) -> bool {
    &&& queue_valid(f.queue, c)
    &&& f.burst is None ==> f.queue.len() == 0
}

/// The place of `user` in the queue.
pub open spec fn place_of(q: Seq<Waiting>, user: Seq<char>) -> Option<int>
    decreases q.len(),
{
    if q.len() == 0 {
        None
    } else if q[0].user == user {
        Some(0)
    } else {
        match place_of(q.drop_first(), user) {
            Some(i) => Some(i + 1),
            None => None,
        }
    }
}

/// Where a new request goes: behind all that stand at the front and that it
/// does not go before.
pub open spec fn slot_for(q: Seq<Waiting>, w: Waiting) -> int
    decreases q.len(),
{
    if q.len() == 0 || goes_first(w, q[0]) {
        0
    } else {
        1 + slot_for(q.drop_first(), w)
    }
}

/// The queue with a new request.
pub open spec fn enqueue(q: Seq<Waiting>, w: Waiting) -> Seq<Waiting> {
    q.insert(slot_for(q, w), w)
}

/// A request of somebody else than `user`.
pub open spec fn not_of(user: Seq<char>) -> spec_fn(Waiting) -> bool {
    |w: Waiting| w.user != user
}

/// The queue without the requests of `user`.
pub open spec fn dequeue(q: Seq<Waiting>, user: Seq<char>) -> Seq<Waiting> {
    q.filter(not_of(user))
}

pub open spec fn granted(speaker: Seq<char>, priority: u8) -> FloorNotice {
    FloorNotice::Granted { speaker, priority, duration_s: config::FLOOR_DEFAULT_DURATION_S }
}

/// `speaker` holds the floor from `now` on.
pub open spec fn new_burst(speaker: Seq<char>, priority: u8, now: u64) -> Option<TalkBurst> {
    Some(TalkBurst { speaker, priority, burst_start: now, last_ping: now })
}

pub open spec fn queued(q: Seq<Waiting>, user: Seq<char>, priority: u8) -> FloorNotice {
    FloorNotice::Queued {
        user_id: user,
        position: ((place_of(q, user)->0 + 1) % 0x100) as u8,
        priority,
        queue_size: (q.len() % 0x1_0000) as u16,
    }
}

/// What a request does.
pub open spec fn after_request(f: Floor, c: FloorConfig, user: Seq<char>, priority: u8, now: u64) -> (
    Floor,
    Seq<FloorNotice>,
) {
    match f.burst {
        None => (
            Floor { burst: new_burst(user, priority, now), prev_speaker: None, ..f },
            seq![granted(user, priority)],
        ),
        Some(b) => if b.speaker == user {
            (f, seq![granted(user, b.priority)])
        } else if c.preemption_enabled && priority > b.priority {
            (
                Floor {
                    burst: new_burst(user, priority, now),
                    prev_speaker: Some(b.speaker),
                    ..f
                },
                seq![
                    FloorNotice::Revoked { prev_speaker: b.speaker, cause: "preempted"@ },
                    granted(user, priority),
                ],
            )
        } else if !c.queuing_enabled {
            (f, seq![FloorNotice::Denied { reason: "channel busy"@, current_speaker: b.speaker }])
        } else if place_of(f.queue, user) is Some {
            (f, seq![queued(f.queue, user, priority)])
        } else if f.queue.len() >= c.max_queue_size {
            (f, seq![FloorNotice::Denied { reason: "queue full"@, current_speaker: b.speaker }])
        } else {
            let q = enqueue(f.queue, Waiting { user, priority, enqueued_at: now });
            (Floor { queue: q, ..f }, seq![queued(q, user, priority)])
        },
    }
}

/// The free floor goes to the head of the queue.
pub open spec fn grant_next(f: Floor, now: u64) -> (Floor, Seq<FloorNotice>) {
    if f.queue.len() == 0 {
        (f, Seq::empty())
    } else {
        let w = f.queue[0];
        (
            Floor {
                burst: new_burst(w.user, w.priority, now),
                queue: f.queue.drop_first(),
                prev_speaker: None,
            },
            seq![granted(w.user, w.priority)],
        )
    }
}

/// The speaker loses the floor, which `first` says, and the next in the queue
/// gets it.
pub open spec fn hand_over(f: Floor, first: FloorNotice, now: u64) -> (Floor, Seq<FloorNotice>) {
    let idle = Floor { burst: None, prev_speaker: Some(f.burst->0.speaker), ..f };
    let (g, more) = grant_next(idle, now);
    (g, seq![first] + more)
}

/// What a release does.
pub open spec fn after_release(f: Floor, user: Seq<char>, now: u64) -> (Floor, Seq<FloorNotice>) {
    match f.burst {
        None => (f, seq![FloorNotice::Released { prev_speaker: user }]),
        Some(b) => if b.speaker == user {
            hand_over(f, FloorNotice::Released { prev_speaker: user }, now)
        } else {
            (Floor { queue: dequeue(f.queue, user), ..f }, Seq::empty())
        },
    }
}

/// Whether more than `limit` has passed from `since` to `now`.
pub open spec fn overdue(now: u64, since: u64, limit: u64) -> bool {
    now - since > limit
}

/// What the timers do at `now`; a floor that changes hands does so at `grant_at`.
pub open spec fn after_timers(f: Floor, c: FloorConfig, now: u64, grant_at: u64) -> (
    Floor,
    Seq<FloorNotice>,
) {
    match f.burst {
        None => (f, Seq::empty()),
        Some(b) => if overdue(now, b.burst_start, c.max_burst_ms) {
            hand_over(
                f,
                FloorNotice::Revoked { prev_speaker: b.speaker, cause: "max burst exceeded"@ },
                grant_at,
            )
        } else if overdue(now, b.last_ping, c.ping_timeout_ms) {
            hand_over(
                f,
                FloorNotice::Revoked { prev_speaker: b.speaker, cause: "participant lost"@ },
                grant_at,
            )
        } else {
            (f, Seq::empty())
        },
    }
}

/// The floor before anybody has asked for it.
pub open spec fn idle_floor() -> Floor {
    Floor { burst: None, queue: Seq::empty(), prev_speaker: None }
}

/// What a sign of life of the speaker does; of anybody else it does nothing.
pub open spec fn after_ping(f: Floor, user: Seq<char>, now: u64) -> Floor {
    match f.burst {
        Some(b) => if b.speaker == user {
            Floor { burst: Some(TalkBurst { last_ping: now, ..b }), ..f }
        } else {
            f
        },
        None => f,
    }
}

/// What it does that a waiting request is taken back.
pub open spec fn after_cancel(f: Floor, user: Seq<char>) -> Floor {
    Floor { queue: dequeue(f.queue, user), ..f }
}

/// What it does that a participant leaves.
pub open spec fn after_leave(f: Floor, user: Seq<char>, now: u64) -> (Floor, Seq<FloorNotice>) {
    let g = Floor { queue: dequeue(f.queue, user), ..f };
    match f.burst {
        Some(b) => if b.speaker == user {
            hand_over(g, FloorNotice::Released { prev_speaker: user }, now)
        } else {
            (g, Seq::empty())
        },
        None => (g, Seq::empty()),
    }
}

// ---------------------------------------------------------------------------
// Lemmas on the queue
// ---------------------------------------------------------------------------

proof fn lemma_place(q: Seq<Waiting>, user: Seq<char>)
    ensures
        match place_of(q, user) {
            Some(i) => 0 <= i < q.len() && q[i].user == user && forall|k: int|
                0 <= k < i ==> (#[trigger] q[k]).user != user,
            None => forall|k: int| 0 <= k < q.len() ==> (#[trigger] q[k]).user != user,
        },
    decreases q.len(),
{
    if q.len() > 0 && q[0].user != user {
        let t = q.drop_first();
        lemma_place(t, user);
        assert forall|k: int| 0 < k < q.len() implies #[trigger] q[k] == t[k - 1] by {}
    }
}

proof fn lemma_place_is(q: Seq<Waiting>, user: Seq<char>, i: int)
    requires
        0 <= i < q.len(),
        q[i].user == user,
        forall|k: int| 0 <= k < i ==> (#[trigger] q[k]).user != user,
    ensures
        place_of(q, user) == Some(i),
{
    lemma_place(q, user);
}

proof fn lemma_slot(q: Seq<Waiting>, w: Waiting)
    ensures
        0 <= slot_for(q, w) <= q.len(),
        forall|k: int| 0 <= k < slot_for(q, w) ==> !goes_first(w, #[trigger] q[k]),
        slot_for(q, w) < q.len() ==> goes_first(w, q[slot_for(q, w)]),
    decreases q.len(),
{
    if q.len() > 0 && !goes_first(w, q[0]) {
        let t = q.drop_first();
        lemma_slot(t, w);
        assert forall|k: int| 0 < k < q.len() implies #[trigger] q[k] == t[k - 1] by {}
    }
}

proof fn lemma_slot_is(q: Seq<Waiting>, w: Waiting, i: int)
    requires
        0 <= i <= q.len(),
        forall|k: int| 0 <= k < i ==> !goes_first(w, #[trigger] q[k]),
        i < q.len() ==> goes_first(w, q[i]),
    ensures
        slot_for(q, w) == i,
{
    lemma_slot(q, w);
}

/// A new request stands where a stable sort of the queue with the request at
/// its end would put it: the queue stays in order, the others keep their order
/// among themselves, and the request comes behind its equals.
pub proof fn law_enqueue_sorts(q: Seq<Waiting>, w: Waiting)
    requires
        in_order(q),
    ensures
        in_order(enqueue(q, w)),
        enqueue(q, w).to_multiset() == q.push(w).to_multiset(),
        enqueue(q, w).remove(slot_for(q, w)) == q,
        forall|k: int| slot_for(q, w) <= k < q.len() ==> goes_first(w, #[trigger] q[k]),
{
    lemma_slot(q, w);
    let s = slot_for(q, w);
    let r = enqueue(q, w);
    assert forall|k: int| s <= k < q.len() implies goes_first(w, #[trigger] q[k]) by {
        if k > s {
            assert(!goes_first(q[k], q[s]));
        }
    }
    assert(r.remove(s) =~= q);
    broadcast use vstd::seq_lib::group_to_multiset_ensures;

    assert(q.push(w) =~= q.insert(q.len() as int, w));
    assert(r.to_multiset() =~= q.to_multiset().insert(w));
    assert(q.push(w).to_multiset() =~= q.to_multiset().insert(w));
}

proof fn lemma_enqueue_once(q: Seq<Waiting>, w: Waiting)
    requires
        waits_once(q),
        place_of(q, w.user) is None,
    ensures
        waits_once(enqueue(q, w)),
        place_of(enqueue(q, w), w.user) == Some(slot_for(q, w)),
{
    lemma_place(q, w.user);
    lemma_slot(q, w);
    let s = slot_for(q, w);
    let r = enqueue(q, w);
    assert forall|k: int| 0 <= k < s implies (#[trigger] r[k]).user != w.user by {
        assert(r[k] == q[k]);
    }
    assert forall|k: int| s < k < r.len() implies #[trigger] r[k] == q[k - 1] by {}
    lemma_place_is(r, w.user, s);
}

proof fn lemma_dequeue(q: Seq<Waiting>, user: Seq<char>)
    requires
        in_order(q),
        waits_once(q),
    ensures
        in_order(dequeue(q, user)),
        waits_once(dequeue(q, user)),
        dequeue(q, user).len() <= q.len(),
        place_of(dequeue(q, user), user) is None,
        dequeue(q, user).len() < q.len() <==> place_of(q, user) is Some,
        place_of(q, user) is None ==> dequeue(q, user) == q,
    decreases q.len(),
{
    reveal(Seq::filter);
    lemma_place(q, user);
    if q.len() > 0 {
        let t = q.drop_last();
        assert forall|i: int, j: int| 0 <= i < j < t.len() implies !goes_first(
            #[trigger] t[j],
            #[trigger] t[i],
        ) by {
            assert(t[i] == q[i] && t[j] == q[j]);
        }
        assert forall|i: int, j: int| 0 <= i < j < t.len() implies (#[trigger] t[i]).user != (
        #[trigger] t[j]).user by {
            assert(t[i] == q[i] && t[j] == q[j]);
        }
        lemma_dequeue(t, user);
        lemma_place(t, user);
        let r = dequeue(t, user);
        assert forall|i: int| 0 <= i < r.len() implies !goes_first(q.last(), #[trigger] r[i]) && r[i].user
            != q.last().user by {
            t.lemma_filter_contains_rev(not_of(user), r[i]);
            let k = choose|k: int| 0 <= k < t.len() && t[k] == r[i];
            assert(q[k] == t[k] && q[q.len() - 1] == q.last());
        }
        lemma_place(r, user);
        lemma_place(dequeue(q, user), user);
        if place_of(q, user) is None {
            assert(q[q.len() - 1].user != user);
            assert forall|k: int| 0 <= k < t.len() implies (#[trigger] t[k]).user != user by {
                assert(q[k] == t[k]);
            }
            assert(dequeue(q, user) =~= q);
        } else {
            let p = place_of(q, user)->0;
            if p < t.len() {
                assert(t[p] == q[p]);
            }
        }
    } else {
        assert(dequeue(q, user) =~= q);
    }
}


// ---------------------------------------------------------------------------
// Controller
// ---------------------------------------------------------------------------

impl FloorController {
    /// What holds of a controller at all times.
    pub open spec fn wf(&self) -> bool {
        floor_valid(self@, self.settings())
    }

    /// The settings that the controller works by.
    pub closed spec fn settings(&self) -> FloorConfig {
        self.config
    }

    pub fn new() -> (r: Self)
        ensures
            r.wf(),
            r@ == (Floor { burst: None, queue: Seq::empty(), prev_speaker: None }),
            r.settings().queuing_enabled && r.settings().preemption_enabled,
            r.settings().max_queue_size == config::FLOOR_QUEUE_MAX_SIZE,
            r.settings().max_burst_ms == config::FLOOR_MAX_BURST_MS,
            r.settings().ping_timeout_ms == config::FLOOR_PING_TIMEOUT_MS,
    {
        FloorController::with_config(FloorConfig::default())
    }

    pub fn with_config(config: FloorConfig) -> (r: Self)
        ensures
            r.wf(),
            r@ == (Floor { burst: None, queue: Seq::empty(), prev_speaker: None }),
            r.settings() == config,
    {
        let r = FloorController {
            state: FloorState::Idle,
            queue: Vec::new(),
            prev_speaker: None,
            config,
        };
        assert(r@.queue =~= Seq::empty());
        r
    }

    /// The floor as it stands.
    pub fn current_state(&self) -> (r: FloorState)
        ensures
            r@ == self@.burst,
    {
        match &self.state {
            FloorState::Idle => FloorState::Idle,
            FloorState::Taken { speaker, speaker_priority, burst_start, last_ping } => {
                FloorState::Taken {
                    speaker: speaker.clone(),
                    speaker_priority: *speaker_priority,
                    burst_start: *burst_start,
                    last_ping: *last_ping,
                }
            },
        }
    }

    pub fn current_speaker(&self) -> (r: Option<String>)
        ensures
            match r {
                Some(s) => self@.burst is Some && s@ == self@.burst->0.speaker,
                None => self@.burst is None,
            },
    {
        match &self.state {
            FloorState::Taken { speaker, .. } => Some(speaker.clone()),
            FloorState::Idle => None,
        }
    }

    pub fn current_speaker_priority(&self) -> (r: Option<u8>)
        ensures
            r == (match self@.burst {
                Some(b) => Some(b.priority),
                None => None,
            }),
    {
        match &self.state {
            FloorState::Taken { speaker_priority, .. } => Some(*speaker_priority),
            FloorState::Idle => None,
        }
    }

    /// Who spoke last; known until the floor is granted again.
    pub fn last_speaker(&self) -> (r: Option<String>)
        ensures
            match r {
                Some(s) => self@.prev_speaker == Some(s@),
                None => self@.prev_speaker is None,
            },
    {
        match &self.prev_speaker {
            Some(s) => Some(s.clone()),
            None => None,
        }
    }

    /// The queue as (user, priority, position), positions from 1.
    pub fn queue_snapshot(&self) -> (r: Vec<(String, u8, u8)>)
        ensures
            r@.len() == self@.queue.len(),
            forall|i: int|
                0 <= i < r@.len() ==> (#[trigger] r@[i]).0@ == self@.queue[i].user && r@[i].1
                    == self@.queue[i].priority && r@[i].2 == (i + 1) % 0x100,
    {
        let mut out: Vec<(String, u8, u8)> = Vec::new();
        let mut i: usize = 0;
        while i < self.queue.len()
            invariant
                i <= self.queue@.len(),
                out@.len() == i,
                forall|k: int|
                    0 <= k < i ==> (#[trigger] out@[k]).0@ == self@.queue[k].user && out@[k].1
                        == self@.queue[k].priority && out@[k].2 == (k + 1) % 0x100,
            decreases self.queue@.len() - i,
        {
            let e = &self.queue[i];
            out.push((e.user_id.clone(), e.priority, ((i + 1) % 0x100) as u8));
            i += 1;
        }
        out
    }

    pub fn queue_size(&self) -> (r: usize)
        ensures
            r == self@.queue.len(),
    {
        self.queue.len()
    }

    /// The index of `user_id` in the queue.
    fn position(&self, user_id: &str) -> (r: Option<usize>)
        ensures
            match r {
                Some(i) => place_of(self@.queue, user_id@) == Some(i as int) && i
                    < self.queue.len(),
                None => place_of(self@.queue, user_id@) is None,
            },
    {
        let mut i: usize = 0;
        while i < self.queue.len()
            invariant
                i <= self.queue@.len(),
                forall|k: int| 0 <= k < i ==> (#[trigger] self@.queue[k]).user != user_id@,
            decreases self.queue@.len() - i,
        {
            assert(self@.queue[i as int] == self.queue@[i as int]@);
            if text_eq(self.queue[i].user_id.as_str(), user_id) {
                proof {
                    lemma_place_is(self@.queue, user_id@, i as int);
                }
                return Some(i);
            }
            i += 1;
        }
        proof {
            lemma_place(self@.queue, user_id@);
        }
        None
    }

    /// Takes the requests of `user_id` out of the queue.
    fn drop_waiting(&mut self, user_id: &str)
        ensures
            final(self)@ == (Floor { queue: dequeue(old(self)@.queue, user_id@), ..old(self)@ }),
            final(self).settings() == old(self).settings(),
    {
        let mut kept: Vec<QueueEntry> = Vec::new();
        let mut rest: Vec<QueueEntry> = Vec::new();
        std::mem::swap(&mut rest, &mut self.queue);
        let ghost all = rest@;
        let ghost mut done: int = 0;
        assert(waiting(all).take(0) =~= Seq::empty());
        reveal(Seq::filter);
        for e in it: rest
            invariant
                it.seq() == all,
                done == it.index(),
                waiting(kept@) == dequeue(waiting(all).take(done), user_id@),
        {
            reveal(Seq::filter);
            proof {
                let w = waiting(all);
                assert(w.take(done + 1).drop_last() =~= w.take(done));
                assert(w.take(done + 1).last() == e@);
                done = done + 1;
            }
            let ghost before = kept@;
            if !text_eq(e.user_id.as_str(), user_id) {
                kept.push(e);
                assert(waiting(kept@) =~= waiting(before).push(e@));
            }
        }
        self.queue = kept;
        assert(waiting(all).take(done) =~= waiting(all));
        assert(self@ =~= (Floor { queue: dequeue(old(self)@.queue, user_id@), ..old(self)@ }));
    }

    /// A request for the floor.
    pub fn request(&mut self, user_id: &str, priority: u8, now_ms: u64) -> (r: Vec<FloorAction>)
        requires
            old(self).wf(),
        ensures
            final(self).wf(),
            final(self).settings() == old(self).settings(),
            (final(self)@, notices(r@)) == after_request(
                old(self)@,
                old(self).settings(),
                user_id@,
                priority,
                now_ms,
            ),
    {
        let mut actions: Vec<FloorAction> = Vec::new();
        let (cur_speaker, cur_priority) = match &self.state {
            FloorState::Idle => {
                self.state = FloorState::Taken {
                    speaker: owned(user_id),
                    speaker_priority: priority,
                    burst_start: now_ms,
                    last_ping: now_ms,
                };
                self.prev_speaker = None;
                actions.push(
                    FloorAction::Granted {
                        speaker: owned(user_id),
                        priority,
                        duration_s: config::FLOOR_DEFAULT_DURATION_S,
                    },
                );
                assert(notices(actions@) =~= seq![granted(user_id@, priority)]);
                return actions;
            },
            FloorState::Taken { speaker, speaker_priority, .. } => (
                speaker.clone(),
                *speaker_priority,
            ),
        };
        if text_eq(cur_speaker.as_str(), user_id) {
            actions.push(
                FloorAction::Granted {
                    speaker: owned(user_id),
                    priority: cur_priority,
                    duration_s: config::FLOOR_DEFAULT_DURATION_S,
                },
            );
            assert(notices(actions@) =~= seq![granted(user_id@, cur_priority)]);
            return actions;
        }
        if self.config.preemption_enabled && priority > cur_priority {
            self.prev_speaker = Some(cur_speaker.clone());
            self.state = FloorState::Taken {
                speaker: owned(user_id),
                speaker_priority: priority,
                burst_start: now_ms,
                last_ping: now_ms,
            };
            actions.push(
                FloorAction::Revoked { prev_speaker: cur_speaker, cause: owned("preempted") },
            );
            actions.push(
                FloorAction::Granted {
                    speaker: owned(user_id),
                    priority,
                    duration_s: config::FLOOR_DEFAULT_DURATION_S,
                },
            );
            assert(notices(actions@) =~= seq![
                FloorNotice::Revoked { prev_speaker: cur_speaker@, cause: "preempted"@ },
                granted(user_id@, priority),
            ]);
            return actions;
        }
        if !self.config.queuing_enabled {
            actions.push(
                FloorAction::Denied { reason: owned("channel busy"), current_speaker: cur_speaker },
            );
            assert(notices(actions@) =~= seq![
                FloorNotice::Denied { reason: "channel busy"@, current_speaker: cur_speaker@ },
            ]);
            return actions;
        }
        if let Some(pos) = self.position(user_id) {
            actions.push(
                FloorAction::Queued {
                    user_id: owned(user_id),
                    position: ((pos + 1) % 0x100) as u8,
                    priority,
                    queue_size: (self.queue.len() % 0x1_0000) as u16,
                },
            );
            assert(notices(actions@) =~= seq![queued(self@.queue, user_id@, priority)]);
            return actions;
        }
        if self.queue.len() >= self.config.max_queue_size {
            actions.push(
                FloorAction::Denied { reason: owned("queue full"), current_speaker: cur_speaker },
            );
            assert(notices(actions@) =~= seq![
                FloorNotice::Denied { reason: "queue full"@, current_speaker: cur_speaker@ },
            ]);
            return actions;
        }
        let ghost w = Waiting { user: user_id@, priority, enqueued_at: now_ms };
        let ghost q = self@.queue;
        let mut pos: usize = 0;
        while pos < self.queue.len() && !(priority > self.queue[pos].priority || (priority
            == self.queue[pos].priority && now_ms < self.queue[pos].enqueued_at))
            invariant
                pos <= self.queue@.len(),
                q == waiting(self.queue@),
                w == (Waiting { user: user_id@, priority, enqueued_at: now_ms }),
                forall|k: int| 0 <= k < pos ==> !goes_first(w, #[trigger] q[k]),
            decreases self.queue@.len() - pos,
        {
            assert(q[pos as int] == self.queue@[pos as int]@);
            pos += 1;
        }
        proof {
            if pos < q.len() {
                assert(q[pos as int] == self.queue@[pos as int]@);
            }
            lemma_slot_is(q, w, pos as int);
            law_enqueue_sorts(q, w);
            lemma_enqueue_once(q, w);
        }
        self.queue.insert(pos, QueueEntry { user_id: owned(user_id), priority, enqueued_at: now_ms });
        assert(self@.queue =~= enqueue(q, w));
        actions.push(
            FloorAction::Queued {
                user_id: owned(user_id),
                position: ((pos + 1) % 0x100) as u8,
                priority,
                queue_size: (self.queue.len() % 0x1_0000) as u16,
            },
        );
        assert(notices(actions@) =~= seq![queued(self@.queue, user_id@, priority)]);
        actions
    }

    /// Gives the free floor to the head of the queue.
    fn try_grant_next(&mut self, now_ms: u64) -> (r: Option<FloorAction>)
        requires
            queue_valid(old(self)@.queue, old(self).settings()),
            old(self)@.burst is None,
        ensures
            final(self).wf(),
            final(self).settings() == old(self).settings(),
            ({
                let (g, more) = grant_next(old(self)@, now_ms);
                &&& final(self)@ == g
                &&& match r {
                    Some(a) => more == seq![a@],
                    None => more.len() == 0,
                }
            }),
    {
        if self.queue.len() == 0 {
            return None;
        }
        let ghost q = self@.queue;
        let next = self.queue.remove(0);
        assert(self@.queue =~= q.drop_first());
        self.state = FloorState::Taken {
            speaker: next.user_id.clone(),
            speaker_priority: next.priority,
            burst_start: now_ms,
            last_ping: now_ms,
        };
        self.prev_speaker = None;
        assert(q[0] == next@);
        Some(
            FloorAction::Granted {
                speaker: next.user_id,
                priority: next.priority,
                duration_s: config::FLOOR_DEFAULT_DURATION_S,
            },
        )
    }

    /// Takes the floor from the speaker and gives it to the next in the queue.
    fn hand_over_at(&mut self, speaker: String, first: FloorAction, now_ms: u64) -> (r: Vec<
        FloorAction,
    >)
        requires
            old(self).wf(),
            old(self)@.burst is Some,
            speaker@ == old(self)@.burst->0.speaker,
        ensures
            final(self).wf(),
            final(self).settings() == old(self).settings(),
            (final(self)@, notices(r@)) == hand_over(old(self)@, first@, now_ms),
    {
        self.prev_speaker = Some(speaker);
        self.state = FloorState::Idle;
        assert(self@ == Floor { burst: None, prev_speaker: Some(speaker@), ..old(self)@ });
        let mut actions: Vec<FloorAction> = Vec::new();
        actions.push(first);
        match self.try_grant_next(now_ms) {
            Some(grant) => {
                actions.push(grant);
                assert(notices(actions@) =~= seq![first@] + seq![grant@]);
            },
            None => {
                assert(notices(actions@) =~= seq![first@]);
                assert(notices(actions@) =~= seq![first@] + Seq::empty());
            },
        }
        actions
    }

    /// `release` at a given time.
    pub fn release_at(&mut self, user_id: &str, now_ms: u64) -> (r: Vec<FloorAction>)
        requires
            old(self).wf(),
        ensures
            final(self).wf(),
            final(self).settings() == old(self).settings(),
            (final(self)@, notices(r@)) == after_release(old(self)@, user_id@, now_ms),
    {
        let speaker = self.current_speaker();
        match speaker {
            None => {
                let mut actions: Vec<FloorAction> = Vec::new();
                actions.push(FloorAction::Released { prev_speaker: owned(user_id) });
                assert(notices(actions@) =~= seq![FloorNotice::Released { prev_speaker: user_id@ }]);
                actions
            },
            Some(s) => {
                if text_eq(s.as_str(), user_id) {
                    self.hand_over_at(
                        s,
                        FloorAction::Released { prev_speaker: owned(user_id) },
                        now_ms,
                    )
                } else {
                    self.drop_waiting(user_id);
                    proof {
                        lemma_dequeue(old(self)@.queue, user_id@);
                    }
                    let actions: Vec<FloorAction> = Vec::new();
                    assert(notices(actions@) =~= Seq::empty());
                    actions
                }
            },
        }
    }

    /// The speaker lets the floor go; anybody else withdraws their request.
    pub fn release(&mut self, user_id: &str) -> (r: Vec<FloorAction>)
        requires
            old(self).wf(),
        ensures
            final(self).wf(),
            final(self).settings() == old(self).settings(),
            exists|now: u64|
                (final(self)@, notices(r@)) == #[trigger] after_release(
                    old(self)@,
                    user_id@,
                    now,
                ),
    {
        let now: u64 = wall_clock_ms();
        self.release_at(user_id, now)
    }

    /// A sign of life from the speaker.
    pub fn ping(&mut self, user_id: &str, now_ms: u64) -> (r: FloorAction)
        ensures
            final(self).settings() == old(self).settings(),
            final(self)@ == after_ping(old(self)@, user_id@, now_ms),
            r@ == (match old(self)@.burst {
                Some(b) if b.speaker == user_id@ => FloorNotice::PingOk,
                _ => FloorNotice::PingDenied,
            }),
    {
        match &mut self.state {
            FloorState::Taken { speaker, last_ping, .. } => {
                if text_eq(speaker.as_str(), user_id) {
                    *last_ping = now_ms;
                    FloorAction::PingOk
                } else {
                    FloorAction::PingDenied
                }
            },
            FloorState::Idle => FloorAction::PingDenied,
        }
    }

    /// Position, from 1, and priority of a waiting user.
    pub fn query_queue_position(&self, user_id: &str) -> (r: Option<(u8, u8)>)
        ensures
            r == (match place_of(self@.queue, user_id@) {
                Some(i) => Some((((i + 1) % 0x100) as u8, self@.queue[i].priority)),
                None => None,
            }),
    {
        match self.position(user_id) {
            Some(i) => {
                let priority: u8 = self.queue[i].priority;
                Some((((i + 1) % 0x100) as u8, priority))
            },
            None => None,
        }
    }

    /// Withdraws a request; tells whether there was one.
    pub fn cancel_queue(&mut self, user_id: &str) -> (r: bool)
        requires
            old(self).wf(),
        ensures
            final(self).wf(),
            final(self).settings() == old(self).settings(),
            final(self)@ == after_cancel(old(self)@, user_id@),
            r == (place_of(old(self)@.queue, user_id@) is Some),
    {
        let before: usize = self.queue.len();
        self.drop_waiting(user_id);
        proof {
            lemma_dequeue(old(self)@.queue, user_id@);
        }
        self.queue.len() < before
    }

    /// `check_timers` with the time at which the floor is handed on.
    pub fn check_timers_at(&mut self, now_ms: u64, grant_ms: u64) -> (r: Vec<FloorAction>)
        requires
            old(self).wf(),
        ensures
            final(self).wf(),
            final(self).settings() == old(self).settings(),
            (final(self)@, notices(r@)) == after_timers(
                old(self)@,
                old(self).settings(),
                now_ms,
                grant_ms,
            ),
    {
        let (speaker, burst_start, last_ping) = match &self.state {
            FloorState::Idle => {
                let actions: Vec<FloorAction> = Vec::new();
                assert(notices(actions@) =~= Seq::empty());
                return actions;
            },
            FloorState::Taken { speaker, burst_start, last_ping, .. } => (
                speaker.clone(),
                *burst_start,
                *last_ping,
            ),
        };
        let prev_speaker = speaker.clone();
        if now_ms.saturating_sub(burst_start) > self.config.max_burst_ms {
            return self.hand_over_at(
                speaker,
                FloorAction::Revoked { prev_speaker, cause: owned("max burst exceeded") },
                grant_ms,
            );
        }
        if now_ms.saturating_sub(last_ping) > self.config.ping_timeout_ms {
            return self.hand_over_at(
                speaker,
                FloorAction::Revoked { prev_speaker, cause: owned("participant lost") },
                grant_ms,
            );
        }
        let actions: Vec<FloorAction> = Vec::new();
        assert(notices(actions@) =~= Seq::empty());
        actions
    }

    /// Revokes the floor from a speaker who has spoken too long or is gone.
    pub fn check_timers(&mut self, now_ms: u64) -> (r: Vec<FloorAction>)
        requires
            old(self).wf(),
        ensures
            final(self).wf(),
            final(self).settings() == old(self).settings(),
            exists|grant_at: u64|
                (final(self)@, notices(r@)) == #[trigger] after_timers(
                    old(self)@,
                    old(self).settings(),
                    now_ms,
                    grant_at,
                ),
    {
        let grant_ms: u64 = wall_clock_ms();
        self.check_timers_at(now_ms, grant_ms)
    }

    /// `on_participant_leave` at a given time.
    pub fn on_participant_leave_at(&mut self, user_id: &str, now_ms: u64) -> (r: Vec<FloorAction>)
        requires
            old(self).wf(),
        ensures
            final(self).wf(),
            final(self).settings() == old(self).settings(),
            (final(self)@, notices(r@)) == after_leave(old(self)@, user_id@, now_ms),
    {
        self.drop_waiting(user_id);
        proof {
            lemma_dequeue(old(self)@.queue, user_id@);
        }
        match self.current_speaker() {
            Some(s) => {
                if text_eq(s.as_str(), user_id) {
                    return self.hand_over_at(
                        s,
                        FloorAction::Released { prev_speaker: owned(user_id) },
                        now_ms,
                    );
                }
            },
            None => {},
        }
        let actions: Vec<FloorAction> = Vec::new();
        assert(notices(actions@) =~= Seq::empty());
        actions
    }

    /// A participant is gone: their request is withdrawn, and the floor is
    /// handed on if they held it.
    pub fn on_participant_leave(&mut self, user_id: &str) -> (r: Vec<FloorAction>)
        requires
            old(self).wf(),
        ensures
            final(self).wf(),
            final(self).settings() == old(self).settings(),
            exists|now: u64|
                (final(self)@, notices(r@)) == #[trigger] after_leave(old(self)@, user_id@, now),
    {
        let now: u64 = wall_clock_ms();
        self.on_participant_leave_at(user_id, now)
    }
}


// ---------------------------------------------------------------------------
// Laws
// ---------------------------------------------------------------------------

proof fn lemma_hand_over_valid(f: Floor, c: FloorConfig, first: FloorNotice, now: u64)
    requires
        floor_valid(f, c),
    ensures
        floor_valid(hand_over(f, first, now).0, c),
{
    let t = f.queue.drop_first();
    if f.queue.len() > 0 {
        assert forall|i: int, j: int| 0 <= i < j < t.len() implies !goes_first(
            #[trigger] t[j],
            #[trigger] t[i],
        ) by {
            assert(t[i] == f.queue[i + 1] && t[j] == f.queue[j + 1]);
        }
        assert forall|i: int, j: int| 0 <= i < j < t.len() implies (#[trigger] t[i]).user != (
        #[trigger] t[j]).user by {
            assert(t[i] == f.queue[i + 1] && t[j] == f.queue[j + 1]);
        }
    }
}

proof fn lemma_request_valid(f: Floor, c: FloorConfig, user: Seq<char>, priority: u8, now: u64)
    requires
        floor_valid(f, c),
    ensures
        floor_valid(after_request(f, c, user, priority, now).0, c),
{
    let w = Waiting { user, priority, enqueued_at: now };
    lemma_slot(f.queue, w);
    if place_of(f.queue, user) is None {
        law_enqueue_sorts(f.queue, w);
        lemma_enqueue_once(f.queue, w);
    }
}

/// The floor is never idle while somebody waits. It is so at the start, every
/// operation keeps it so, and therefore an idle floor has an empty queue.
pub proof fn law_idle_floor_has_no_queue(
    f: Floor,
    c: FloorConfig,
    user: Seq<char>,
    priority: u8,
    now: u64,
    grant_at: u64,
)
    requires
        floor_valid(f, c),
    ensures
        f.burst is None ==> f.queue.len() == 0,
        floor_valid(idle_floor(), c),
        ({
            let requested = after_request(f, c, user, priority, now).0;
            let released = after_release(f, user, now).0;
            let timed = after_timers(f, c, now, grant_at).0;
            let left = after_leave(f, user, now).0;
            let pinged = after_ping(f, user, now);
            let cancelled = after_cancel(f, user);
            &&& requested.burst is Some
            &&& floor_valid(requested, c)
            &&& released.burst is None ==> released.queue.len() == 0
            &&& floor_valid(released, c)
            &&& timed.burst is None ==> timed.queue.len() == 0
            &&& floor_valid(timed, c)
            &&& left.burst is None ==> left.queue.len() == 0
            &&& floor_valid(left, c)
            &&& pinged.burst is None ==> pinged.queue.len() == 0
            &&& floor_valid(pinged, c)
            &&& cancelled.burst is None ==> cancelled.queue.len() == 0
            &&& floor_valid(cancelled, c)
        }),
{
    law_floor_stays_valid(f, c, user, priority, now, grant_at);
}

/// Every operation keeps the queue in order, free of duplicates, within its limit,
/// and empty while nobody speaks.
pub proof fn law_floor_stays_valid(
    f: Floor,
    c: FloorConfig,
    user: Seq<char>,
    priority: u8,
    now: u64,
    grant_at: u64,
)
    requires
        floor_valid(f, c),
    ensures
        floor_valid(after_request(f, c, user, priority, now).0, c),
        floor_valid(after_release(f, user, now).0, c),
        floor_valid(after_timers(f, c, now, grant_at).0, c),
        floor_valid(after_leave(f, user, now).0, c),
        floor_valid(after_ping(f, user, now), c),
        floor_valid(after_cancel(f, user), c),
{
    lemma_request_valid(f, c, user, priority, now);
    lemma_dequeue(f.queue, user);
    let released = FloorNotice::Released { prev_speaker: user };
    let g = Floor { queue: dequeue(f.queue, user), ..f };
    lemma_hand_over_valid(f, c, released, now);
    lemma_hand_over_valid(g, c, released, now);
    if f.burst is Some {
        let prev_speaker = f.burst->0.speaker;
        lemma_hand_over_valid(
            f,
            c,
            FloorNotice::Revoked { prev_speaker, cause: "max burst exceeded"@ },
            grant_at,
        );
        lemma_hand_over_valid(
            f,
            c,
            FloorNotice::Revoked { prev_speaker, cause: "participant lost"@ },
            grant_at,
        );
    }
}

/// After a request the floor is taken, whoever asked. It changes hands only if it
/// was free, or if preemption is on and the request has the higher priority.
pub proof fn law_request_takes_floor(f: Floor, c: FloorConfig, user: Seq<char>, priority: u8, now: u64)
    ensures
        ({
            let g = after_request(f, c, user, priority, now).0;
            &&& g.burst is Some
            &&& f.burst is None ==> g.burst->0.speaker == user
            &&& f.burst is Some && g.burst->0.speaker != f.burst->0.speaker ==> {
                &&& g.burst->0.speaker == user
                &&& c.preemption_enabled
                &&& priority > f.burst->0.priority
            }
        }),
{
}

/// A speaker who asks again is told that they have the floor, and nothing
/// changes; asking twice in a row is the same as asking once.
pub proof fn law_request_idempotent(
    f: Floor,
    c: FloorConfig,
    user: Seq<char>,
    priority: u8,
    now: u64,
    later: u64,
)
    requires
        floor_valid(f, c),
    ensures
        ({
            let g = after_request(f, c, user, priority, now).0;
            after_request(g, c, user, priority, later).0 == g
        }),
{
    let g = after_request(f, c, user, priority, now).0;
    if f.burst is Some && f.burst->0.speaker != user && !(c.preemption_enabled && priority
        > f.burst->0.priority) && c.queuing_enabled && place_of(f.queue, user) is None
        && f.queue.len() < c.max_queue_size {
        lemma_enqueue_once(f.queue, Waiting { user, priority, enqueued_at: now });
    }
}

/// When the speaker lets go, the floor goes to a waiting request that none of the
/// others goes before; it becomes free only if nobody waits.
pub proof fn law_release_serves_queue(f: Floor, c: FloorConfig, now: u64)
    requires
        floor_valid(f, c),
        f.burst is Some,
    ensures
        ({
            let g = after_release(f, f.burst->0.speaker, now).0;
            &&& f.queue.len() == 0 ==> g.burst is None && g.prev_speaker == Some(f.burst->0.speaker)
            &&& f.queue.len() > 0 ==> {
                &&& g.burst is Some
                &&& g.burst->0.speaker == f.queue[0].user
                &&& g.queue == f.queue.drop_first()
                &&& forall|i: int|
                    0 <= i < f.queue.len() ==> !goes_first(#[trigger] f.queue[i], f.queue[0])
            }
        }),
{
}

/// Whoever leaves neither speaks nor waits afterwards.
pub proof fn law_leave_forgets(f: Floor, c: FloorConfig, user: Seq<char>, now: u64)
    requires
        floor_valid(f, c),
    ensures
        ({
            let g = after_leave(f, user, now).0;
            &&& place_of(g.queue, user) is None
            &&& g.burst is Some ==> g.burst->0.speaker != user
        }),
{
    lemma_dequeue(f.queue, user);
    let q = dequeue(f.queue, user);
    lemma_place(q, user);
    if q.len() > 0 {
        assert(q[0].user != user);
        assert forall|k: int| 0 <= k < q.drop_first().len() implies (
        #[trigger] q.drop_first()[k]).user != user by {
            assert(q.drop_first()[k] == q[k + 1]);
        }
        lemma_place(q.drop_first(), user);
    }
}

/// A request that is queued comes up behind all waiting requests of at least its
/// priority that are not younger, so that equal priorities are served in the
/// order of their arrival.
pub proof fn law_queue_is_fair(q: Seq<Waiting>, w: Waiting, i: int)
    requires
        in_order(q),
        place_of(q, w.user) is None,
        0 <= i < q.len(),
        q[i].priority >= w.priority,
        q[i].priority == w.priority ==> q[i].enqueued_at <= w.enqueued_at,
    ensures
        place_of(enqueue(q, w), w.user) is Some,
        place_of(enqueue(q, w), w.user)->0 > i,
        enqueue(q, w)[i] == q[i],
{
    lemma_place(q, w.user);
    lemma_slot(q, w);
    law_enqueue_sorts(q, w);
    let s = slot_for(q, w);
    assert(s > i) by {
        if s <= i {
            assert(goes_first(w, q[i]));
        }
    }
    let r = enqueue(q, w);
    assert forall|k: int| 0 <= k < s implies (#[trigger] r[k]).user != w.user by {
        assert(r[k] == q[k]);
    }
    lemma_place_is(r, w.user, s);
}

/// The timers leave a speaker alone who has neither spoken too long nor been
/// silent too long, and the free floor.
pub proof fn law_timers_spare(f: Floor, c: FloorConfig, now: u64, grant_at: u64)
    requires
        f.burst is Some ==> now - f.burst->0.burst_start <= c.max_burst_ms && now
            - f.burst->0.last_ping <= c.ping_timeout_ms,
    ensures
        after_timers(f, c, now, grant_at) == (f, Seq::<FloorNotice>::empty()),
{
}

} // verus!
