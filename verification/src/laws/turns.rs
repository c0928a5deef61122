//! Laws of the floor: who may speak, who waits, and who is told what.

use vstd::prelude::*;

use crate::room::floor::{
    after_cancel, after_leave, after_ping, after_release, after_request, after_timers, dequeue,
    floor_valid, place_of, Floor, FloorConfig, FloorNotice, TalkBurst, Waiting,
};

verus! {

/// Whether the floor has gone to the head of a queue at a time, or is free where
/// nobody waits, and whether this was told: `notices` begin with what happened to
/// the speaker before.
pub open spec fn passed_on(
    queue: Seq<Waiting>,
    speaker: Seq<char>,
    at: u64,
    g: Floor,
    first: FloorNotice,
    notices: Seq<FloorNotice>,
) -> bool {
    if queue.len() == 0 {
        &&& g.burst is None
        &&& g.queue.len() == 0
        &&& g.prev_speaker == Some(speaker)
        &&& notices == seq![first]
    } else {
        &&& g.burst == Some(
            TalkBurst {
                speaker: queue[0].user,
                priority: queue[0].priority,
                burst_start: at,
                last_ping: at,
            },
        )
        &&& g.queue == queue.subrange(1, queue.len() as int)
        &&& g.prev_speaker is None
        &&& notices == seq![
            first,
            FloorNotice::Granted {
                speaker: queue[0].user,
                priority: queue[0].priority,
                duration_s: 30,
            },
        ]
    }
}

/// A speaker who has not been heard of for longer than the ping timeout loses the
/// floor, as does one who has spoken for longer than a burst may last; they are told
/// so and the floor goes on. Anybody else keeps it.
pub proof fn law_timers_revoke(f: Floor, c: FloorConfig, now: u64, grant_at: u64)
    ensures
        ({
            let (g, notices) = after_timers(f, c, now, grant_at);
            match f.burst {
                None => g == f && notices.len() == 0,
                Some(b) => if now > b.burst_start + c.max_burst_ms {
                    passed_on(
                        f.queue,
                        b.speaker,
                        grant_at,
                        g,
                        FloorNotice::Revoked {
                            prev_speaker: b.speaker,
                            cause: "max burst exceeded"@,
                        },
                        notices,
                    )
                } else if now > b.last_ping + c.ping_timeout_ms {
                    passed_on(
                        f.queue,
                        b.speaker,
                        grant_at,
                        g,
                        FloorNotice::Revoked {
                            prev_speaker: b.speaker,
                            cause: "participant lost"@,
                        },
                        notices,
                    )
                } else {
                    g == f && notices.len() == 0
                },
            }
        }),
{
    let (g, notices) = after_timers(f, c, now, grant_at);
    if let Some(b) = f.burst {
        if f.queue.len() > 0 {
            assert(f.queue.drop_first() =~= f.queue.subrange(1, f.queue.len() as int));
            assert(notices.len() > 0 ==> notices =~= seq![notices[0], notices[1]]);
        } else {
            assert(notices.len() > 0 ==> notices =~= seq![notices[0]]);
        }
    }
}

/// Pings keep the floor: a speaker who pings at `t` is not revoked for silence
/// until the timeout has passed from then on, and nobody else's ping counts.
pub proof fn law_ping_renews(
    f: Floor,
    c: FloorConfig,
    user: Seq<char>,
    t: u64,
    now: u64,
    grant_at: u64,
)
    requires
        f.burst is Some,
    ensures
        ({
            let b = f.burst->0;
            let g = after_ping(f, user, t);
            &&& g.queue == f.queue && g.prev_speaker == f.prev_speaker
            &&& g.burst is Some && g.burst->0.speaker == b.speaker && g.burst->0.priority
                == b.priority && g.burst->0.burst_start == b.burst_start
            &&& user != b.speaker ==> g == f
            &&& user == b.speaker && now <= t + c.ping_timeout_ms && now <= b.burst_start
                + c.max_burst_ms ==> after_timers(g, c, now, grant_at).0 == g
            &&& user == b.speaker && now > t + c.ping_timeout_ms && f.queue.len() == 0
                ==> after_timers(g, c, now, grant_at).0.burst is None
        }),
{
}

/// A free floor is granted to whoever asks; the speaker who asks again is granted
/// it again at the priority that they have, and nothing changes.
pub proof fn law_free_floor_is_granted(
    f: Floor,
    c: FloorConfig,
    user: Seq<char>,
    priority: u8,
    now: u64,
)
    ensures
        ({
            let (g, notices) = after_request(f, c, user, priority, now);
            &&& f.burst is None ==> g == (Floor {
                burst: Some(
                    TalkBurst { speaker: user, priority, burst_start: now, last_ping: now },
                ),
                queue: f.queue,
                prev_speaker: None,
            }) && notices == seq![
                FloorNotice::Granted { speaker: user, priority, duration_s: 30 },
            ]
            &&& f.burst matches Some(b) ==> b.speaker == user ==> g == f && notices == seq![
                FloorNotice::Granted { speaker: user, priority: b.priority, duration_s: 30 },
            ]
        }),
{
}

/// Where preemption is on, a request of strictly higher priority takes the floor at
/// once: the speaker is told that they were preempted, then the floor is granted.
/// Nobody who waits loses their place. An equal or lower priority never takes it.
pub proof fn law_preemption(f: Floor, c: FloorConfig, user: Seq<char>, priority: u8, now: u64)
    requires
        f.burst is Some,
        f.burst->0.speaker != user,
    ensures
        ({
            let b = f.burst->0;
            let (g, notices) = after_request(f, c, user, priority, now);
            if c.preemption_enabled && priority > b.priority {
                &&& g.burst == Some(
                    TalkBurst { speaker: user, priority, burst_start: now, last_ping: now },
                )
                &&& g.queue == f.queue
                &&& g.prev_speaker == Some(b.speaker)
                &&& notices == seq![
                    FloorNotice::Revoked { prev_speaker: b.speaker, cause: "preempted"@ },
                    FloorNotice::Granted { speaker: user, priority, duration_s: 30 },
                ]
            } else {
                g.burst == f.burst && g.prev_speaker == f.prev_speaker
            }
        }),
{
}

/// Who may neither speak at once nor wait is denied, with the reason and the name of
/// the speaker, and nothing changes: where nobody can wait, or where the queue is
/// full and they are not in it.
pub proof fn law_denial(f: Floor, c: FloorConfig, user: Seq<char>, priority: u8, now: u64)
    requires
        f.burst is Some,
        f.burst->0.speaker != user,
        !(c.preemption_enabled && priority > f.burst->0.priority),
        forall|i: int| 0 <= i < f.queue.len() ==> (#[trigger] f.queue[i]).user != user,
    ensures
        ({
            let b = f.burst->0;
            let (g, notices) = after_request(f, c, user, priority, now);
            &&& !c.queuing_enabled ==> g == f && notices == seq![
                FloorNotice::Denied { reason: "channel busy"@, current_speaker: b.speaker },
            ]
            &&& c.queuing_enabled && f.queue.len() >= c.max_queue_size ==> g == f && notices
                == seq![FloorNotice::Denied { reason: "queue full"@, current_speaker: b.speaker }]
        }),
{
    lemma_absent(f.queue, user);
}

proof fn lemma_absent(q: Seq<Waiting>, user: Seq<char>)
    requires
        forall|i: int| 0 <= i < q.len() ==> (#[trigger] q[i]).user != user,
    ensures
        place_of(q, user) is None,
    decreases q.len(),
{
    if q.len() > 0 {
        let t = q.drop_first();
        assert forall|i: int| 0 <= i < t.len() implies (#[trigger] t[i]).user != user by {
            assert(t[i] == q[i + 1]);
        }
        lemma_absent(t, user);
    }
}

proof fn lemma_present(q: Seq<Waiting>, user: Seq<char>, i: int)
    requires
        0 <= i < q.len(),
        q[i].user == user,
        forall|k: int| 0 <= k < i ==> (#[trigger] q[k]).user != user,
    ensures
        place_of(q, user) == Some(i),
    decreases q.len(),
{
    if i > 0 {
        let t = q.drop_first();
        assert forall|k: int| 0 <= k < i - 1 implies (#[trigger] t[k]).user != user by {
            assert(t[k] == q[k + 1]);
        }
        assert(t[i - 1] == q[i]);
        assert(q[0].user != user);
        lemma_present(t, user, i - 1);
    }
}

/// How many of the first `n` who wait are of at least a priority.
pub open spec fn ahead_of(q: Seq<Waiting>, priority: u8, n: int) -> int
    decreases n,
{
    if n <= 0 {
        0
    } else {
        ahead_of(q, priority, n - 1) + if q[n - 1].priority >= priority {
            1int
        } else {
            0
        }
    }
}

/// Where requests come in with the time, a new one waits behind all of at least its
/// priority and before all others, who keep their order: its position is one more
/// than the number of the former. The client is told the position, its priority and
/// how many wait.
pub proof fn law_waiting(f: Floor, c: FloorConfig, user: Seq<char>, priority: u8, now: u64)
    requires
        floor_valid(f, c),
        f.burst is Some,
        f.burst->0.speaker != user,
        !(c.preemption_enabled && priority > f.burst->0.priority),
        c.queuing_enabled,
        f.queue.len() < c.max_queue_size,
        f.queue.len() < 255,
        forall|i: int| 0 <= i < f.queue.len() ==> (#[trigger] f.queue[i]).user != user,
        forall|i: int| 0 <= i < f.queue.len() ==> (#[trigger] f.queue[i]).enqueued_at <= now,
    ensures
        ({
            let (g, notices) = after_request(f, c, user, priority, now);
            let k = ahead_of(f.queue, priority, f.queue.len() as int);
            &&& g.burst == f.burst && g.prev_speaker == f.prev_speaker
            &&& g.queue == f.queue.subrange(0, k) + seq![
                Waiting { user, priority, enqueued_at: now },
            ] + f.queue.subrange(k, f.queue.len() as int)
            &&& notices == seq![
                FloorNotice::Queued {
                    user_id: user,
                    position: (k + 1) as u8,
                    priority,
                    queue_size: (f.queue.len() + 1) as u16,
                },
            ]
        }),
{
    let q = f.queue;
    let n = q.len() as int;
    let k = ahead_of(q, priority, n);
    let w = Waiting { user, priority, enqueued_at: now };
    lemma_absent(q, user);
    lemma_ahead(q, priority, n);
    lemma_slot_is(q, w, k);
    let g = after_request(f, c, user, priority, now).0;
    assert(g.queue =~= q.subrange(0, k) + seq![w] + q.subrange(k, n));
    assert forall|i: int| 0 <= i < k implies (#[trigger] g.queue[i]).user != user by {
        assert(g.queue[i] == q[i]);
    }
    lemma_present(g.queue, user, k);
}

proof fn lemma_ahead(q: Seq<Waiting>, priority: u8, n: int)
    requires
        crate::room::floor::in_order(q),
        0 <= n <= q.len(),
    ensures
        0 <= ahead_of(q, priority, n) <= n,
        forall|i: int|
            0 <= i < ahead_of(q, priority, n) ==> (#[trigger] q[i]).priority >= priority,
        forall|i: int|
            ahead_of(q, priority, n) <= i < n ==> (#[trigger] q[i]).priority < priority,
    decreases n,
{
    if n > 0 {
        lemma_ahead(q, priority, n - 1);
        let k = ahead_of(q, priority, n - 1);
        if q[n - 1].priority >= priority && k < n - 1 {
            assert(q[k].priority < priority);
            assert(!crate::room::floor::goes_first(q[n - 1], q[k]));
        }
    }
}

proof fn lemma_slot_is(q: Seq<Waiting>, w: Waiting, k: int)
    requires
        0 <= k <= q.len(),
        forall|i: int| 0 <= i < k ==> (#[trigger] q[i]).priority >= w.priority,
        forall|i: int| k <= i < q.len() ==> (#[trigger] q[i]).priority < w.priority,
        forall|i: int| 0 <= i < q.len() ==> (#[trigger] q[i]).enqueued_at <= w.enqueued_at,
    ensures
        crate::room::floor::slot_for(q, w) == k,
    decreases q.len(),
{
    if q.len() > 0 {
        assert(q[0].enqueued_at <= w.enqueued_at);
        if k > 0 {
            assert(q[0].priority >= w.priority);
            let t = q.drop_first();
            assert forall|i: int| 0 <= i < k - 1 implies (#[trigger] t[i]).priority >= w.priority by {
                assert(t[i] == q[i + 1]);
            }
            assert forall|i: int| k - 1 <= i < t.len() implies (#[trigger] t[i]).priority
                < w.priority by {
                assert(t[i] == q[i + 1]);
            }
            assert forall|i: int| 0 <= i < t.len() implies (#[trigger] t[i]).enqueued_at
                <= w.enqueued_at by {
                assert(t[i] == q[i + 1]);
            }
            lemma_slot_is(t, w, k - 1);
        } else {
            assert(q[0].priority < w.priority);
        }
    }
}

/// Who waits and asks again keeps their place and is told it again.
pub proof fn law_waiting_again(
    f: Floor,
    c: FloorConfig,
    user: Seq<char>,
    priority: u8,
    now: u64,
    i: int,
)
    requires
        floor_valid(f, c),
        f.burst is Some,
        f.burst->0.speaker != user,
        !(c.preemption_enabled && priority > f.burst->0.priority),
        c.queuing_enabled,
        0 <= i < f.queue.len() < 256,
        f.queue[i].user == user,
    ensures
        ({
            let (g, notices) = after_request(f, c, user, priority, now);
            &&& g == f
            &&& notices == seq![
                FloorNotice::Queued {
                    user_id: user,
                    position: ((i + 1) % 256) as u8,
                    priority,
                    queue_size: f.queue.len() as u16,
                },
            ]
        }),
{
    assert forall|k: int| 0 <= k < i implies (#[trigger] f.queue[k]).user != user by {}
    lemma_present(f.queue, user, i);
}

/// A release by the speaker hands the floor on and is told; by somebody who waits it
/// takes their request back, silently; of a free floor it is confirmed.
pub proof fn law_release(f: Floor, c: FloorConfig, user: Seq<char>, now: u64)
    requires
        floor_valid(f, c),
    ensures
        ({
            let (g, notices) = after_release(f, user, now);
            let released = FloorNotice::Released { prev_speaker: user };
            match f.burst {
                None => g == f && notices == seq![released],
                Some(b) => if b.speaker == user {
                    passed_on(f.queue, user, now, g, released, notices)
                } else {
                    &&& g.burst == f.burst && g.prev_speaker == f.prev_speaker
                    &&& withdrawn(f.queue, g.queue, user)
                    &&& notices.len() == 0
                },
            }
        }),
{
    let (g, notices) = after_release(f, user, now);
    lemma_withdrawn(f.queue, user);
    if let Some(b) = f.burst {
        if b.speaker == user {
            if f.queue.len() > 0 {
                assert(f.queue.drop_first() =~= f.queue.subrange(1, f.queue.len() as int));
                assert(notices =~= seq![notices[0], notices[1]]);
            } else {
                assert(notices =~= seq![notices[0]]);
            }
        }
    }
}

/// Whether `after` is `before` without the requests of `user`: all others are still
/// there, in their order, and nobody else is.
pub open spec fn withdrawn(before: Seq<Waiting>, after: Seq<Waiting>, user: Seq<char>) -> bool {
    &&& forall|i: int| 0 <= i < after.len() ==> (#[trigger] after[i]).user != user
    &&& forall|i: int|
        0 <= i < before.len() && (#[trigger] before[i]).user != user ==> after.contains(before[i])
    &&& forall|i: int| 0 <= i < after.len() ==> before.contains(#[trigger] after[i])
    &&& (forall|i: int| 0 <= i < before.len() ==> (#[trigger] before[i]).user != user)
        ==> after == before
}

proof fn lemma_withdrawn(q: Seq<Waiting>, user: Seq<char>)
    ensures
        withdrawn(q, dequeue(q, user), user),
    decreases q.len(),
{
    let r = dequeue(q, user);
    reveal(Seq::filter);
    if q.len() > 0 {
        let t = q.drop_last();
        lemma_withdrawn(t, user);
        let s = dequeue(t, user);
        assert forall|i: int| 0 <= i < q.len() && (#[trigger] q[i]).user != user implies r.contains(
            q[i],
        ) by {
            if i < t.len() {
                assert(t[i] == q[i]);
                let k = choose|k: int| 0 <= k < s.len() && s[k] == t[i];
                assert(r[k] == q[i]);
            } else {
                assert(r[s.len() as int] == q[i]);
            }
        }
        assert forall|i: int| 0 <= i < r.len() implies q.contains(#[trigger] r[i]) && r[i].user
            != user by {
            if i < s.len() {
                assert(r[i] == s[i]);
                let k = choose|k: int| 0 <= k < t.len() && t[k] == s[i];
                assert(q[k] == r[i]);
            } else {
                assert(q[q.len() - 1] == r[i]);
            }
        }
        if forall|i: int| 0 <= i < q.len() ==> (#[trigger] q[i]).user != user {
            assert forall|i: int| 0 <= i < t.len() implies (#[trigger] t[i]).user != user by {
                assert(t[i] == q[i]);
            }
            assert(q[q.len() - 1].user != user);
            assert(r =~= q);
        }
    } else {
        assert(r =~= q);
    }
}

/// Somebody who leaves takes their request back, and the floor is handed on if they
/// had it, which is told as a release; nobody else is affected.
pub proof fn law_leaving(f: Floor, c: FloorConfig, user: Seq<char>, now: u64)
    requires
        floor_valid(f, c),
    ensures
        ({
            let (g, notices) = after_leave(f, user, now);
            let rest = after_cancel(f, user).queue;
            &&& withdrawn(f.queue, rest, user)
            &&& match f.burst {
                Some(b) if b.speaker == user => passed_on(
                    rest,
                    user,
                    now,
                    g,
                    FloorNotice::Released { prev_speaker: user },
                    notices,
                ),
                _ => {
                    &&& g.burst == f.burst && g.prev_speaker == f.prev_speaker
                    &&& g.queue == rest
                    &&& notices.len() == 0
                },
            }
        }),
{
    lemma_withdrawn(f.queue, user);
    let (g, notices) = after_leave(f, user, now);
    let rest = after_cancel(f, user).queue;
    if let Some(b) = f.burst {
        if b.speaker == user {
            if rest.len() > 0 {
                assert(rest.drop_first() =~= rest.subrange(1, rest.len() as int));
                assert(notices =~= seq![notices[0], notices[1]]);
            } else {
                assert(notices =~= seq![notices[0]]);
            }
        }
    }
}

/// A request that is taken back is gone, and nothing else changes.
pub proof fn law_cancelling(f: Floor, user: Seq<char>)
    ensures
        ({
            let g = after_cancel(f, user);
            &&& g.burst == f.burst && g.prev_speaker == f.prev_speaker
            &&& withdrawn(f.queue, g.queue, user)
        }),
{
    lemma_withdrawn(f.queue, user);
}

/// Of two who wait, the one of higher priority speaks first when the speaker lets
/// go, and of equals the one who asked first.
pub proof fn law_turn_of_two(
    c: FloorConfig,
    speaker: TalkBurst,
    a: Seq<char>,
    b: Seq<char>,
    pa: u8,
    pb: u8,
    t: u64,
    later: u64,
    end: u64,
)
    requires
        a != b,
        a != speaker.speaker,
        b != speaker.speaker,
        pa <= speaker.priority,
        pb <= speaker.priority,
        c.queuing_enabled,
        c.max_queue_size >= 2,
        t <= later,
    ensures
        ({
            let f = Floor { burst: Some(speaker), queue: Seq::empty(), prev_speaker: None };
            let g = after_request(after_request(f, c, a, pa, t).0, c, b, pb, later).0;
            let h = after_release(g, speaker.speaker, end).0;
            &&& h.burst->0.speaker == (if pb > pa { b } else { a })
            &&& h.queue.len() == 1 && h.queue[0].user == (if pb > pa { a } else { b })
        }),
{
    let f = Floor { burst: Some(speaker), queue: Seq::empty(), prev_speaker: None };
    assert(crate::room::floor::in_order(f.queue));
    law_waiting(f, c, a, pa, t);
    let g = after_request(f, c, a, pa, t).0;
    let w = Waiting { user: a, priority: pa, enqueued_at: t };
    assert(ahead_of(f.queue, pa, 0) == 0);
    assert(g.queue =~= seq![w]);
    law_waiting(g, c, b, pb, later);
    assert(ahead_of(g.queue, pb, 0) == 0);
    assert(ahead_of(g.queue, pb, 1) == (if pa >= pb { 1int } else { 0 }));
    let h = after_request(g, c, b, pb, later).0;
    let x = Waiting { user: b, priority: pb, enqueued_at: later };
    if pb > pa {
        assert(h.queue =~= seq![x, w]);
    } else {
        assert(h.queue =~= seq![w, x]);
    }
}

} // verus!
