//! Playback: the schedule of sink operations that replays a recording.
//!
//! The schedule writes each event and synchronises the sink, and between two
//! events waits for the difference of their times. The caller carries the
//! steps out in order against a virtual device and stops at the first failure.
use vstd::prelude::*;

use crate::event::{Event, EventList};

verus! {

/// One operation on the virtual device, or a wait.
#[derive(Clone, Copy, Debug, PartialEq, Eq, Structural)]
pub enum PlayStep {
    /// Emit an event.
    Write { event_type: u16, event_code: u16, value: i32 },
    /// Make the events written so far observable.
    Sync,
    /// Wait this many microseconds.
    Sleep { micros: u64 },
}

/// The write step for `e`.
pub open spec fn write_of(e: Event) -> PlayStep {
    PlayStep::Write { event_type: e.event_type, event_code: e.event_code, value: e.value }
}

/// The wait between `a` and the event `b` after it: the difference of their
/// times, or zero where `b` is earlier.
pub open spec fn gap(a: Event, b: Event) -> u64 {
    if b.time >= a.time {
        (b.time - a.time) as u64
    } else {
        0
    }
}

/// The schedule that replays `events`.
pub open spec fn plan(events: Seq<Event>) -> Seq<PlayStep>
    decreases events.len(),
{
    if events.len() == 0 {
        Seq::empty()
    } else if events.len() == 1 {
        seq![write_of(events[0]), PlayStep::Sync]
    } else {
        plan(events.drop_last()) + seq![
            PlayStep::Sleep { micros: gap(events[events.len() - 2], events.last()) },
            write_of(events.last()),
            PlayStep::Sync,
        ]
    }
}

/// The time spent waiting over `steps`, in microseconds.
pub open spec fn total_sleep(steps: Seq<PlayStep>) -> int
    decreases steps.len(),
{
    if steps.len() == 0 {
        0
    } else {
        total_sleep(steps.drop_last()) + match steps.last() {
            PlayStep::Sleep { micros } => micros as int,
            _ => 0,
        }
    }
}

/// Events whose times never decrease.
pub open spec fn nondecreasing(events: Seq<Event>) -> bool {
    forall|i: int, j: int| 0 <= i < j < events.len() ==> #[trigger] events[i].time <= #[trigger] events[j].time
}

proof fn lemma_plan_len(events: Seq<Event>)
    ensures
        plan(events).len() == if events.len() == 0 {
            0
        } else {
            3 * events.len() - 1
        },
    decreases events.len(),
{
    if events.len() > 1 {
        lemma_plan_len(events.drop_last());
    }
}

proof fn lemma_total_sleep_append(a: Seq<PlayStep>, b: Seq<PlayStep>)
    ensures
        total_sleep(a + b) == total_sleep(a) + total_sleep(b),
    decreases b.len(),
{
    if b.len() == 0 {
        assert(a + b =~= a);
    } else {
        assert((a + b).drop_last() =~= a + b.drop_last());
        lemma_total_sleep_append(a, b.drop_last());
    }
}

proof fn lemma_sleep_of_short(a: Seq<PlayStep>, e: Event, g: u64)
    ensures
        total_sleep(a + seq![write_of(e), PlayStep::Sync]) == total_sleep(a),
        total_sleep(a + seq![PlayStep::Sleep { micros: g }, write_of(e), PlayStep::Sync]) == total_sleep(a) + g,
{
    let two = seq![write_of(e), PlayStep::Sync];
    let three = seq![PlayStep::Sleep { micros: g }, write_of(e), PlayStep::Sync];
    lemma_total_sleep_append(a, two);
    lemma_total_sleep_append(a, three);
    assert(two.drop_last().drop_last() =~= Seq::<PlayStep>::empty());
    assert(total_sleep(two.drop_last().drop_last()) == 0);
    assert(two.drop_last().last() == write_of(e));
    assert(total_sleep(two.drop_last()) == 0);
    assert(three.drop_last().drop_last().drop_last() =~= Seq::<PlayStep>::empty());
    assert(total_sleep(three.drop_last().drop_last().drop_last()) == 0);
    assert(three.drop_last().drop_last().last() == PlayStep::Sleep { micros: g });
    assert(total_sleep(three.drop_last().drop_last()) == g);
    assert(three.drop_last().last() == write_of(e));
    assert(total_sleep(three.drop_last()) == g);
}

/// Over a schedule of events whose times never decrease, the waits add up to
/// the time between the first and the last event.
proof fn lemma_plan_sleep(events: Seq<Event>)
    requires
        events.len() >= 1,
        nondecreasing(events),
    ensures
        total_sleep(plan(events)) == events.last().time - events[0].time,
    decreases events.len(),
{
    if events.len() == 1 {
        lemma_sleep_of_short(Seq::empty(), events[0], 0);
        assert(Seq::<PlayStep>::empty() + seq![write_of(events[0]), PlayStep::Sync] =~= plan(events));
    } else {
        let d = events.drop_last();
        assert(nondecreasing(d));
        lemma_plan_sleep(d);
        lemma_sleep_of_short(plan(d), events.last(), gap(events[events.len() - 2], events.last()));
        assert(events[events.len() - 2].time <= events.last().time);
    }
}

proof fn lemma_plan_prefix(events: Seq<Event>, k: int)
    requires
        0 <= k < events.len(),
    ensures
        plan(events.take(k + 1)) == plan(events).take(3 * k + 2),
    decreases events.len(),
{
    lemma_plan_len(events);
    if k + 1 == events.len() {
        assert(events.take(k + 1) =~= events);
        assert(plan(events).take(3 * k + 2) =~= plan(events));
    } else {
        let d = events.drop_last();
        lemma_plan_prefix(d, k);
        lemma_plan_len(d);
        assert(d.take(k + 1) =~= events.take(k + 1));
        assert(plan(events).take(3 * k + 2) =~= plan(d).take(3 * k + 2));
    }
}

/// The last two steps of the schedule for the first `k + 1` events.
proof fn lemma_plan_last_write(events: Seq<Event>, k: int)
    requires
        0 <= k < events.len(),
    ensures
        plan(events)[3 * k] == write_of(events[k]),
        plan(events)[3 * k + 1] == PlayStep::Sync,
        plan(events.take(k + 1)) == plan(events).take(3 * k) + seq![write_of(events[k]), PlayStep::Sync],
{
    lemma_plan_len(events);
    lemma_plan_prefix(events, k);
    let pre = events.take(k + 1);
    lemma_plan_len(pre);
    assert(pre.last() == events[k]);
    if k > 0 {
        lemma_plan_len(pre.drop_last());
    }
    let p = plan(pre);
    assert(p[3 * k] == write_of(events[k]));
    assert(p[3 * k + 1] == PlayStep::Sync);
    assert(p =~= plan(events).take(3 * k) + seq![write_of(events[k]), PlayStep::Sync]);
}

/// The step after the synchronisation of event `k`, when another event follows.
proof fn lemma_plan_next_sleep(events: Seq<Event>, k: int)
    requires
        0 <= k < events.len() - 1,
    ensures
        plan(events)[3 * k + 2] == (PlayStep::Sleep { micros: gap(events[k], events[k + 1]) }),
{
    lemma_plan_len(events);
    lemma_plan_prefix(events, k + 1);
    let pre2 = events.take(k + 2);
    lemma_plan_len(pre2.drop_last());
    assert(pre2.drop_last() =~= events.take(k + 1));
    assert(pre2[k] == events[k] && pre2.last() == events[k + 1]);
    assert(plan(pre2)[3 * k + 2] == plan(events)[3 * k + 2]);
}

/// Replaying events whose times never decrease writes event `k` at step
/// `3k`, synchronises right after it, and by then has waited exactly the time
/// from the first event to event `k`; event `k + 1`, if any, follows a wait of
/// exactly the difference of the two times.
pub proof fn lemma_timing_fidelity(events: Seq<Event>, k: int)
    requires
        nondecreasing(events),
        0 <= k < events.len(),
    ensures
        plan(events)[3 * k] == write_of(events[k]),
        plan(events)[3 * k + 1] == PlayStep::Sync,
        total_sleep(plan(events).take(3 * k)) == events[k].time - events[0].time,
        k + 1 < events.len() ==> plan(events)[3 * k + 2] == (PlayStep::Sleep {
            micros: (events[k + 1].time - events[k].time) as u64,
        }),
{
    lemma_plan_last_write(events, k);
    let pre = events.take(k + 1);
    assert(nondecreasing(pre));
    lemma_plan_sleep(pre);
    lemma_sleep_of_short(plan(events).take(3 * k), events[k], 0);
    if k + 1 < events.len() {
        lemma_plan_next_sleep(events, k);
        assert(events[k].time <= events[k + 1].time);
    }
}

/// The schedule that replays `list`'s events in order: for each event a
/// write and a synchronisation, and between two events a wait of the
/// difference of their times (zero where the later one is earlier).
pub fn playback_plan(list: &EventList) -> (r: Vec<PlayStep>)
    ensures
        r@ == plan(list.events@),
        list.events@.len() == 0 ==> r@.len() == 0,
{
    let events = &list.events;
    let n = events.len();
    let mut r: Vec<PlayStep> = Vec::new();
    let mut i: usize = 0;
    while i < n
        invariant
            n == events@.len(),
            i <= n,
            r@ == plan(events@.take(i as int)),
        decreases n - i,
    {
        let e = events[i];
        let ghost before = r@;
        if i > 0 {
            let p = events[i - 1];
            let micros = if e.time >= p.time {
                e.time - p.time
            } else {
                0
            };
            r.push(PlayStep::Sleep { micros });
        }
        r.push(PlayStep::Write { event_type: e.event_type, event_code: e.event_code, value: e.value });
        r.push(PlayStep::Sync);
        proof {
            let t = events@.take(i + 1);
            assert(t.drop_last() =~= events@.take(i as int));
            assert(t.last() == e);
            if i > 0 {
                assert(t[t.len() - 2] == events@[i - 1]);
                assert(r@ =~= before + plan(t).subrange(plan(t.drop_last()).len() as int, plan(t).len() as int));
            }
            assert(r@ =~= plan(t));
        }
        i = i + 1;
    }
    assert(events@.take(n as int) =~= events@);
    r
}

} // verus!
