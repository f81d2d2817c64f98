//! Capture: turning a device's raw event stream into a recording.
//!
//! A [`Recorder`] starts with a countdown, then takes raw events one by one:
//! it keeps key, relative-motion and absolute-motion events, drops every
//! other category, and stamps each kept event with its delay since the first
//! kept one.
use vstd::prelude::*;

use crate::event::{time_ordered, Capabilities, Event, EventList};

verus! {

/// Key state changes.
pub const EV_KEY: u16 = 1;

/// Relative motion.
pub const EV_REL: u16 = 2;

/// Absolute motion.
pub const EV_ABS: u16 = 3;

/// The number of one-second steps counted down before recording starts.
pub const COUNTDOWN: u32 = 3;

/// A raw timestamp as a device reports it.
#[derive(Clone, Copy, Debug, PartialEq, Eq, Structural)]
pub struct TimeVal {
    pub tv_sec: i64,
    pub tv_usec: i64,
}

/// An event as read from a device, before filtering.
#[derive(Clone, Copy, Debug, PartialEq, Eq, Structural)]
pub struct RawEvent {
    pub time: TimeVal,
    pub event_type: u16,
    pub event_code: u16,
    pub value: i32,
}

/// What became of one raw event.
#[derive(Clone, Copy, Debug, PartialEq, Eq, Structural)]
pub enum Captured {
    /// Its category is not recorded.
    Dropped,
    /// It was appended.
    Appended,
    /// It was appended at time zero, its timestamp being earlier than the
    /// first kept event's.
    Clamped,
}

/// Where a recorder stands.
#[derive(Clone, Copy, Debug, PartialEq, Eq, Structural)]
pub enum Phase {
    /// Counting down; `remaining` steps are left to show.
    Countdown { remaining: u32 },
    /// Taking events.
    Recording,
}

/// Whether events of category `t` are recorded.
pub open spec fn recorded_type(t: u16) -> bool {
    t == EV_KEY || t == EV_REL || t == EV_ABS
}

/// A timestamp in microseconds.
pub open spec fn micros(t: TimeVal) -> int {
    t.tv_sec * 1_000_000 + t.tv_usec
}

/// The delay from `epoch` to `t` in microseconds: zero where `t` is earlier,
/// and the largest `u64` where the delay does not fit.
pub open spec fn relative_time(t: TimeVal, epoch: TimeVal) -> u64 {
    let d = micros(t) - micros(epoch);
    if d < 0 {
        0
    } else if d > u64::MAX {
        u64::MAX
    } else {
        d as u64
    }
}

/// The raw events of recorded categories, in order.
pub open spec fn kept(raws: Seq<RawEvent>) -> Seq<RawEvent>
    decreases raws.len(),
{
    if raws.len() == 0 {
        Seq::empty()
    } else if recorded_type(raws.last().event_type) {
        kept(raws.drop_last()).push(raws.last())
    } else {
        kept(raws.drop_last())
    }
}

/// The recorded event for the raw event `r`, the first kept event being at `epoch`.
pub open spec fn stamped(r: RawEvent, epoch: TimeVal) -> Event {
    Event {
        time: relative_time(r.time, epoch),
        event_type: r.event_type,
        event_code: r.event_code,
        value: r.value,
    }
}

/// The events recorded from the raw events `raws`.
pub open spec fn captured(raws: Seq<RawEvent>) -> Seq<Event> {
    let k = kept(raws);
    Seq::new(k.len(), |i: int| stamped(k[i], k[0].time))
}

/// Recording from raw events whose kept timestamps never go backwards gives
/// events in time order, the first at time zero.
pub proof fn lemma_captured_ordered(raws: Seq<RawEvent>)
    requires
        forall|i: int, j: int|
            0 <= i < j < kept(raws).len() ==> micros(#[trigger] kept(raws)[i].time) <= micros(
                #[trigger] kept(raws)[j].time,
            ),
    ensures
        time_ordered(captured(raws)),
{
    let k = kept(raws);
    let c = captured(raws);
    assert forall|i: int| 0 <= i < c.len() - 1 implies #[trigger] c[i].time <= c[i + 1].time by {
        assert(micros(k[i].time) <= micros(k[i + 1].time));
    }
}

/// A raw event of a category that is not recorded adds no event.
pub proof fn lemma_dropped_category(raws: Seq<RawEvent>, r: RawEvent)
    requires
        !recorded_type(r.event_type),
    ensures
        captured(raws.push(r)) == captured(raws),
{
    assert(raws.push(r).drop_last() =~= raws);
    assert(captured(raws.push(r)) =~= captured(raws));
}

/// Turns raw events into a recording.
pub struct Recorder {
    phase: Phase,
    epoch: Option<TimeVal>,
    list: EventList,
    fed: Ghost<Seq<RawEvent>>,
}

impl Recorder {
    /// The recorder's state is consistent with the raw events it was fed.
    pub closed spec fn wf(&self) -> bool {
        &&& self.list.events@ == captured(self.fed@)
        &&& self.epoch == if kept(self.fed@).len() == 0 {
            None::<TimeVal>
        } else {
            Some(kept(self.fed@)[0].time)
        }
        &&& self.phase is Countdown ==> self.fed@.len() == 0
    }

    /// The raw events fed so far.
    pub closed spec fn fed(&self) -> Seq<RawEvent> {
        self.fed@
    }

    pub closed spec fn spec_phase(&self) -> Phase {
        self.phase
    }

    pub closed spec fn spec_list(&self) -> EventList {
        self.list
    }

    /// A recorder for a device with capabilities `c`, about to count down.
    pub fn new(c: Capabilities) -> (r: Recorder)
        ensures
            r.wf(),
            r.spec_phase() == (Phase::Countdown { remaining: COUNTDOWN }),
            r.fed().len() == 0,
            r.spec_list().capabilities == c,
    {
        let r = Recorder {
            phase: Phase::Countdown { remaining: COUNTDOWN },
            epoch: None,
            list: EventList::new(c),
            fed: Ghost(Seq::empty()),
        };
        assert(captured(Seq::empty()) =~= Seq::<Event>::empty());
        assert(r.list.events@ =~= Seq::<Event>::empty());
        r
    }

    /// Where the recorder stands.
    pub fn phase(&self) -> (r: Phase)
        ensures
            r == self.spec_phase(),
    {
        self.phase
    }

    /// Advances the countdown by one step.
    ///
    /// Returns the number to show before waiting one second, or `None` once
    /// the countdown is over; the last step moves the recorder to recording.
    pub fn countdown_step(&mut self) -> (r: Option<u32>)
        requires
            old(self).wf(),
        ensures
            final(self).wf(),
            final(self).fed() == old(self).fed(),
            final(self).spec_list() == old(self).spec_list(),
            match old(self).spec_phase() {
                Phase::Countdown { remaining } => if remaining == 0 {
                    r is None && final(self).spec_phase() == Phase::Recording
                } else {
                    r == Some(remaining) && final(self).spec_phase() == if remaining == 1 {
                        Phase::Recording
                    } else {
                        Phase::Countdown { remaining: (remaining - 1) as u32 }
                    }
                },
                Phase::Recording => r is None && final(self).spec_phase() == Phase::Recording,
            },
    {
        match self.phase {
            Phase::Countdown { remaining } => {
                if remaining == 0 {
                    self.phase = Phase::Recording;
                    None
                } else {
                    if remaining == 1 {
                        self.phase = Phase::Recording;
                    } else {
                        self.phase = Phase::Countdown { remaining: remaining - 1 };
                    }
                    Some(remaining)
                }
            },
            Phase::Recording => None,
        }
    }

    /// Takes one raw event.
    ///
    /// Events of categories other than key, relative and absolute motion are
    /// dropped. The first kept event fixes the epoch and gets time zero; each
    /// later one gets its delay since the epoch, zero where its timestamp is
    /// earlier.
    pub fn capture(&mut self, raw: RawEvent) -> (r: Captured)
        requires
            old(self).wf(),
            old(self).spec_phase() == Phase::Recording,
        ensures
            final(self).wf(),
            final(self).spec_phase() == Phase::Recording,
            final(self).fed() == old(self).fed().push(raw),
            final(self).spec_list().capabilities == old(self).spec_list().capabilities,
            !recorded_type(raw.event_type) ==> r == Captured::Dropped
                && final(self).spec_list().events@ == old(self).spec_list().events@,
            recorded_type(raw.event_type) ==> {
                let epoch = if kept(old(self).fed()).len() == 0 {
                    raw.time
                } else {
                    kept(old(self).fed())[0].time
                };
                &&& final(self).spec_list().events@ == old(self).spec_list().events@.push(stamped(raw, epoch))
                &&& r == if micros(raw.time) < micros(epoch) {
                    Captured::Clamped
                } else {
                    Captured::Appended
                }
            },
    {
        let ghost old_fed = self.fed@;
        proof {
            assert(old_fed.push(raw).drop_last() =~= old_fed);
        }
        if raw.event_type != EV_KEY && raw.event_type != EV_REL && raw.event_type != EV_ABS {
            self.fed = Ghost(old_fed.push(raw));
            assert(captured(self.fed@) =~= captured(old_fed));
            return Captured::Dropped;
        }
        let epoch = match self.epoch {
            Some(e) => e,
            None => {
                self.epoch = Some(raw.time);
                raw.time
            },
        };
        let (time, clamped) = delay_micros(raw.time, epoch);
        self.list.push(Event { time, event_type: raw.event_type, event_code: raw.event_code, value: raw.value });
        self.fed = Ghost(old_fed.push(raw));
        proof {
            let k = kept(self.fed@);
            assert(k == kept(old_fed).push(raw));
            assert(k[0].time == epoch);
            assert(captured(self.fed@) =~= captured(old_fed).push(stamped(raw, epoch)));
        }
        if clamped {
            Captured::Clamped
        } else {
            Captured::Appended
        }
    }

    /// The recording made so far.
    pub fn list(&self) -> (r: &EventList)
        ensures
            *r == self.spec_list(),
    {
        &self.list
    }

    /// Ends the recording and hands it over.
    pub fn finish(self) -> (r: EventList)
        requires
            self.wf(),
        ensures
            r == self.spec_list(),
            r.events@ == captured(self.fed()),
    {
        self.list
    }
}

/// The delay from `epoch` to `t`, and whether `t` is earlier than `epoch`.
pub fn delay_micros(t: TimeVal, epoch: TimeVal) -> (r: (u64, bool))
    ensures
        r.0 == relative_time(t, epoch),
        r.1 == (micros(t) < micros(epoch)),
{
    let d: i128 = (t.tv_sec as i128) * 1_000_000 + (t.tv_usec as i128) - ((epoch.tv_sec as i128) * 1_000_000
        + (epoch.tv_usec as i128));
    if d < 0 {
        (0, true)
    } else if d > u64::MAX as i128 {
        (u64::MAX, false)
    } else {
        (d as u64, false)
    }
}

} // verus!
