use vstd::prelude::*;

verus! {

/// One input occurrence.
///
/// `time` is the delay since the first captured event, in microseconds.
#[derive(Clone, Copy, Debug, PartialEq, Eq, Structural)]
pub struct Event {
    pub time: u64,
    pub event_type: u16,
    pub event_code: u16,
    pub value: i32,
}

/// What a device declares it can produce: its event categories, and the
/// (category, code) pairs it supports.
#[derive(Debug, PartialEq, Eq)]
pub struct Capabilities {
    pub event_types: Vec<i32>,
    pub event_codes: Vec<(i32, u16)>,
}

/// A recording: the source device's capabilities and the ordered events.
#[derive(Debug, PartialEq, Eq)]
pub struct EventList {
    pub capabilities: Capabilities,
    pub events: Vec<Event>,
}

/// The mathematical content of an [`EventList`].
pub ghost struct ListModel {
    pub event_types: Seq<i32>,
    pub event_codes: Seq<(i32, u16)>,
    pub events: Seq<Event>,
}

impl View for EventList {
    type V = ListModel;

    open spec fn view(&self) -> ListModel {
        ListModel {
            event_types: self.capabilities.event_types@,
            event_codes: self.capabilities.event_codes@,
            events: self.events@,
        }
    }
}

/// Events ordered by non-decreasing time, the first one at time zero.
pub open spec fn time_ordered(events: Seq<Event>) -> bool {
    &&& forall|i: int| 0 <= i < events.len() - 1 ==> #[trigger] events[i].time <= events[i + 1].time
    &&& events.len() > 0 ==> events[0].time == 0
}

/// The (category, code) pair under which a device would declare an event.
pub open spec fn capability_of(e: Event) -> (i32, u16) {
    (e.event_type as i32, e.event_code)
}

impl EventList {
    /// An empty recording for a device with capabilities `c`.
    pub fn new(c: Capabilities) -> (r: EventList)
        ensures
            r.capabilities == c,
            r.events@.len() == 0,
    {
        EventList { capabilities: c, events: Vec::new() }
    }

    /// Appends `event` at the end.
    pub fn push(&mut self, event: Event)
        ensures
            final(self).capabilities == old(self).capabilities,
            final(self).events@ == old(self).events@.push(event),
    {
        self.events.push(event);
    }

    /// The number of events.
    pub fn len(&self) -> (r: usize)
        ensures
            r == self.events@.len(),
    {
        self.events.len()
    }

    /// Whether the events are in time order with the first at time zero.
    pub fn is_time_ordered(&self) -> (r: bool)
        ensures
            r == time_ordered(self.events@),
    {
        let n = self.events.len();
        if n == 0 {
            return true;
        }
        if self.events[0].time != 0 {
            return false;
        }
        let mut i: usize = 0;
        while i < n - 1
            invariant
                n == self.events@.len(),
                n > 0,
                i <= n - 1,
                forall|k: int| 0 <= k < i && k < n - 1 ==> #[trigger] self.events@[k].time <= self.events@[k + 1].time,
            decreases n - i,
        {
            if self.events[i].time > self.events[i + 1].time {
                return false;
            }
            i = i + 1;
        }
        true
    }

    /// The positions of the events whose (category, code) pair is not among
    /// the declared capabilities, in increasing order.
    ///
    /// The manifest is advisory: a recording may hold such events, and this
    /// lists them for follow-up.
    pub fn undeclared_events(&self) -> (r: Vec<usize>)
        ensures
            forall|k: int| 0 <= k < r@.len() ==> #[trigger] r@[k] < self.events@.len()
                && !self.capabilities.event_codes@.contains(capability_of(self.events@[r@[k] as int])),
            forall|k: int, m: int| 0 <= k < m < r@.len() ==> r@[k] < r@[m],
            forall|i: int| 0 <= i < self.events@.len()
                && !self.capabilities.event_codes@.contains(#[trigger] capability_of(self.events@[i]))
                ==> r@.contains(i as usize),
    {
        let mut r: Vec<usize> = Vec::new();
        let n = self.events.len();
        let mut i: usize = 0;
        while i < n
            invariant
                n == self.events@.len(),
                i <= n,
                forall|k: int| 0 <= k < r@.len() ==> #[trigger] r@[k] < i
                    && !self.capabilities.event_codes@.contains(capability_of(self.events@[r@[k] as int])),
                forall|k: int, m: int| 0 <= k < m < r@.len() ==> r@[k] < r@[m],
                forall|j: int| 0 <= j < i
                    && !self.capabilities.event_codes@.contains(#[trigger] capability_of(self.events@[j]))
                    ==> r@.contains(j as usize),
            decreases n - i,
        {
            let e = self.events[i];
            let ghost r0 = r@;
            if !self.is_declared(e.event_type as i32, e.event_code) {
                r.push(i);
            }
            assert forall|j: int| 0 <= j < i + 1
                && !self.capabilities.event_codes@.contains(#[trigger] capability_of(self.events@[j]))
                implies r@.contains(j as usize) by {
                if j < i {
                    let k = choose|k: int| 0 <= k < r0.len() && r0[k] == j as usize;
                    assert(r@[k] == j as usize);
                } else {
                    assert(r@[r@.len() - 1] == i);
                }
            }
            i = i + 1;
        }
        r
    }

    /// Whether `(event_type, event_code)` is among the declared pairs.
    pub fn is_declared(&self, event_type: i32, event_code: u16) -> (r: bool)
        ensures
            r == self.capabilities.event_codes@.contains((event_type, event_code)),
    {
        let n = self.capabilities.event_codes.len();
        let mut i: usize = 0;
        while i < n
            invariant
                n == self.capabilities.event_codes@.len(),
                i <= n,
                forall|k: int| 0 <= k < i ==> #[trigger] self.capabilities.event_codes@[k] != (event_type, event_code),
            decreases n - i,
        {
            let pair = self.capabilities.event_codes[i];
            if pair.0 == event_type && pair.1 == event_code {
                assert(self.capabilities.event_codes@[i as int] == (event_type, event_code));
                return true;
            }
            i = i + 1;
        }
        false
    }
}

} // verus!
