use input_macro::capture::{delay_micros, Captured, Phase, RawEvent, Recorder, TimeVal, EV_ABS, EV_KEY, EV_REL};
use input_macro::codec::FormatError;
use input_macro::event::{Capabilities, Event, EventList};
use input_macro::playback::{playback_plan, PlayStep};
use input_macro::probe::{probe_capabilities, TypeProbe};

fn caps() -> Capabilities {
    Capabilities { event_types: vec![1, 2], event_codes: vec![(1, 30), (2, 0)] }
}

fn ev(time: u64, event_type: u16, event_code: u16, value: i32) -> Event {
    Event { time, event_type, event_code, value }
}

fn sample_list() -> EventList {
    let mut l = EventList::new(caps());
    l.push(ev(0, 1, 30, 1));
    l.push(ev(1_500_000, 2, 0, -5));
    l
}

fn raw(sec: i64, usec: i64, event_type: u16, event_code: u16, value: i32) -> RawEvent {
    RawEvent { time: TimeVal { tv_sec: sec, tv_usec: usec }, event_type, event_code, value }
}

fn recording() -> Recorder {
    let mut r = Recorder::new(caps());
    while r.countdown_step().is_some() {}
    r
}

const TAG: [u8; 7] = [b'M', b'A', b'C', b'R', b'{', b'O', b'}'];

#[test]
fn new_list_is_empty() {
    let l = EventList::new(caps());
    assert_eq!(l.len(), 0);
    assert_eq!(l.capabilities, caps());
}

#[test]
fn push_appends_in_order() {
    let l = sample_list();
    assert_eq!(l.len(), 2);
    assert_eq!(l.events[0], ev(0, 1, 30, 1));
    assert_eq!(l.events[1], ev(1_500_000, 2, 0, -5));
}

#[test]
fn encode_gives_exact_bytes() {
    let mut l = EventList::new(Capabilities { event_types: vec![1], event_codes: vec![(1, 30)] });
    l.push(ev(2, 1, 30, -1));
    let mut want: Vec<u8> = TAG.to_vec();
    want.extend_from_slice(&[1, 0, 0, 0, 1, 0, 0, 0]);
    want.extend_from_slice(&[1, 0, 0, 0, 1, 0, 0, 0, 30, 0]);
    want.extend_from_slice(&[1, 0, 0, 0]);
    want.extend_from_slice(&[2, 0, 0, 0, 0, 0, 0, 0, 1, 0, 30, 0, 255, 255, 255, 255]);
    assert_eq!(l.encode(), want);
}

#[test]
fn encode_empty_list() {
    let l = EventList::new(Capabilities { event_types: vec![], event_codes: vec![] });
    let mut want: Vec<u8> = TAG.to_vec();
    want.extend_from_slice(&[0; 12]);
    assert_eq!(l.encode(), want);
}

#[test]
fn sections_match_speedy_layout() {
    let l = sample_list();
    let bytes = l.encode();
    let types = speedy::Writable::write_to_vec_with_ctx(&l.capabilities.event_types, speedy::LittleEndian::default()).unwrap();
    let codes = speedy::Writable::write_to_vec_with_ctx(&l.capabilities.event_codes, speedy::LittleEndian::default()).unwrap();
    assert_eq!(&bytes[7..7 + types.len()], &types[..]);
    let p = 7 + types.len();
    assert_eq!(&bytes[p..p + codes.len()], &codes[..]);
}

#[test]
fn decode_of_encode_gives_list_back() {
    let l = sample_list();
    assert_eq!(EventList::decode(&l.encode()), Ok(sample_list()));
}

#[test]
fn encode_of_decode_gives_bytes_back() {
    let bytes = sample_list().encode();
    let l = EventList::decode(&bytes).unwrap();
    assert_eq!(l.encode(), bytes);
}

#[test]
fn decode_rejects_other_tag() {
    let mut bytes = sample_list().encode();
    bytes[0] = b'X';
    assert_eq!(EventList::decode(&bytes), Err(FormatError::BadTag));
    assert_eq!(EventList::decode(&[]), Err(FormatError::BadTag));
    assert_eq!(EventList::decode(b"MACR{"), Err(FormatError::BadTag));
    assert_eq!(EventList::decode(b"not a recording at all"), Err(FormatError::BadTag));
}

#[test]
fn decode_rejects_truncated() {
    let bytes = sample_list().encode();
    for cut in 7..bytes.len() {
        assert_eq!(EventList::decode(&bytes[..cut]), Err(FormatError::Truncated), "cut at {cut}");
    }
}

#[test]
fn decode_rejects_trailing_bytes() {
    let mut bytes = sample_list().encode();
    bytes.push(0);
    assert_eq!(EventList::decode(&bytes), Err(FormatError::TrailingBytes));
}

#[test]
fn decode_rejects_huge_count() {
    let mut bytes: Vec<u8> = TAG.to_vec();
    bytes.extend_from_slice(&[255, 255, 255, 255]);
    assert_eq!(EventList::decode(&bytes), Err(FormatError::Truncated));
}

#[test]
fn countdown_counts_three_two_one() {
    let mut r = Recorder::new(caps());
    assert_eq!(r.phase(), Phase::Countdown { remaining: 3 });
    assert_eq!(r.countdown_step(), Some(3));
    assert_eq!(r.countdown_step(), Some(2));
    assert_eq!(r.countdown_step(), Some(1));
    assert_eq!(r.phase(), Phase::Recording);
    assert_eq!(r.countdown_step(), None);
}

#[test]
fn capture_drops_other_categories() {
    let mut r = recording();
    assert_eq!(r.capture(raw(10, 0, 0, 0, 0)), Captured::Dropped);
    assert_eq!(r.capture(raw(10, 5, 4, 4, 30)), Captured::Dropped);
    assert_eq!(r.capture(raw(10, 6, 17, 0, 1)), Captured::Dropped);
    assert_eq!(r.list().len(), 0);
}

#[test]
fn capture_stamps_relative_times() {
    let mut r = recording();
    assert_eq!(r.capture(raw(0, 0, 0, 0, 0)), Captured::Dropped);
    assert_eq!(r.capture(raw(100, 250_000, EV_KEY, 30, 1)), Captured::Appended);
    assert_eq!(r.capture(raw(100, 260_000, 0, 0, 0)), Captured::Dropped);
    assert_eq!(r.capture(raw(100, 260_000, EV_REL, 0, -3)), Captured::Appended);
    assert_eq!(r.capture(raw(101, 0, EV_ABS, 1, 500)), Captured::Appended);
    let l = r.finish();
    assert_eq!(l.events, vec![ev(0, 1, 30, 1), ev(10_000, 2, 0, -3), ev(750_000, 3, 1, 500)]);
    assert_eq!(l.capabilities, caps());
    assert!(l.is_time_ordered());
}

#[test]
fn capture_clamps_earlier_timestamp() {
    let mut r = recording();
    assert_eq!(r.capture(raw(5, 0, EV_KEY, 30, 1)), Captured::Appended);
    assert_eq!(r.capture(raw(4, 999_999, EV_KEY, 30, 0)), Captured::Clamped);
    let l = r.finish();
    assert_eq!(l.events, vec![ev(0, 1, 30, 1), ev(0, 1, 30, 0)]);
}

#[test]
fn delay_is_exact() {
    let epoch = TimeVal { tv_sec: 1, tv_usec: 900_000 };
    assert_eq!(delay_micros(TimeVal { tv_sec: 3, tv_usec: 100_000 }, epoch), (1_200_000, false));
    assert_eq!(delay_micros(epoch, epoch), (0, false));
    assert_eq!(delay_micros(TimeVal { tv_sec: 1, tv_usec: 0 }, epoch), (0, true));
    assert_eq!(
        delay_micros(TimeVal { tv_sec: i64::MAX, tv_usec: 0 }, TimeVal { tv_sec: i64::MIN, tv_usec: 0 }),
        (u64::MAX, false)
    );
}

#[test]
fn probe_keeps_supported_only() {
    let answers = vec![
        TypeProbe { event_type: 0, supported: true, codes: vec![(0, true), (1, false)] },
        TypeProbe { event_type: 1, supported: true, codes: vec![(30, true), (31, false), (48, true)] },
        TypeProbe { event_type: 2, supported: false, codes: vec![] },
        TypeProbe { event_type: 3, supported: true, codes: vec![] },
    ];
    let c = probe_capabilities(&answers);
    assert_eq!(c.event_types, vec![0, 1, 3]);
    assert_eq!(c.event_codes, vec![(0, 0), (1, 30), (1, 48)]);
}

#[test]
fn probe_of_nothing_is_empty() {
    let c = probe_capabilities(&vec![]);
    assert!(c.event_types.is_empty());
    assert!(c.event_codes.is_empty());
}

#[test]
fn playback_keeps_timing() {
    let mut l = EventList::new(caps());
    l.push(ev(0, 1, 30, 1));
    l.push(ev(10_000, 1, 30, 0));
    l.push(ev(10_000, 2, 0, 4));
    l.push(ev(50_000, 2, 1, -4));
    let steps = playback_plan(&l);
    let w = |t: u16, c: u16, v: i32| PlayStep::Write { event_type: t, event_code: c, value: v };
    assert_eq!(
        steps,
        vec![
            w(1, 30, 1),
            PlayStep::Sync,
            PlayStep::Sleep { micros: 10_000 },
            w(1, 30, 0),
            PlayStep::Sync,
            PlayStep::Sleep { micros: 0 },
            w(2, 0, 4),
            PlayStep::Sync,
            PlayStep::Sleep { micros: 40_000 },
            w(2, 1, -4),
            PlayStep::Sync,
        ]
    );
    let mut elapsed = 0u64;
    let mut write_times = vec![];
    for s in &steps {
        match s {
            PlayStep::Sleep { micros } => elapsed += micros,
            PlayStep::Write { .. } => write_times.push(elapsed),
            PlayStep::Sync => {}
        }
    }
    assert_eq!(write_times, vec![0, 10_000, 10_000, 50_000]);
}

#[test]
fn playback_of_empty_list_does_nothing() {
    let l = EventList::new(caps());
    assert!(playback_plan(&l).is_empty());
}

#[test]
fn playback_of_single_event_has_no_sleep() {
    let mut l = EventList::new(caps());
    l.push(ev(7, 1, 2, 3));
    assert_eq!(playback_plan(&l), vec![PlayStep::Write { event_type: 1, event_code: 2, value: 3 }, PlayStep::Sync]);
}

#[test]
fn time_order_check() {
    assert!(sample_list().is_time_ordered());
    assert!(EventList::new(caps()).is_time_ordered());
    let mut l = EventList::new(caps());
    l.push(ev(5, 1, 30, 1));
    assert!(!l.is_time_ordered());
    let mut l = EventList::new(caps());
    l.push(ev(0, 1, 30, 1));
    l.push(ev(9, 1, 30, 0));
    l.push(ev(8, 1, 30, 1));
    assert!(!l.is_time_ordered());
}

#[test]
fn undeclared_events_are_flagged() {
    let mut l = EventList::new(caps());
    l.push(ev(0, 1, 30, 1));
    l.push(ev(1, 1, 31, 1));
    l.push(ev(2, 2, 0, 1));
    l.push(ev(3, 3, 0, 1));
    assert_eq!(l.undeclared_events(), vec![1, 3]);
    assert!(l.is_declared(1, 30));
    assert!(!l.is_declared(1, 31));
}

#[test]
fn fits_container_for_small_lists() {
    assert!(sample_list().fits_container());
}
