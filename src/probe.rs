//! The capability manifest, built from a device's answers to support queries.
use vstd::prelude::*;

use crate::event::Capabilities;

verus! {

/// A device's answers for one known category: whether it supports the
/// category, and, for each known code of the category, whether it supports
/// that code.
pub struct TypeProbe {
    pub event_type: i32,
    pub supported: bool,
    pub codes: Vec<(u16, bool)>,
}

/// The supported codes of `codes`, paired with the category `t`, in order.
pub open spec fn supported_codes(t: i32, codes: Seq<(u16, bool)>) -> Seq<(i32, u16)>
    decreases codes.len(),
{
    if codes.len() == 0 {
        Seq::empty()
    } else if codes.last().1 {
        supported_codes(t, codes.drop_last()).push((t, codes.last().0))
    } else {
        supported_codes(t, codes.drop_last())
    }
}

/// The supported categories among the answers, in order.
pub open spec fn probed_types(a: Seq<TypeProbe>) -> Seq<i32>
    decreases a.len(),
{
    if a.len() == 0 {
        Seq::empty()
    } else if a.last().supported {
        probed_types(a.drop_last()).push(a.last().event_type)
    } else {
        probed_types(a.drop_last())
    }
}

/// The supported (category, code) pairs of the supported categories, in order.
pub open spec fn probed_codes(a: Seq<TypeProbe>) -> Seq<(i32, u16)>
    decreases a.len(),
{
    if a.len() == 0 {
        Seq::empty()
    } else if a.last().supported {
        probed_codes(a.drop_last()) + supported_codes(a.last().event_type, a.last().codes@)
    } else {
        probed_codes(a.drop_last())
    }
}

fn push_supported_codes(out: &mut Vec<(i32, u16)>, t: i32, codes: &Vec<(u16, bool)>)
    ensures
        final(out)@ == old(out)@ + supported_codes(t, codes@),
{
    let ghost start = out@;
    let n = codes.len();
    let mut i: usize = 0;
    while i < n
        invariant
            n == codes@.len(),
            i <= n,
            out@ == start + supported_codes(t, codes@.take(i as int)),
        decreases n - i,
    {
        let (code, ok) = codes[i];
        proof {
            assert(codes@.take(i + 1).drop_last() =~= codes@.take(i as int));
        }
        if ok {
            out.push((t, code));
            assert(out@ =~= start + supported_codes(t, codes@.take(i + 1)));
        }
        i = i + 1;
    }
    assert(codes@.take(n as int) =~= codes@);
}

/// The capability manifest that a device's answers describe: its supported
/// categories, and the supported codes of those categories.
pub fn probe_capabilities(answers: &Vec<TypeProbe>) -> (r: Capabilities)
    ensures
        r.event_types@ == probed_types(answers@),
        r.event_codes@ == probed_codes(answers@),
{
    let mut event_types: Vec<i32> = Vec::new();
    let mut event_codes: Vec<(i32, u16)> = Vec::new();
    let n = answers.len();
    let mut i: usize = 0;
    while i < n
        invariant
            n == answers@.len(),
            i <= n,
            event_types@ == probed_types(answers@.take(i as int)),
            event_codes@ == probed_codes(answers@.take(i as int)),
        decreases n - i,
    {
        let a = &answers[i];
        proof {
            assert(answers@.take(i + 1).drop_last() =~= answers@.take(i as int));
            assert(answers@.take(i + 1).last() == answers@[i as int]);
        }
        if a.supported {
            event_types.push(a.event_type);
            push_supported_codes(&mut event_codes, a.event_type, &a.codes);
        }
        i = i + 1;
    }
    assert(answers@.take(n as int) =~= answers@);
    Capabilities { event_types, event_codes }
}

} // verus!
