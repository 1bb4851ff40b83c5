//! The dispatch pass seen as a list of deliveries, and what holds of that
//! list.

use crate::cyclic::CyclicProcess;
use crate::cyclic::EtherCatSystemTime;
use crate::cyclic::lemma_notify_lost_flags;
use crate::cyclic::ReceivedView;
use crate::cyclic::spec_deliver;
use crate::cyclic::spec_dispatch;
use crate::cyclic::spec_dispatchable;
use crate::cyclic::spec_flags;
use crate::cyclic::spec_flags_cleared;
use crate::cyclic::spec_indices;
use crate::cyclic::spec_notify_lost;
use crate::cyclic::spec_reply;
use crate::packet::PduModel;
use crate::slave::Slave;
use vstd::prelude::*;

verus! {

/// One call of `recieve_and_process`: the place of the unit, and the
/// position in the run of the PDU that it gets, or `None` for a lost reply.
pub struct Delivery {
    pub place: int,
    pub reply: Option<int>,
}

/// The lost replies told to the units from place `from` up to, not
/// including, place `to`.
pub open spec fn spec_lost_calls(flags: Seq<Option<bool>>, from: int, to: int) -> Seq<Delivery>
    decreases to - from,
{
    if from < 0 || from >= to || from >= flags.len() {
        Seq::empty()
    } else if flags[from] == Some(true) {
        seq![Delivery { place: from, reply: None }] + spec_lost_calls(
            flags.update(from, Some(false)),
            from + 1,
            to,
        )
    } else {
        spec_lost_calls(flags, from + 1, to)
    }
}

/// The delivery of the PDU at position `pos`, which names the place
/// `index`, where that place holds a unit.
pub open spec fn spec_hit(flags: Seq<Option<bool>>, index: int, pos: int) -> Seq<Delivery> {
    if 0 <= index < flags.len() && flags[index] is Some {
        seq![Delivery { place: index, reply: Some(pos) }]
    } else {
        Seq::empty()
    }
}

/// The calls of `recieve_and_process` that the dispatch of a run of PDUs
/// makes, in their order. `indices` are the places that the PDUs from
/// position `pos` on name, and `last` is the place behind that of the PDU
/// before them.
pub open spec fn spec_dispatch_calls(
    flags: Seq<Option<bool>>,
    indices: Seq<int>,
    pos: int,
    last: int,
) -> Seq<Delivery>
    decreases indices.len(),
{
    if indices.len() == 0 {
        spec_lost_calls(flags, last, flags.len() as int)
    } else {
        let index = indices[0];
        let cleared = spec_flags_cleared(flags, last, index);
        spec_lost_calls(flags, last, index) + spec_hit(cleared, index, pos) + spec_dispatch_calls(
            spec_flags_cleared(cleared, index, index + 1),
            indices.skip(1),
            pos + 1,
            index + 1,
        )
    }
}

/// What a delivery hands to the unit.
pub open spec fn spec_call_reply(call: Delivery, pdus: Seq<PduModel>) -> Option<ReceivedView> {
    match call.reply {
        Some(k) => Some(spec_reply(pdus[k])),
        None => None,
    }
}

/// The places and the slaves after the deliveries `calls` were made in
/// their order.
pub open spec fn spec_apply_calls<C: CyclicProcess>(
    slots: Seq<Option<(C::V, bool)>>,
    slaves: Seq<Slave>,
    calls: Seq<Delivery>,
    pdus: Seq<PduModel>,
    sys_time: EtherCatSystemTime,
) -> (Seq<Option<(C::V, bool)>>, Seq<Slave>)
    decreases calls.len(),
{
    if calls.len() == 0 {
        (slots, slaves)
    } else {
        let after = spec_deliver::<C>(
            slots[calls[0].place],
            spec_call_reply(calls[0], pdus),
            slaves,
            sys_time,
        );
        spec_apply_calls::<C>(
            slots.update(calls[0].place, after.0),
            after.1,
            calls.skip(1),
            pdus,
            sys_time,
        )
    }
}

/// Deliveries made one run after another are the deliveries of the joined
/// run.
pub proof fn lemma_apply_concat<C: CyclicProcess>(
    slots: Seq<Option<(C::V, bool)>>,
    slaves: Seq<Slave>,
    a: Seq<Delivery>,
    b: Seq<Delivery>,
    pdus: Seq<PduModel>,
    sys_time: EtherCatSystemTime,
)
    ensures
        spec_apply_calls::<C>(slots, slaves, a + b, pdus, sys_time) == ({
            let first = spec_apply_calls::<C>(slots, slaves, a, pdus, sys_time);
            spec_apply_calls::<C>(first.0, first.1, b, pdus, sys_time)
        }),
    decreases a.len(),
{
    if a.len() == 0 {
        assert(a + b =~= b);
    } else {
        let after = spec_deliver::<C>(
            slots[a[0].place],
            spec_call_reply(a[0], pdus),
            slaves,
            sys_time,
        );
        assert((a + b)[0] == a[0]);
        assert((a + b).skip(1) =~= a.skip(1) + b);
        lemma_apply_concat::<C>(
            slots.update(a[0].place, after.0),
            after.1,
            a.skip(1),
            b,
            pdus,
            sys_time,
        );
    }
}

/// Telling the units of a range that their reply is lost is making the
/// deliveries of `spec_lost_calls`.
pub proof fn lemma_notify_lost_calls<C: CyclicProcess>(
    slots: Seq<Option<(C::V, bool)>>,
    slaves: Seq<Slave>,
    pdus: Seq<PduModel>,
    sys_time: EtherCatSystemTime,
    from: int,
    to: int,
)
    requires
        0 <= from,
    ensures
        spec_notify_lost::<C>(slots, slaves, sys_time, from, to) == spec_apply_calls::<C>(
            slots,
            slaves,
            spec_lost_calls(spec_flags(slots), from, to),
            pdus,
            sys_time,
        ),
    decreases to - from,
{
    let flags = spec_flags(slots);
    if from >= to || from >= slots.len() {
    } else if flags[from] == Some(true) {
        let after = spec_deliver::<C>(slots[from], None, slaves, sys_time);
        let slots1 = slots.update(from, after.0);
        assert(spec_flags(slots1) =~= flags.update(from, Some(false)));
        lemma_notify_lost_calls::<C>(slots1, after.1, pdus, sys_time, from + 1, to);
        let calls = spec_lost_calls(flags, from, to);
        assert(calls[0] == Delivery { place: from, reply: None });
        assert(calls.skip(1) =~= spec_lost_calls(flags.update(from, Some(false)), from + 1, to));
    } else {
        lemma_notify_lost_calls::<C>(slots, slaves, pdus, sys_time, from + 1, to);
    }
}

/// The dispatch of a run of PDUs is the making of the deliveries of
/// `spec_dispatch_calls`, one after the other.
#[verifier::rlimit(50)]
pub proof fn lemma_dispatch_is_calls<C: CyclicProcess>(
    slots: Seq<Option<(C::V, bool)>>,
    slaves: Seq<Slave>,
    pdus: Seq<PduModel>,
    sys_time: EtherCatSystemTime,
    pos: int,
    last: int,
)
    requires
        0 <= last,
        0 <= pos <= pdus.len(),
    ensures
        spec_dispatch::<C>(slots, slaves, pdus.skip(pos), sys_time, last) == spec_apply_calls::<C>(
            slots,
            slaves,
            spec_dispatch_calls(spec_flags(slots), spec_indices(pdus).skip(pos), pos, last),
            pdus,
            sys_time,
        ),
    decreases pdus.len() - pos,
{
    let flags = spec_flags(slots);
    let rest = pdus.skip(pos);
    let indices = spec_indices(pdus).skip(pos);
    if pos == pdus.len() {
        lemma_notify_lost_calls::<C>(slots, slaves, pdus, sys_time, last, slots.len() as int);
    } else {
        let index = rest[0].index as int;
        assert(indices[0] == index);
        assert(rest.skip(1) =~= pdus.skip(pos + 1));
        assert(indices.skip(1) =~= spec_indices(pdus).skip(pos + 1));
        let lost = spec_notify_lost::<C>(slots, slaves, sys_time, last, index);
        let lc = spec_lost_calls(flags, last, index);
        lemma_notify_lost_calls::<C>(slots, slaves, pdus, sys_time, last, index);
        lemma_notify_lost_flags::<C>(slots, slaves, sys_time, last, index);
        let cleared = spec_flags_cleared(flags, last, index);
        let hit = spec_hit(cleared, index, pos);
        let flags2 = spec_flags_cleared(cleared, index, index + 1);
        let tail = spec_dispatch_calls(flags2, indices.skip(1), pos + 1, index + 1);
        if index < lost.0.len() {
            let after = spec_deliver::<C>(
                lost.0[index],
                Some(spec_reply(rest[0])),
                lost.1,
                sys_time,
            );
            let slots2 = lost.0.update(index, after.0);
            assert(spec_flags(slots2) =~= flags2);
            lemma_dispatch_is_calls::<C>(slots2, after.1, pdus, sys_time, pos + 1, index + 1);
            if lost.0[index] is Some {
                assert(spec_flags(lost.0)[index] is Some);
                assert(hit.len() == 1);
                assert(hit[0] == Delivery { place: index, reply: Some(pos) });
                assert(pdus[pos] == rest[0]);
                assert(spec_apply_calls::<C>(slots2, after.1, hit.skip(1), pdus, sys_time) == (
                    slots2,
                    after.1,
                ));
                assert(hit.skip(1) =~= Seq::<Delivery>::empty());
                assert(spec_call_reply(hit[0], pdus) == Some(spec_reply(rest[0])));
                assert(spec_apply_calls::<C>(lost.0, lost.1, hit, pdus, sys_time) == (
                    slots2,
                    after.1,
                ));
            } else {
                assert(spec_flags(lost.0)[index] is None);
                assert(slots2 =~= lost.0);
                assert(hit.len() == 0);
            }
        } else {
            assert(spec_flags(lost.0) =~= flags2);
            assert(hit.len() == 0);
            lemma_dispatch_is_calls::<C>(lost.0, lost.1, pdus, sys_time, pos + 1, index + 1);
        }
        lemma_apply_concat::<C>(slots, slaves, lc, hit, pdus, sys_time);
        lemma_apply_concat::<C>(slots, slaves, lc + hit, tail, pdus, sys_time);
    }
}

/// Every PDU names a place number.
pub open spec fn spec_places_named(indices: Seq<int>) -> bool {
    forall|m: int| 0 <= m < indices.len() ==> 0 <= #[trigger] indices[m]
}

/// No place before `last` holds a unit with a command under way.
pub open spec fn spec_settled_before(flags: Seq<Option<bool>>, last: int) -> bool {
    forall|j: int| 0 <= j < last && j < flags.len() ==> #[trigger] flags[j] != Some(true)
}

/// Every delivery of `calls` goes to a place whose unit had a command under
/// way.
pub open spec fn spec_calls_to_sent(flags: Seq<Option<bool>>, calls: Seq<Delivery>) -> bool {
    forall|c: int|
        0 <= c < calls.len() ==> 0 <= (#[trigger] calls[c]).place < flags.len()
            && flags[calls[c].place] == Some(true)
}

/// No place gets two deliveries.
pub open spec fn spec_calls_distinct(calls: Seq<Delivery>) -> bool {
    forall|a: int, b: int|
        0 <= a < calls.len() && 0 <= b < calls.len() && a != b ==> (#[trigger] calls[a]).place != (
        #[trigger] calls[b]).place
}

/// Whether a delivery goes to `place`.
pub open spec fn spec_called(calls: Seq<Delivery>, place: int) -> bool {
    exists|c: int| 0 <= c < calls.len() && (#[trigger] calls[c]).place == place
}

/// Every place whose unit had a command under way gets a delivery.
pub open spec fn spec_calls_cover(flags: Seq<Option<bool>>, calls: Seq<Delivery>) -> bool {
    forall|j: int|
        0 <= j < flags.len() && #[trigger] flags[j] == Some(true) ==> spec_called(calls, j)
}

/// A delivery carries a PDU exactly where the run holds a PDU that names
/// its place, and then that PDU; `indices` are the places named from
/// position `pos` on.
pub open spec fn spec_calls_match(calls: Seq<Delivery>, indices: Seq<int>, pos: int) -> bool {
    forall|c: int|
        0 <= c < calls.len() ==> match (#[trigger] calls[c]).reply {
            Some(k) => pos <= k < pos + indices.len() && indices[k - pos] == calls[c].place,
            None => forall|m: int|
                0 <= m < indices.len() ==> #[trigger] indices[m] != calls[c].place,
        }
}

/// The lost replies of a range go, in ascending order, to exactly the
/// places of the range whose unit has a command under way.
pub proof fn lemma_lost_calls(flags: Seq<Option<bool>>, from: int, to: int)
    requires
        0 <= from,
    ensures
        forall|c: int|
            0 <= c < spec_lost_calls(flags, from, to).len() ==> {
                let call = #[trigger] spec_lost_calls(flags, from, to)[c];
                &&& from <= call.place < to
                &&& call.place < flags.len()
                &&& flags[call.place] == Some(true)
                &&& call.reply is None
            },
        spec_calls_distinct(spec_lost_calls(flags, from, to)),
        forall|j: int|
            from <= j < to && j < flags.len() && #[trigger] flags[j] == Some(true) ==> spec_called(
                spec_lost_calls(flags, from, to),
                j,
            ),
    decreases to - from,
{
    let calls = spec_lost_calls(flags, from, to);
    if from >= to || from >= flags.len() {
    } else if flags[from] == Some(true) {
        let flags1 = flags.update(from, Some(false));
        let tail = spec_lost_calls(flags1, from + 1, to);
        lemma_lost_calls(flags1, from + 1, to);
        assert(calls =~= seq![Delivery { place: from, reply: None }] + tail);
        assert forall|c: int| 0 <= c < calls.len() implies {
            let call = #[trigger] calls[c];
            &&& from <= call.place < to
            &&& call.place < flags.len()
            &&& flags[call.place] == Some(true)
            &&& call.reply is None
        } by {
            if c > 0 {
                assert(calls[c] == tail[c - 1]);
            }
        }
        assert forall|a: int, b: int|
            0 <= a < calls.len() && 0 <= b < calls.len() && a != b implies (#[trigger] calls[a]).place
            != (#[trigger] calls[b]).place by {
            if a > 0 {
                assert(calls[a] == tail[a - 1]);
            }
            if b > 0 {
                assert(calls[b] == tail[b - 1]);
            }
        }
        assert forall|j: int|
            from <= j < to && j < flags.len() && #[trigger] flags[j] == Some(true) implies spec_called(
            calls,
            j,
        ) by {
            if j == from {
                assert(calls[0].place == from);
            } else {
                assert(flags1[j] == Some(true));
                let c = choose|c: int| 0 <= c < tail.len() && (#[trigger] tail[c]).place == j;
                assert(calls[c + 1] == tail[c]);
            }
        }
    } else {
        lemma_lost_calls(flags, from + 1, to);
        assert forall|j: int|
            from <= j < to && j < flags.len() && #[trigger] flags[j] == Some(true) implies spec_called(
            calls,
            j,
        ) by {
            assert(j != from);
        }
    }
}

/// A unit without a command under way is named by no PDU of a run that can
/// be dispatched.
pub proof fn lemma_unsent_not_named(
    flags: Seq<Option<bool>>,
    indices: Seq<int>,
    last: int,
    place: int,
)
    requires
        spec_dispatchable(flags, indices, last),
        0 <= place < flags.len(),
        flags[place] == Some(false),
    ensures
        forall|m: int| 0 <= m < indices.len() ==> #[trigger] indices[m] != place,
    decreases indices.len(),
{
    if indices.len() > 0 {
        let index = indices[0];
        let cleared = spec_flags_cleared(flags, last, index);
        let flags2 = spec_flags_cleared(cleared, index, index + 1);
        assert(cleared[place] == Some(false));
        assert(flags2[place] == Some(false));
        lemma_unsent_not_named(flags2, indices.skip(1), index + 1, place);
        assert forall|m: int| 0 <= m < indices.len() implies #[trigger] indices[m] != place by {
            if m > 0 {
                assert(indices[m] == indices.skip(1)[m - 1]);
            }
        }
    }
}

/// In a dispatch every unit that had a command under way gets exactly one
/// delivery, and no other unit gets one. The delivery carries a PDU where
/// the run holds one that names the unit's place, and then that PDU; where
/// the run holds none, the unit is told that its reply is lost.
#[verifier::rlimit(50)]
pub proof fn lemma_dispatch_coverage(
    flags: Seq<Option<bool>>,
    indices: Seq<int>,
    pos: int,
    last: int,
)
    requires
        0 <= last,
        spec_places_named(indices),
        spec_settled_before(flags, last),
        spec_dispatchable(flags, indices, last),
    ensures
        spec_calls_to_sent(flags, spec_dispatch_calls(flags, indices, pos, last)),
        spec_calls_distinct(spec_dispatch_calls(flags, indices, pos, last)),
        spec_calls_cover(flags, spec_dispatch_calls(flags, indices, pos, last)),
        spec_calls_match(spec_dispatch_calls(flags, indices, pos, last), indices, pos),
    decreases indices.len(),
{
    let calls = spec_dispatch_calls(flags, indices, pos, last);
    if indices.len() == 0 {
        lemma_lost_calls(flags, last, flags.len() as int);
        assert forall|j: int|
            0 <= j < flags.len() && #[trigger] flags[j] == Some(true) implies spec_called(calls, j) by {
            assert(j >= last);
        }
    } else {
        let index = indices[0];
        let cleared = spec_flags_cleared(flags, last, index);
        let flags2 = spec_flags_cleared(cleared, index, index + 1);
        let lc = spec_lost_calls(flags, last, index);
        let hit = spec_hit(cleared, index, pos);
        let rest = spec_dispatch_calls(flags2, indices.skip(1), pos + 1, index + 1);
        lemma_lost_calls(flags, last, index);
        assert(index >= 0);
        assert(spec_places_named(indices.skip(1))) by {
            assert forall|m: int| 0 <= m < indices.skip(1).len() implies 0 <= #[trigger] indices.skip(
                1,
            )[m] by {
                assert(indices.skip(1)[m] == indices[m + 1]);
            }
        }
        assert(spec_settled_before(flags2, index + 1)) by {
            assert forall|j: int| 0 <= j < index + 1 && j < flags2.len() implies #[trigger] flags2[j]
                != Some(true) by {
                if j < last {
                    assert(flags[j] != Some(true));
                }
            }
        }
        lemma_dispatch_coverage(flags2, indices.skip(1), pos + 1, index + 1);
        assert(calls =~= lc + hit + rest);
        let n1 = lc.len() as int;
        let n2 = n1 + hit.len();
        assert forall|c: int| 0 <= c < calls.len() implies 0 <= (#[trigger] calls[c]).place
            < flags.len() && flags[calls[c].place] == Some(true) by {
            if c < n1 {
                assert(calls[c] == lc[c]);
            } else if c < n2 {
                assert(calls[c] == hit[0]);
            } else {
                assert(calls[c] == rest[c - n2]);
                assert(flags2[rest[c - n2].place] == Some(true));
            }
        }
        assert forall|a: int, b: int|
            0 <= a < calls.len() && 0 <= b < calls.len() && a != b implies (#[trigger] calls[a]).place
            != (#[trigger] calls[b]).place by {
            lemma_section(lc, hit, rest, a);
            lemma_section(lc, hit, rest, b);
            if a >= n2 {
                assert(flags2[rest[a - n2].place] == Some(true));
            }
            if b >= n2 {
                assert(flags2[rest[b - n2].place] == Some(true));
            }
            if a < n1 {
                assert(calls[a] == lc[a]);
            }
            if b < n1 {
                assert(calls[b] == lc[b]);
            }
        }
        assert forall|j: int|
            0 <= j < flags.len() && #[trigger] flags[j] == Some(true) implies spec_called(calls, j) by {
            assert(j >= last);
            if j < index {
                let c = choose|c: int| 0 <= c < lc.len() && (#[trigger] lc[c]).place == j;
                assert(calls[c] == lc[c]);
            } else if j == index {
                assert(cleared[index] == Some(true));
                assert(calls[n1] == hit[0]);
            } else {
                assert(flags2[j] == Some(true));
                let c = choose|c: int| 0 <= c < rest.len() && (#[trigger] rest[c]).place == j;
                assert(calls[c + n2] == rest[c]);
            }
        }
        assert forall|c: int| 0 <= c < calls.len() implies match (#[trigger] calls[c]).reply {
            Some(k) => pos <= k < pos + indices.len() && indices[k - pos] == calls[c].place,
            None => forall|m: int|
                0 <= m < indices.len() ==> #[trigger] indices[m] != calls[c].place,
        } by {
            lemma_section(lc, hit, rest, c);
            if c < n1 {
                let place = lc[c].place;
                assert(flags2[place] == Some(false));
                lemma_unsent_not_named(flags2, indices.skip(1), index + 1, place);
                assert forall|m: int| 0 <= m < indices.len() implies #[trigger] indices[m]
                    != place by {
                    if m > 0 {
                        assert(indices[m] == indices.skip(1)[m - 1]);
                    }
                }
            } else if c < n2 {
            } else {
                let call = rest[c - n2];
                assert(flags2[call.place] == Some(true));
                match call.reply {
                    Some(k) => {
                        assert(indices.skip(1)[k - pos - 1] == indices[k - pos]);
                    },
                    None => {
                        assert forall|m: int| 0 <= m < indices.len() implies #[trigger] indices[m]
                            != call.place by {
                            if m > 0 {
                                assert(indices[m] == indices.skip(1)[m - 1]);
                            }
                        }
                    },
                }
            }
        }
    }
}

/// Where three runs are joined, an element of the whole is an element of
/// one of them.
proof fn lemma_section(a: Seq<Delivery>, b: Seq<Delivery>, c: Seq<Delivery>, i: int)
    requires
        0 <= i < (a + b + c).len(),
    ensures
        i < a.len() ==> (a + b + c)[i] == a[i],
        a.len() <= i < a.len() + b.len() ==> (a + b + c)[i] == b[i - a.len()],
        a.len() + b.len() <= i ==> (a + b + c)[i] == c[i - a.len() - b.len()],
{
}

/// A unit is told of a lost reply only after every unit at a lower place
/// whose PDU came has got it: a delivery of a PDU never follows the telling
/// of a loss to a unit at a higher place.
#[verifier::rlimit(50)]
pub proof fn lemma_calls_ordered(flags: Seq<Option<bool>>, indices: Seq<int>, pos: int, last: int)
    requires
        0 <= last,
        spec_places_named(indices),
        spec_settled_before(flags, last),
        spec_dispatchable(flags, indices, last),
    ensures
        forall|a: int, b: int|
            0 <= a < b < spec_dispatch_calls(flags, indices, pos, last).len() && (
            #[trigger] spec_dispatch_calls(flags, indices, pos, last)[a]).reply is None && (
            #[trigger] spec_dispatch_calls(flags, indices, pos, last)[b]).reply is Some
                ==> spec_dispatch_calls(flags, indices, pos, last)[a].place < spec_dispatch_calls(
                flags,
                indices,
                pos,
                last,
            )[b].place,
    decreases indices.len(),
{
    let calls = spec_dispatch_calls(flags, indices, pos, last);
    if indices.len() == 0 {
        lemma_lost_calls(flags, last, flags.len() as int);
    } else {
        let index = indices[0];
        let cleared = spec_flags_cleared(flags, last, index);
        let flags2 = spec_flags_cleared(cleared, index, index + 1);
        let lc = spec_lost_calls(flags, last, index);
        let hit = spec_hit(cleared, index, pos);
        let rest = spec_dispatch_calls(flags2, indices.skip(1), pos + 1, index + 1);
        lemma_lost_calls(flags, last, index);
        assert(index >= 0);
        assert(spec_places_named(indices.skip(1))) by {
            assert forall|m: int| 0 <= m < indices.skip(1).len() implies 0 <= #[trigger] indices.skip(
                1,
            )[m] by {
                assert(indices.skip(1)[m] == indices[m + 1]);
            }
        }
        assert(spec_settled_before(flags2, index + 1)) by {
            assert forall|j: int| 0 <= j < index + 1 && j < flags2.len() implies #[trigger] flags2[j]
                != Some(true) by {
                if j < last {
                    assert(flags[j] != Some(true));
                }
            }
        }
        lemma_calls_ordered(flags2, indices.skip(1), pos + 1, index + 1);
        lemma_dispatch_coverage(flags2, indices.skip(1), pos + 1, index + 1);
        assert(calls =~= lc + hit + rest);
        let n1 = lc.len() as int;
        let n2 = n1 + hit.len();
        assert forall|a: int, b: int|
            0 <= a < b < calls.len() && (#[trigger] calls[a]).reply is None && (
            #[trigger] calls[b]).reply is Some implies calls[a].place < calls[b].place by {
            lemma_section(lc, hit, rest, a);
            lemma_section(lc, hit, rest, b);
            if b >= n2 {
                let p = rest[b - n2].place;
                assert(flags2[p] == Some(true));
                assert(p >= index + 1);
            }
            if a < n1 {
                assert(calls[a] == lc[a]);
            }
            if b < n1 {
                assert(calls[b] == lc[b]);
            }
        }
    }
}

/// After a dispatch no unit has a command under way, and every place is
/// free or taken as it was.
#[verifier::rlimit(50)]
pub proof fn lemma_dispatch_clears_marks<C: CyclicProcess>(
    slots: Seq<Option<(C::V, bool)>>,
    slaves: Seq<Slave>,
    pdus: Seq<PduModel>,
    sys_time: EtherCatSystemTime,
    last: int,
)
    requires
        0 <= last,
        spec_settled_before(spec_flags(slots), last),
    ensures
        spec_dispatch::<C>(slots, slaves, pdus, sys_time, last).0.len() == slots.len(),
        forall|j: int|
            0 <= j < slots.len() ==> (#[trigger] spec_flags(
                spec_dispatch::<C>(slots, slaves, pdus, sys_time, last).0,
            )[j]) == (if slots[j] is Some {
                Some(false)
            } else {
                None::<bool>
            }),
    decreases pdus.len(),
{
    let flags = spec_flags(slots);
    let out = spec_dispatch::<C>(slots, slaves, pdus, sys_time, last).0;
    if pdus.len() == 0 {
        lemma_notify_lost_flags::<C>(slots, slaves, sys_time, last, slots.len() as int);
        assert forall|j: int| 0 <= j < slots.len() implies (#[trigger] spec_flags(out)[j]) == (if slots[j] is Some {
            Some(false)
        } else {
            None::<bool>
        }) by {
            if j < last {
                assert(flags[j] != Some(true));
            }
        }
    } else {
        let index = pdus[0].index as int;
        let lost = spec_notify_lost::<C>(slots, slaves, sys_time, last, index);
        lemma_notify_lost_flags::<C>(slots, slaves, sys_time, last, index);
        let cleared = spec_flags_cleared(flags, last, index);
        let flags2 = spec_flags_cleared(cleared, index, index + 1);
        let slots2 = if index < lost.0.len() {
            lost.0.update(
                index,
                spec_deliver::<C>(lost.0[index], Some(spec_reply(pdus[0])), lost.1, sys_time).0,
            )
        } else {
            lost.0
        };
        let slaves2 = if index < lost.0.len() {
            spec_deliver::<C>(lost.0[index], Some(spec_reply(pdus[0])), lost.1, sys_time).1
        } else {
            lost.1
        };
        assert(spec_flags(slots2) =~= flags2);
        assert(spec_settled_before(flags2, index + 1)) by {
            assert forall|j: int| 0 <= j < index + 1 && j < flags2.len() implies #[trigger] flags2[j]
                != Some(true) by {
                if j < last {
                    assert(flags[j] != Some(true));
                }
            }
        }
        lemma_dispatch_clears_marks::<C>(slots2, slaves2, pdus.skip(1), sys_time, index + 1);
        assert forall|j: int| 0 <= j < slots.len() implies (#[trigger] spec_flags(out)[j]) == (if slots[j] is Some {
            Some(false)
        } else {
            None::<bool>
        }) by {
            assert(flags2[j] is Some <==> flags[j] is Some);
            assert(spec_flags(slots2)[j] is Some <==> slots2[j] is Some);
            assert(flags[j] is Some <==> slots[j] is Some);
        }
    }
}

} // verus!
