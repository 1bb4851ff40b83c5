//! The cyclic engine: a bounded pool of units over one interface. In each
//! cycle the units' commands are put into the interface, and the PDUs that
//! came back are handed to the units by the place that they name.

pub mod al_state_transfer;
pub mod dispatch;
pub mod pool;
pub mod mailbox_reader;
pub mod mailbox_writer;
pub mod sdo_downloader;

use crate::error::CommonError;
use crate::interface::Command;
use crate::interface::EtherCATInterface;
use crate::interface::InterfaceView;
use crate::network::NetworkDescription;
use crate::packet::PduModel;
use crate::slave::Slave;
use vstd::prelude::*;

verus! {

/// EtherCAT system time: nanoseconds since the first of January 2000.
#[derive(Debug, Clone, Copy, PartialEq, Eq, Structural)]
pub struct EtherCatSystemTime(pub u64);

/// A reply as a unit gets it. It lives until the next poll.
#[derive(Debug, Clone, Copy)]
pub struct ReceivedData<'a> {
    pub command: Command,
    pub data: &'a [u8],
    pub wkc: u16,
}

/// What a reply holds.
#[verifier::ext_equal]
pub struct ReceivedView {
    pub command: Command,
    pub data: Seq<u8>,
    pub wkc: u16,
}

impl View for ReceivedData<'_> {
    type V = ReceivedView;

    open spec fn view(&self) -> ReceivedView {
        ReceivedView { command: self.command, data: self.data@, wkc: self.wkc }
    }
}

/// What an optional reply holds.
pub open spec fn spec_received(recv_data: Option<ReceivedData>) -> Option<ReceivedView> {
    match recv_data {
        Some(r) => Some(r@),
        None => None,
    }
}

/// What an emitted command holds.
pub open spec fn spec_emitted(r: Option<(Command, &[u8])>) -> Option<(Command, Seq<u8>)> {
    match r {
        Some((command, data)) => Some((command, data@)),
        None => None,
    }
}

/// A protocol state machine that the cyclic engine drives.
///
/// A unit is a deterministic machine over its view and the table of slaves:
/// `spec_next_command` and `spec_recieve_and_process` say what each call
/// makes of them, and the two methods are bound to do just that. The bodies
/// given here stand for a unit of which nothing is known. The engine calls
/// `next_command` again, without a reply in between, when the command found
/// no room in the buffer; a unit is expected to give the same command then.
pub trait CyclicProcess {
    /// What contracts say of a unit.
    type V;

    /// The unit as contracts see it.
    open spec fn view(&self) -> Self::V {
        arbitrary()
    }

    /// What the unit needs to hold of itself to work.
    open spec fn wf(&self) -> bool {
        true
    }

    /// The unit and the slaves after a call of `next_command`, and what the
    /// call emits.
    open spec fn spec_next_command(
        unit: Self::V,
        slaves: Seq<Slave>,
        sys_time: EtherCatSystemTime,
    ) -> (Self::V, Seq<Slave>, Option<(Command, Seq<u8>)>) {
        arbitrary()
    }

    /// The unit and the slaves after a call of `recieve_and_process`.
    open spec fn spec_recieve_and_process(
        unit: Self::V,
        recv_data: Option<ReceivedView>,
        slaves: Seq<Slave>,
        sys_time: EtherCatSystemTime,
    ) -> (Self::V, Seq<Slave>) {
        arbitrary()
    }

    /// The command to send next with its payload, or `None` where the unit
    /// has nothing to send in this cycle.
    fn next_command(
        &mut self,
        desc: &mut NetworkDescription,
        sys_time: EtherCatSystemTime,
    ) -> (r: Option<(Command, &[u8])>)
        requires
            old(self).wf(),
        ensures
            final(self).wf(),
            (final(self)@, final(desc)@, spec_emitted(r)) == Self::spec_next_command(
                old(self)@,
                old(desc)@,
                sys_time,
            ),
    ;

    /// Takes the reply to the command emitted last, or `None` where the
    /// reply was lost.
    fn recieve_and_process(
        &mut self,
        recv_data: Option<ReceivedData>,
        desc: &mut NetworkDescription,
        sys_time: EtherCatSystemTime,
    )
        requires
            old(self).wf(),
        ensures
            final(self).wf(),
            (final(self)@, final(desc)@) == Self::spec_recieve_and_process(
                old(self)@,
                spec_received(recv_data),
                old(desc)@,
                sys_time,
            ),
    ;
}

/// A unit's place in the engine.
#[derive(Debug, Clone, Copy, PartialEq, Eq, Structural)]
pub struct UnitHandle(pub u8);

impl UnitHandle {
    pub open spec fn spec_index(&self) -> int {
        self.0 as int
    }

    pub fn index(&self) -> (r: usize)
        ensures
            r == self.spec_index(),
    {
        self.0 as usize
    }
}

/// Units that an engine holds at most.
pub const MAX_UNITS: usize = 10;

/// One place of the engine: free, with the next free place behind it, or
/// taken by a unit, with the mark of a command that awaits its reply.
#[derive(Debug)]
pub enum Unit<C: CyclicProcess> {
    NextFreeUnit(UnitHandle),
    Unit((C, bool)),
}

impl<C: CyclicProcess> From<C> for Unit<C> {
    /// A place taken by `unit`, with no command under way.
    fn from(unit: C) -> (r: Self) {
        Unit::Unit((unit, false))
    }
}

impl<C: CyclicProcess> vstd::std_specs::convert::FromSpecImpl<C> for Unit<C> {
    open spec fn obeys_from_spec() -> bool {
        true
    }

    open spec fn from_spec(unit: C) -> Self {
        Unit::Unit((unit, false))
    }
}

impl<C: CyclicProcess> Unit<C> {
    /// The unit of a taken place.
    pub fn take(self) -> (r: C)
        requires
            self is Unit,
        ensures
            self matches Unit::Unit((c, _)) && r == c,
    {
        match self {
            Unit::Unit((c, _)) => c,
            Unit::NextFreeUnit(_) => {
                proof {
                    assert(false);
                }
                vstd::pervasive::unreached()
            },
        }
    }

    /// The unit of a taken place, for changing it in place.
    pub fn unit_mut(&mut self) -> (r: Option<&mut C>)
        ensures
            r is Some <==> *old(self) is Unit,
            r is None ==> *final(self) == *old(self),
            r matches Some(c) ==> (*old(self) matches Unit::Unit((before, sent)) && *c == before
                && *final(self) == Unit::Unit((*final(c), sent))),
    {
        match self {
            Unit::Unit((unit, _sent)) => Some(unit),
            Unit::NextFreeUnit(_) => None,
        }
    }

    /// What the place holds: the unit's view and its mark, or nothing.
    pub open spec fn spec_slot(self) -> Option<(C::V, bool)> {
        match self {
            Unit::Unit((c, sent)) => Some((c@, sent)),
            Unit::NextFreeUnit(_) => None,
        }
    }
}

impl<C: CyclicProcess> Default for Unit<C> {
    fn default() -> (r: Self)
        ensures
            r == Unit::<C>::NextFreeUnit(UnitHandle(0)),
    {
        Unit::NextFreeUnit(UnitHandle(0))
    }
}

/// Number of places among `slots` that hold a unit.
pub open spec fn spec_count_occupied<V>(slots: Seq<Option<(V, bool)>>) -> nat
    decreases slots.len(),
{
    if slots.len() == 0 {
        0
    } else {
        spec_count_occupied(slots.drop_last()) + if slots.last() is Some {
            1nat
        } else {
            0nat
        }
    }
}

/// What an engine holds.
#[verifier::ext_equal]
pub struct CyclicUnitsView<V> {
    pub iface: InterfaceView,
    /// For each place the unit in it with its mark, or `None` for a free one.
    pub slots: Seq<Option<(V, bool)>>,
    /// The free places, in the order in which they will be given out.
    pub free: Seq<int>,
}

impl<V> CyclicUnitsView<V> {
    /// Number of places that hold a unit.
    pub open spec fn spec_occupied(self) -> nat {
        spec_count_occupied(self.slots)
    }

    /// The place that the next unit gets, if there is one: the first of the
    /// free list, or a new place behind the others while there are fewer
    /// than the engine can hold.
    pub open spec fn spec_next_place(self) -> Option<int> {
        if self.free.len() > 0 {
            Some(self.free[0])
        } else if self.slots.len() < MAX_UNITS {
            Some(self.slots.len() as int)
        } else {
            None
        }
    }

    /// The engine after `unit` was added.
    pub open spec fn spec_add_unit(self, unit: V) -> CyclicUnitsView<V> {
        if self.free.len() > 0 {
            CyclicUnitsView {
                slots: self.slots.update(self.free[0], Some((unit, false))),
                free: self.free.skip(1),
                ..self
            }
        } else if self.slots.len() < MAX_UNITS {
            CyclicUnitsView { slots: self.slots.push(Some((unit, false))), ..self }
        } else {
            self
        }
    }

    /// The unit at `place`, where it holds one.
    pub open spec fn spec_unit(self, place: int) -> V
        recommends
            self.spec_is_occupied(place),
    {
        self.slots[place].unwrap().0
    }

    /// Whether the unit at `place` has a command under way, where the place
    /// holds a unit.
    pub open spec fn spec_sent(self, place: int) -> bool
        recommends
            self.spec_is_occupied(place),
    {
        self.slots[place].unwrap().1
    }

    /// Whether `place` holds a unit.
    pub open spec fn spec_is_occupied(self, place: int) -> bool {
        0 <= place < self.slots.len() && self.slots[place] is Some
    }

    /// The engine after the unit at `place` was removed.
    pub open spec fn spec_remove_unit(self, place: int) -> CyclicUnitsView<V> {
        if self.spec_is_occupied(place) {
            CyclicUnitsView {
                slots: self.slots.update(place, None),
                free: seq![place] + self.free,
                ..self
            }
        } else {
            self
        }
    }

    /// The free list holds every free place once and nothing else.
    pub open spec fn spec_free_list_exact(self) -> bool {
        spec_free_exact(self.slots, self.free)
    }
}

/// The list `free` holds every free place of `slots` once and nothing else.
pub open spec fn spec_free_exact<V>(slots: Seq<Option<(V, bool)>>, free: Seq<int>) -> bool {
    &&& free.no_duplicates()
    &&& forall|i: int| 0 <= i < slots.len() && (#[trigger] slots[i]) is None ==> free.contains(i)
    &&& forall|k: int|
        0 <= k < free.len() ==> 0 <= (#[trigger] free[k]) < slots.len() && slots[free[k]] is None
}

/// A bounded pool of units over one interface.
pub struct CyclicUnits<'a, C: CyclicProcess> {
    iface: EtherCATInterface<'a>,
    units: Vec<Unit<C>>,
    free_unit: UnitHandle,
    free_list: Ghost<Seq<int>>,
}

impl<'a, C: CyclicProcess> View for CyclicUnits<'a, C> {
    type V = CyclicUnitsView<C::V>;

    closed spec fn view(&self) -> CyclicUnitsView<C::V> {
        CyclicUnitsView {
            iface: self.iface@,
            slots: spec_slots(self.units@),
            free: self.free_list@,
        }
    }
}

/// The free places are chained through the places themselves: the head
/// names the first, each free place names the next, and the last names the
/// place behind all places.
pub open spec fn spec_chained<C: CyclicProcess>(
    units: Seq<Unit<C>>,
    head: UnitHandle,
    free: Seq<int>,
) -> bool {
    let len = units.len() as int;
    &&& head.0 as int == if free.len() > 0 {
        free[0]
    } else {
        len
    }
    &&& forall|k: int|
        0 <= k < free.len() ==> 0 <= (#[trigger] free[k]) < len && units[free[k]]
            == Unit::<C>::NextFreeUnit(
            UnitHandle(
                (if k + 1 < free.len() {
                    free[k + 1]
                } else {
                    len
                }) as u8,
            ),
        )
}

/// What holds of the places of every engine: there are no more than the
/// engine can hold, the free ones are chained, the free list holds each of
/// them once and nothing else, and every unit is well-formed.
pub open spec fn spec_pool_wf<C: CyclicProcess>(
    units: Seq<Unit<C>>,
    head: UnitHandle,
    free: Seq<int>,
) -> bool {
    &&& units.len() <= MAX_UNITS
    &&& spec_chained(units, head, free)
    &&& spec_free_exact(spec_slots(units), free)
    &&& forall|i: int|
        0 <= i < units.len() ==> ((#[trigger] units[i]) matches Unit::Unit((c, _)) ==> c.wf())
}

/// A change of the unit in a taken place, or of its mark, keeps the places
/// well-formed, and shows in the view at that place alone.
pub proof fn lemma_pool_update<C: CyclicProcess>(
    units: Seq<Unit<C>>,
    head: UnitHandle,
    free: Seq<int>,
    i: int,
    unit: C,
    sent: bool,
)
    requires
        spec_pool_wf(units, head, free),
        0 <= i < units.len(),
        units[i] is Unit,
        unit.wf(),
    ensures
        spec_pool_wf(units.update(i, Unit::Unit((unit, sent))), head, free),
        spec_slots(units.update(i, Unit::Unit((unit, sent)))) == spec_slots(units).update(
            i,
            Some((unit@, sent)),
        ),
{
    let after = units.update(i, Unit::Unit((unit, sent)));
    assert(spec_slots(after) =~= spec_slots(units).update(i, Some((unit@, sent))));
    assert(spec_slots(units)[i] is Some);
    assert forall|k: int| 0 <= k < free.len() implies (#[trigger] free[k]) != i by {
        assert(spec_slots(units)[free[k]] is None);
    }
    assert forall|s: int| 0 <= s < after.len() && (#[trigger] spec_slots(after)[s]) is None implies free.contains(
        s,
    ) by {
        assert(spec_slots(units)[s] is None);
    }
    assert forall|k: int| 0 <= k < free.len() implies spec_slots(after)[#[trigger] free[k]] is None by {
        assert(spec_slots(units)[free[k]] is None);
    }
}

/// What the places of an engine hold.
pub open spec fn spec_slots<C: CyclicProcess>(units: Seq<Unit<C>>) -> Seq<Option<(C::V, bool)>> {
    Seq::new(units.len(), |i: int| units[i].spec_slot())
}

impl<'a, C: CyclicProcess> CyclicUnits<'a, C> {
    /// What holds of every engine between two calls.
    pub closed spec fn wf(&self) -> bool {
        self.iface.wf() && spec_pool_wf(self.units@, self.free_unit, self.free_list@)
    }

    /// What `wf` says of the view: the engine holds no more places than it
    /// can, and the free list holds every free place once and nothing else.
    pub proof fn lemma_wf(&self)
        requires
            self.wf(),
        ensures
            self@.slots.len() <= MAX_UNITS,
            self@.spec_free_list_exact(),
    {
    }

    /// An engine without units over `iface`.
    pub fn new(iface: EtherCATInterface<'a>) -> (r: Self)
        requires
            iface.wf(),
        ensures
            r.wf(),
            r@ == (CyclicUnitsView::<C::V> {
                iface: iface@,
                slots: Seq::empty(),
                free: Seq::empty(),
            }),
    {
        let r = Self { iface, units: Vec::new(), free_unit: UnitHandle(0), free_list: Ghost(Seq::empty()) };
        assert(spec_slots(r.units@) =~= Seq::<Option<(C::V, bool)>>::empty());
        r
    }

    /// The interface of the engine.
    pub fn iface(&self) -> (r: &EtherCATInterface<'a>)
        requires
            self.wf(),
        ensures
            r.wf(),
            r@ == self@.iface,
    {
        &self.iface
    }

    /// The interface of the engine, for sending what it holds and for
    /// taking what comes back.
    pub fn iface_mut(&mut self) -> (r: &mut EtherCATInterface<'a>)
        requires
            old(self).wf(),
        ensures
            r.wf(),
            r@ == old(self)@.iface,
            final(r).wf() ==> final(self).wf(),
            final(self)@ == (CyclicUnitsView { iface: final(r)@, ..old(self)@ }),
    {
        &mut self.iface
    }

    /// Number of places, free ones included.
    pub fn len(&self) -> (r: usize)
        ensures
            r == self@.slots.len(),
    {
        self.units.len()
    }

    /// Puts `unit` into the first place of the free list, or into a new
    /// place behind the others, and gives its handle. Where the engine is
    /// full, the unit comes back and nothing changes.
    #[verifier::rlimit(50)]
    pub fn add_unit(&mut self, unit: C) -> (r: Result<UnitHandle, C>)
        requires
            old(self).wf(),
            unit.wf(),
        ensures
            final(self).wf(),
            final(self)@ == old(self)@.spec_add_unit(unit@),
            match old(self)@.spec_next_place() {
                Some(place) => r == Ok::<UnitHandle, C>(UnitHandle(place as u8)) && 0 <= place
                    < MAX_UNITS,
                None => r == Err::<UnitHandle, C>(unit),
            },
    {
        let index = self.free_unit;
        let ghost free = self.free_list@;
        let ghost units = self.units@;
        if index.index() < self.units.len() {
            proof {
                if free.len() == 0 {
                    assert(false);
                }
                assert(free[0] == index.0);
                assert(units[free[0]] is NextFreeUnit);
            }
            let next = match &self.units[index.index()] {
                Unit::NextFreeUnit(next) => *next,
                Unit::Unit(_) => index,
            };
            self.units[index.index()] = Unit::Unit((unit, false));
            self.free_unit = next;
            self.free_list = Ghost(free.skip(1));
            proof {
                let place = free[0];
                assert(spec_slots(self.units@) =~= spec_slots(units).update(
                    place,
                    Some((unit@, false)),
                ));
                assert forall|k: int| 0 <= k < free.skip(1).len() implies free.skip(1)[k] != place by {
                    assert(free.skip(1)[k] == free[k + 1]);
                }
                assert forall|k: int| 0 <= k < free.skip(1).len() implies 0 <= (
                #[trigger] free.skip(1)[k]) < self.units@.len() && self.units@[free.skip(1)[k]]
                    == Unit::<C>::NextFreeUnit(
                    UnitHandle(
                        (if k + 1 < free.skip(1).len() {
                            free.skip(1)[k + 1]
                        } else {
                            self.units@.len() as int
                        }) as u8,
                    ),
                ) by {
                    assert(free.skip(1)[k] == free[k + 1]);
                    assert(units[free[k + 1]] == self.units@[free[k + 1]]);
                }
                assert(self@.spec_free_list_exact()) by {
                    let v = self@;
                    assert(v.free =~= free.skip(1));
                    assert forall|i: int|
                        0 <= i < v.slots.len() && (#[trigger] v.slots[i]) is None implies v.free.contains(
                        i,
                    ) by {
                        assert(i != place);
                        assert(spec_slots(units)[i] is None);
                        assert(free.contains(i));
                        let k = choose|k: int| 0 <= k < free.len() && free[k] == i;
                        assert(k > 0);
                        assert(free.skip(1)[k - 1] == i);
                    }
                    assert forall|k: int| 0 <= k < v.free.len() implies 0 <= (#[trigger] v.free[k])
                        < v.slots.len() && v.slots[v.free[k]] is None by {
                        assert(v.free[k] == free[k + 1]);
                        assert(spec_slots(units)[free[k + 1]] is None);
                    }
                    assert(v.free.no_duplicates());
                }
            }
            Ok(index)
        } else if self.units.len() < MAX_UNITS {
            proof {
                if free.len() > 0 {
                    assert(free[0] == index.0);
                    assert(false);
                }
            }
            self.units.push(Unit::Unit((unit, false)));
            self.free_unit = UnitHandle(index.0 + 1);
            proof {
                assert(spec_slots(self.units@) =~= spec_slots(units).push(Some((unit@, false))));
                assert(self@.spec_free_list_exact()) by {
                    let v = self@;
                    assert forall|i: int|
                        0 <= i < v.slots.len() && (#[trigger] v.slots[i]) is None implies v.free.contains(
                        i,
                    ) by {
                        assert(i < units.len());
                        assert(spec_slots(units)[i] is None);
                    }
                }
            }
            Ok(index)
        } else {
            proof {
                if free.len() > 0 {
                    assert(free[0] == index.0);
                    assert(false);
                }
            }
            Err(unit)
        }
    }

    /// Takes the unit at `unit_handle` out of the engine and puts its place
    /// at the head of the free list. A reply that is still under way to it
    /// is dropped. Gives `None`, and changes nothing, where the place holds
    /// no unit.
    #[verifier::rlimit(50)]
    pub fn remove_unit(&mut self, unit_handle: UnitHandle) -> (r: Option<C>)
        requires
            old(self).wf(),
        ensures
            final(self).wf(),
            final(self)@ == old(self)@.spec_remove_unit(unit_handle.spec_index()),
            r is Some <==> old(self)@.spec_is_occupied(unit_handle.spec_index()),
            r matches Some(c) ==> c.wf() && c@ == old(self)@.spec_unit(unit_handle.spec_index()),
    {
        let i = unit_handle.index();
        if i >= self.units.len() {
            return None;
        }
        let ghost free = self.free_list@;
        let ghost units = self.units@;
        if let Unit::NextFreeUnit(_) = &self.units[i] {
            return None;
        }
        let mut next = Unit::NextFreeUnit(self.free_unit);
        core::mem::swap(&mut self.units[i], &mut next);
        self.free_unit = unit_handle;
        self.free_list = Ghost(seq![i as int] + free);
        proof {
            let place = i as int;
            let nf = seq![place] + free;
            assert(spec_slots(self.units@) =~= spec_slots(units).update(place, None));
            assert(spec_slots(units)[place] is Some);
            assert(!free.contains(place)) by {
                if free.contains(place) {
                    let k = choose|k: int| 0 <= k < free.len() && free[k] == place;
                    assert(spec_slots(units)[free[k]] is None);
                }
            }
            assert forall|k: int| 0 <= k < nf.len() implies 0 <= (#[trigger] nf[k])
                < self.units@.len() && self.units@[nf[k]] == Unit::<C>::NextFreeUnit(
                UnitHandle(
                    (if k + 1 < nf.len() {
                        nf[k + 1]
                    } else {
                        self.units@.len() as int
                    }) as u8,
                ),
            ) by {
                if k > 0 {
                    assert(nf[k] == free[k - 1]);
                    assert(self.units@[free[k - 1]] == units[free[k - 1]]);
                    if k + 1 < nf.len() {
                        assert(nf[k + 1] == free[k]);
                    }
                } else {
                    if free.len() > 0 {
                        assert(nf[1] == free[0]);
                    }
                }
            }
            assert(self@.spec_free_list_exact()) by {
                let v = self@;
                assert(v.free =~= nf);
                assert forall|a: int, b: int|
                    0 <= a < nf.len() && 0 <= b < nf.len() && a != b implies nf[a] != nf[b] by {
                    if a > 0 {
                        assert(nf[a] == free[a - 1]);
                    }
                    if b > 0 {
                        assert(nf[b] == free[b - 1]);
                    }
                }
                assert forall|s: int|
                    0 <= s < v.slots.len() && (#[trigger] v.slots[s]) is None implies v.free.contains(
                    s,
                ) by {
                    if s == place {
                        assert(nf[0] == place);
                    } else {
                        assert(spec_slots(units)[s] is None);
                        let k = choose|k: int| 0 <= k < free.len() && free[k] == s;
                        assert(nf[k + 1] == s);
                    }
                }
                assert forall|k: int| 0 <= k < v.free.len() implies 0 <= (#[trigger] v.free[k])
                    < v.slots.len() && v.slots[v.free[k]] is None by {
                    if k > 0 {
                        assert(nf[k] == free[k - 1]);
                        assert(spec_slots(units)[free[k - 1]] is None);
                    }
                }
            }
        }
        match next {
            Unit::Unit((unit, _)) => Some(unit),
            Unit::NextFreeUnit(_) => None,
        }
    }

    /// The unit at `unit_handle`, for changing it in place; `None` where the
    /// place holds no unit.
    pub fn get_unit(&mut self, unit_handle: &UnitHandle) -> (r: Option<&mut C>)
        requires
            old(self).wf(),
        ensures
            r is Some <==> old(self)@.spec_is_occupied(unit_handle.spec_index()),
            r is None ==> final(self).wf() && final(self)@ == old(self)@,
            r matches Some(c) ==> {
                let place = unit_handle.spec_index();
                &&& c.wf()
                &&& c@ == old(self)@.spec_unit(place)
                &&& final(c).wf() ==> final(self).wf()
                &&& final(self)@ == (CyclicUnitsView {
                    slots: old(self)@.slots.update(
                        place,
                        Some((final(c)@, old(self)@.spec_sent(place))),
                    ),
                    ..old(self)@
                })
            },
    {
        let i = unit_handle.index();
        if i >= self.units.len() {
            return None;
        }
        if let Unit::NextFreeUnit(_) = &self.units[i] {
            return None;
        }
        proof {
            let units = self.units@;
            let head = self.free_unit;
            let free = self.free_list@;
            assert(spec_slots(units)[i as int] == units[i as int].spec_slot());
            assert forall|u: Unit<C>| (u matches Unit::Unit((c, _)) && c.wf()) implies spec_pool_wf(
                #[trigger] units.update(i as int, u),
                head,
                free,
            ) && spec_slots(units.update(i as int, u)) == spec_slots(units).update(
                i as int,
                u.spec_slot(),
            ) by {
                match u {
                    Unit::Unit((c, s)) => {
                        lemma_pool_update(units, head, free, i as int, c, s);
                    },
                    Unit::NextFreeUnit(_) => {},
                }
            }
        }
        self.units[i].unit_mut()
    }
}

/// What one step of the enqueue pass leaves: the place, the interface, the
/// slaves, and the result of the pass where the step ends it.
pub struct EnqueueStep<V> {
    pub slot: Option<(V, bool)>,
    pub iface: InterfaceView,
    pub slaves: Seq<Slave>,
    pub stop: Option<Result<bool, CommonError>>,
}

/// What an enqueue pass leaves, and its result.
#[verifier::ext_equal]
pub struct EnqueueOutcome<V> {
    pub slots: Seq<Option<(V, bool)>>,
    pub iface: InterfaceView,
    pub slaves: Seq<Slave>,
    pub result: Result<bool, CommonError>,
}

/// The enqueue pass at one place. A free place and a unit whose command is
/// under way are passed over. Any other unit is asked for its command. The
/// command is added to the interface under the number of the place, and the
/// unit is marked. Where the interface reports less room than the payload
/// takes, the pass ends as incomplete. Where it reports room and still
/// refuses the PDU, the unit is deferred in the same way as long as the
/// interface holds PDUs, which the next poll takes out of the way; the pass
/// fails only where the interface is empty, so that the PDU can never be
/// added. In all three cases the unit stays unmarked.
pub open spec fn spec_enqueue_one<C: CyclicProcess>(
    slot: Option<(C::V, bool)>,
    iface: InterfaceView,
    slaves: Seq<Slave>,
    sys_time: EtherCatSystemTime,
    index: u8,
) -> EnqueueStep<C::V> {
    match slot {
        None => EnqueueStep { slot, iface, slaves, stop: None },
        Some((unit, sent)) => if sent {
            EnqueueStep { slot, iface, slaves, stop: None }
        } else {
            let next = C::spec_next_command(unit, slaves, sys_time);
            match next.2 {
                None => EnqueueStep {
                    slot: Some((next.0, false)),
                    iface,
                    slaves: next.1,
                    stop: None,
                },
                Some((command, data)) => if iface.spec_remaining_capacity() < data.len() {
                    EnqueueStep {
                        slot: Some((next.0, false)),
                        iface,
                        slaves: next.1,
                        stop: Some(Ok(false)),
                    }
                } else if !iface.spec_can_add(data.len()) {
                    EnqueueStep {
                        slot: Some((next.0, false)),
                        iface,
                        slaves: next.1,
                        stop: Some(
                            if iface.data_size > 0 {
                                Ok(false)
                            } else {
                                Err(CommonError::BufferExhausted)
                            },
                        ),
                    }
                } else {
                    EnqueueStep {
                        slot: Some((next.0, true)),
                        iface: iface.spec_add_command(index, command, data),
                        slaves: next.1,
                        stop: None,
                    }
                },
            }
        },
    }
}

/// The enqueue pass from place `i` on, in ascending order of the places.
pub open spec fn spec_enqueue_from<C: CyclicProcess>(
    slots: Seq<Option<(C::V, bool)>>,
    iface: InterfaceView,
    slaves: Seq<Slave>,
    sys_time: EtherCatSystemTime,
    i: int,
) -> EnqueueOutcome<C::V>
    decreases slots.len() - i,
{
    if i < 0 || i >= slots.len() {
        EnqueueOutcome { slots, iface, slaves, result: Ok(true) }
    } else {
        let step = spec_enqueue_one::<C>(slots[i], iface, slaves, sys_time, i as u8);
        match step.stop {
            Some(result) => EnqueueOutcome {
                slots: slots.update(i, step.slot),
                iface: step.iface,
                slaves: step.slaves,
                result,
            },
            None => spec_enqueue_from::<C>(
                slots.update(i, step.slot),
                step.iface,
                step.slaves,
                sys_time,
                i + 1,
            ),
        }
    }
}

impl<C: CyclicProcess> Unit<C> {
    /// The enqueue pass at this place, which has the number `index`.
    fn enqueue(
        &mut self,
        iface: &mut EtherCATInterface<'_>,
        desc: &mut NetworkDescription,
        sys_time: EtherCatSystemTime,
        index: u8,
    ) -> (stop: Option<Result<bool, CommonError>>)
        requires
            old(iface).wf(),
            *old(self) matches Unit::Unit((c, _)) ==> c.wf(),
        ensures
            final(iface).wf(),
            *old(self) is Unit <==> *final(self) is Unit,
            *old(self) is NextFreeUnit ==> *final(self) == *old(self),
            *final(self) matches Unit::Unit((c, _)) ==> c.wf(),
            ({
                let step = spec_enqueue_one::<C>(
                    old(self).spec_slot(),
                    old(iface)@,
                    old(desc)@,
                    sys_time,
                    index,
                );
                &&& final(self).spec_slot() == step.slot
                &&& final(iface)@ == step.iface
                &&& final(desc)@ == step.slaves
                &&& stop == step.stop
            }),
    {
        match self {
            Unit::Unit((unit, sent)) => {
                if *sent {
                    return None;
                }
                if let Some((command, data)) = unit.next_command(desc, sys_time) {
                    let len = data.len();
                    if iface.remaing_capacity() < len {
                        return Some(Ok(false));
                    }
                    assert(crate::packet::spec_payload(data@, len as nat) =~= data@);
                    match iface.add_command(index, command, len, data) {
                        Err(err) => {
                            if iface.data_size() > 0 {
                                return Some(Ok(false));
                            }
                            return Some(Err(err));
                        },
                        Ok(_) => {},
                    }
                    *sent = true;
                }
                None
            },
            Unit::NextFreeUnit(_) => None,
        }
    }
}

impl<'a, C: CyclicProcess> CyclicUnits<'a, C> {
    /// Asks every unit without a command under way for its next command, in
    /// ascending order of the places, and adds the commands to the
    /// interface. Gives `Ok(true)` where every unit was asked, `Ok(false)`
    /// where the pass ended at a command that found no room and waits for
    /// the next pass, and `BufferExhausted` where a command found no room in
    /// the empty interface although room was reported.
    #[verifier::rlimit(50)]
    pub fn enqueue_commands(
        &mut self,
        desc: &mut NetworkDescription,
        sys_time: EtherCatSystemTime,
    ) -> (r: Result<bool, CommonError>)
        requires
            old(self).wf(),
        ensures
            final(self).wf(),
            ({
                let out = spec_enqueue_from::<C>(
                    old(self)@.slots,
                    old(self)@.iface,
                    old(desc)@,
                    sys_time,
                    0,
                );
                &&& final(self)@ == (CyclicUnitsView {
                    iface: out.iface,
                    slots: out.slots,
                    free: old(self)@.free,
                })
                &&& final(desc)@ == out.slaves
                &&& r == out.result
            }),
    {
        let ghost total = spec_enqueue_from::<C>(
            old(self)@.slots,
            old(self)@.iface,
            old(desc)@,
            sys_time,
            0,
        );
        let mut i: usize = 0;
        while i < self.units.len()
            invariant
                self.wf(),
                i <= self.units@.len(),
                self@.free == old(self)@.free,
                total == spec_enqueue_from::<C>(
                    old(self)@.slots,
                    old(self)@.iface,
                    old(desc)@,
                    sys_time,
                    0,
                ),
                spec_enqueue_from::<C>(self@.slots, self@.iface, desc@, sys_time, i as int)
                    == total,
            decreases self.units@.len() - i,
        {
            let ghost units = self.units@;
            let ghost head = self.free_unit;
            let ghost free = self.free_list@;
            let ghost slots = self@.slots;
            let ghost before_iface = self@.iface;
            let ghost before_slaves = desc@;
            proof {
                assert(spec_slots(units)[i as int] == units[i as int].spec_slot());
            }
            let stop = self.units[i].enqueue(&mut self.iface, desc, sys_time, i as u8);
            proof {
                let step = spec_enqueue_one::<C>(
                    slots[i as int],
                    before_iface,
                    before_slaves,
                    sys_time,
                    i as u8,
                );
                let after = self.units@[i as int];
                assert(self.units@ =~= units.update(i as int, after));
                match after {
                    Unit::Unit((c, s)) => {
                        lemma_pool_update(units, head, free, i as int, c, s);
                    },
                    Unit::NextFreeUnit(_) => {
                        assert(self.units@ =~= units);
                    },
                }
                assert(self@.slots =~= slots.update(i as int, step.slot));
                assert(spec_enqueue_from::<C>(
                    slots,
                    before_iface,
                    before_slaves,
                    sys_time,
                    i as int,
                ) == total);
                if step.stop is Some {
                    assert(total == (EnqueueOutcome::<C::V> {
                        slots: slots.update(i as int, step.slot),
                        iface: step.iface,
                        slaves: step.slaves,
                        result: step.stop.unwrap(),
                    }));
                }
            }
            match stop {
                Some(result) => {
                    return result;
                },
                None => {},
            }
            i = i + 1;
        }
        Ok(true)
    }
}

/// The reply that a unit gets from a PDU.
pub open spec fn spec_reply(pdu: PduModel) -> ReceivedView {
    ReceivedView { command: pdu.command, data: pdu.data, wkc: pdu.wkc }
}

/// The places after the unit in `slot`, if there is one, has taken `recv`:
/// the unit has processed it, and no command of it is under way.
pub open spec fn spec_deliver<C: CyclicProcess>(
    slot: Option<(C::V, bool)>,
    recv: Option<ReceivedView>,
    slaves: Seq<Slave>,
    sys_time: EtherCatSystemTime,
) -> (Option<(C::V, bool)>, Seq<Slave>) {
    match slot {
        Some((unit, _)) => {
            let after = C::spec_recieve_and_process(unit, recv, slaves, sys_time);
            (Some((after.0, false)), after.1)
        },
        None => (slot, slaves),
    }
}

/// Whether the place holds a unit with a command under way.
pub open spec fn spec_awaits<V>(slot: Option<(V, bool)>) -> bool {
    match slot {
        Some((_, sent)) => sent,
        None => false,
    }
}

/// The places and the slaves after every unit from place `from` up to, not
/// including, place `to` that has a command under way was told, in ascending
/// order, that its reply is lost.
pub open spec fn spec_notify_lost<C: CyclicProcess>(
    slots: Seq<Option<(C::V, bool)>>,
    slaves: Seq<Slave>,
    sys_time: EtherCatSystemTime,
    from: int,
    to: int,
) -> (Seq<Option<(C::V, bool)>>, Seq<Slave>)
    decreases to - from,
{
    if from < 0 || from >= to || from >= slots.len() {
        (slots, slaves)
    } else if spec_awaits(slots[from]) {
        let after = spec_deliver::<C>(slots[from], None, slaves, sys_time);
        spec_notify_lost::<C>(slots.update(from, after.0), after.1, sys_time, from + 1, to)
    } else {
        spec_notify_lost::<C>(slots, slaves, sys_time, from + 1, to)
    }
}

/// The places and the slaves after the dispatch of `pdus`, where `last` is
/// the place behind that of the PDU before them. For each PDU in turn: the
/// units with a command under way between `last` and the PDU's place learn
/// that their reply is lost; then the unit at the PDU's place, if there is
/// one, gets the PDU. Behind the last PDU the remaining units with a command
/// under way learn that their reply is lost.
pub open spec fn spec_dispatch<C: CyclicProcess>(
    slots: Seq<Option<(C::V, bool)>>,
    slaves: Seq<Slave>,
    pdus: Seq<PduModel>,
    sys_time: EtherCatSystemTime,
    last: int,
) -> (Seq<Option<(C::V, bool)>>, Seq<Slave>)
    decreases pdus.len(),
{
    if pdus.len() == 0 {
        spec_notify_lost::<C>(slots, slaves, sys_time, last, slots.len() as int)
    } else {
        let index = pdus[0].index as int;
        let lost = spec_notify_lost::<C>(slots, slaves, sys_time, last, index);
        if index < lost.0.len() {
            let after = spec_deliver::<C>(
                lost.0[index],
                Some(spec_reply(pdus[0])),
                lost.1,
                sys_time,
            );
            spec_dispatch::<C>(
                lost.0.update(index, after.0),
                after.1,
                pdus.skip(1),
                sys_time,
                index + 1,
            )
        } else {
            spec_dispatch::<C>(lost.0, lost.1, pdus.skip(1), sys_time, index + 1)
        }
    }
}

/// For each place whether a command of its unit is under way; `None` for a
/// free place.
pub open spec fn spec_flags<V>(slots: Seq<Option<(V, bool)>>) -> Seq<Option<bool>> {
    Seq::new(
        slots.len(),
        |i: int|
            match slots[i] {
                Some((_, sent)) => Some(sent),
                None => None,
            },
    )
}

/// The place numbers that a run of PDUs names.
pub open spec fn spec_indices(pdus: Seq<PduModel>) -> Seq<int> {
    Seq::new(pdus.len(), |i: int| pdus[i].index as int)
}

/// The marks after those of the taken places from `from` up to, not
/// including, `to` were cleared.
pub open spec fn spec_flags_cleared(flags: Seq<Option<bool>>, from: int, to: int) -> Seq<
    Option<bool>,
> {
    Seq::new(
        flags.len(),
        |j: int|
            if from <= j < to && flags[j] is Some {
                Some(false)
            } else {
                flags[j]
            },
    )
}

/// Whether every PDU of the run that names a taken place finds the mark of
/// that place set when its turn comes.
pub open spec fn spec_dispatchable(flags: Seq<Option<bool>>, indices: Seq<int>, last: int) -> bool
    decreases indices.len(),
{
    if indices.len() == 0 {
        true
    } else {
        let index = indices[0];
        let cleared = spec_flags_cleared(flags, last, index);
        &&& 0 <= index < flags.len() ==> cleared[index] != Some(false)
        &&& spec_dispatchable(
            spec_flags_cleared(cleared, index, index + 1),
            indices.skip(1),
            index + 1,
        )
    }
}

/// Whether a dispatch pass follows a poll of the interface with this
/// result: after a success, and after a timeout, which leaves the units
/// without a reply to be told so. A failure of the device is followed by
/// none.
pub open spec fn spec_poll_proceeds(poll_result: Result<(), CommonError>) -> bool {
    poll_result is Ok || poll_result == Err::<(), CommonError>(CommonError::ReceiveTimeout)
}

/// Telling units that their reply is lost clears their marks and no others,
/// and leaves every place free or taken as it was.
pub proof fn lemma_notify_lost_flags<C: CyclicProcess>(
    slots: Seq<Option<(C::V, bool)>>,
    slaves: Seq<Slave>,
    sys_time: EtherCatSystemTime,
    from: int,
    to: int,
)
    requires
        0 <= from,
    ensures
        spec_notify_lost::<C>(slots, slaves, sys_time, from, to).0.len() == slots.len(),
        spec_flags(spec_notify_lost::<C>(slots, slaves, sys_time, from, to).0)
            == spec_flags_cleared(spec_flags(slots), from, to),
    decreases to - from,
{
    let out = spec_notify_lost::<C>(slots, slaves, sys_time, from, to).0;
    if from >= to || from >= slots.len() {
        assert(spec_flags(out) =~= spec_flags_cleared(spec_flags(slots), from, to));
    } else if spec_awaits(slots[from]) {
        let after = spec_deliver::<C>(slots[from], None, slaves, sys_time);
        let slots1 = slots.update(from, after.0);
        lemma_notify_lost_flags::<C>(slots1, after.1, sys_time, from + 1, to);
        assert(spec_flags(out) =~= spec_flags_cleared(spec_flags(slots), from, to));
    } else {
        lemma_notify_lost_flags::<C>(slots, slaves, sys_time, from + 1, to);
        assert(spec_flags(out) =~= spec_flags_cleared(spec_flags(slots), from, to));
    }
}

impl<C: CyclicProcess> Unit<C> {
    /// Hands `recv` to the unit of this place, if it holds one, and clears
    /// its mark.
    fn deliver(
        &mut self,
        recv: Option<ReceivedData>,
        desc: &mut NetworkDescription,
        sys_time: EtherCatSystemTime,
    )
        requires
            *old(self) matches Unit::Unit((c, _)) ==> c.wf(),
        ensures
            *old(self) is Unit <==> *final(self) is Unit,
            *old(self) is NextFreeUnit ==> *final(self) == *old(self),
            *final(self) matches Unit::Unit((c, _)) ==> c.wf(),
            (final(self).spec_slot(), final(desc)@) == spec_deliver::<C>(
                old(self).spec_slot(),
                spec_received(recv),
                old(desc)@,
                sys_time,
            ),
    {
        match self {
            Unit::Unit((unit, sent)) => {
                unit.recieve_and_process(recv, desc, sys_time);
                *sent = false;
            },
            Unit::NextFreeUnit(_) => {},
        }
    }

    /// Whether the place holds a unit with a command under way.
    fn awaits(&self) -> (r: bool)
        ensures
            r == spec_awaits(self.spec_slot()),
    {
        match self {
            Unit::Unit((_, sent)) => *sent,
            Unit::NextFreeUnit(_) => false,
        }
    }
}

/// Tells every unit from place `from` up to, not including, place `to` that
/// has a command under way that its reply is lost.
fn notify_lost<C: CyclicProcess>(
    units: &mut Vec<Unit<C>>,
    Ghost(head): Ghost<UnitHandle>,
    Ghost(free): Ghost<Seq<int>>,
    from: usize,
    to: usize,
    desc: &mut NetworkDescription,
    sys_time: EtherCatSystemTime,
)
    requires
        spec_pool_wf(old(units)@, head, free),
    ensures
        spec_pool_wf(final(units)@, head, free),
        final(units)@.len() == old(units)@.len(),
        (spec_slots(final(units)@), final(desc)@) == spec_notify_lost::<C>(
            spec_slots(old(units)@),
            old(desc)@,
            sys_time,
            from as int,
            to as int,
        ),
{
    let ghost total = spec_notify_lost::<C>(
        spec_slots(old(units)@),
        old(desc)@,
        sys_time,
        from as int,
        to as int,
    );
    let mut j: usize = from;
    while j < to && j < units.len()
        invariant
            from <= j,
            spec_pool_wf(units@, head, free),
            units@.len() == old(units)@.len(),
            total == spec_notify_lost::<C>(
                spec_slots(old(units)@),
                old(desc)@,
                sys_time,
                from as int,
                to as int,
            ),
            spec_notify_lost::<C>(spec_slots(units@), desc@, sys_time, j as int, to as int)
                == total,
        decreases units@.len() - j,
    {
        let ghost before = units@;
        proof {
            assert(spec_slots(before)[j as int] == before[j as int].spec_slot());
        }
        if units[j].awaits() {
            units[j].deliver(None, desc, sys_time);
            proof {
                let after = units@[j as int];
                assert(units@ =~= before.update(j as int, after));
                match after {
                    Unit::Unit((c, s)) => {
                        lemma_pool_update(before, head, free, j as int, c, s);
                    },
                    Unit::NextFreeUnit(_) => {},
                }
            }
        }
        j = j + 1;
    }
}

impl<'a, C: CyclicProcess> CyclicUnits<'a, C> {
    /// Whether every PDU in the interface that names a taken place will
    /// find the mark of that place set when `process` comes to it.
    pub open spec fn spec_can_process(&self) -> bool {
        spec_dispatchable(spec_flags(self@.slots), spec_indices(self@.iface.pdus), 0)
    }

    /// What follows a poll of the interface. The result of the poll is
    /// handed on as it is, a timeout as much as a failure of the device.
    /// After a failure of the device nothing else happens: the units keep
    /// their marks and the interface what it holds. After a success or a
    /// timeout the dispatch pass is made in this call: the PDUs of the
    /// interface go in their order to the units at the places that they
    /// name, units whose reply did not come are told so, every mark is
    /// cleared, and the interface is left empty.
    #[verifier::rlimit(50)]
    pub fn process(
        &mut self,
        poll_result: Result<(), CommonError>,
        desc: &mut NetworkDescription,
        sys_time: EtherCatSystemTime,
    ) -> (r: Result<(), CommonError>)
        requires
            old(self).wf(),
            spec_poll_proceeds(poll_result) ==> old(self).spec_can_process(),
        ensures
            final(self).wf(),
            r == poll_result,
            !spec_poll_proceeds(poll_result) ==> final(self)@ == old(self)@ && final(desc)@ == old(
                desc,
            )@,
            spec_poll_proceeds(poll_result) ==> {
                let out = spec_dispatch::<C>(
                    old(self)@.slots,
                    old(desc)@,
                    old(self)@.iface.pdus,
                    sys_time,
                    0,
                );
                &&& final(self)@ == (CyclicUnitsView {
                    iface: InterfaceView { pdus: Seq::empty(), data_size: 0, ..old(self)@.iface },
                    slots: out.0,
                    free: old(self)@.free,
                })
                &&& final(desc)@ == out.1
            },
    {
        match poll_result {
            Ok(_) => {},
            Err(CommonError::ReceiveTimeout) => {},
            Err(err) => {
                return Err(err);
            },
        }
        let ghost head = self.free_unit;
        let ghost free = self.free_list@;
        let ghost models = self@.iface.pdus;
        let ghost total = spec_dispatch::<C>(self@.slots, desc@, models, sys_time, 0);
        let pdus = self.iface.peek_command();
        let mut last_index: usize = 0;
        let mut k: usize = 0;
        proof {
            assert(models.skip(0) =~= models);
            assert(spec_indices(models).skip(0) =~= spec_indices(models));
        }
        while k < pdus.len()
            invariant
                k <= pdus@.len(),
                models == crate::ethercat_frame::spec_pdu_models(pdus@),
                self.iface.wf(),
                self.iface@ == old(self)@.iface,
                total == spec_dispatch::<C>(
                    old(self)@.slots,
                    old(desc)@,
                    old(self)@.iface.pdus,
                    sys_time,
                    0,
                ),
                spec_pool_wf(self.units@, head, free),
                head == self.free_unit,
                free == self.free_list@,
                last_index <= 256,
                spec_dispatch::<C>(
                    spec_slots(self.units@),
                    desc@,
                    models.skip(k as int),
                    sys_time,
                    last_index as int,
                ) == total,
                spec_dispatchable(
                    spec_flags(spec_slots(self.units@)),
                    spec_indices(models).skip(k as int),
                    last_index as int,
                ),
            decreases pdus@.len() - k,
        {
            let pdu = pdus[k];
            let index = pdu.index as usize;
            let ghost slots0 = spec_slots(self.units@);
            let ghost slaves0 = desc@;
            proof {
                assert(models.skip(k as int)[0] == pdu@);
                assert(models.skip(k as int).skip(1) =~= models.skip(k + 1));
                assert(spec_indices(models).skip(k as int)[0] == index);
                assert(spec_indices(models).skip(k as int).skip(1) =~= spec_indices(models).skip(
                    k + 1,
                ));
                lemma_notify_lost_flags::<C>(
                    slots0,
                    slaves0,
                    sys_time,
                    last_index as int,
                    index as int,
                );
            }
            notify_lost(
                &mut self.units,
                Ghost(head),
                Ghost(free),
                last_index,
                index,
                desc,
                sys_time,
            );
            if index < self.units.len() {
                let ghost before = self.units@;
                proof {
                    assert(spec_slots(before)[index as int] == before[index as int].spec_slot());
                }
                let recv = ReceivedData { command: pdu.command, data: pdu.data, wkc: pdu.wkc };
                assert(recv@ == spec_reply(pdu@));
                self.units[index].deliver(Some(recv), desc, sys_time);
                proof {
                    let after = self.units@[index as int];
                    assert(self.units@ =~= before.update(index as int, after));
                    match after {
                        Unit::Unit((c, s)) => {
                            lemma_pool_update(before, head, free, index as int, c, s);
                        },
                        Unit::NextFreeUnit(_) => {
                            assert(self.units@ =~= before);
                        },
                    }
                    assert(spec_slots(self.units@) =~= spec_slots(before).update(
                        index as int,
                        after.spec_slot(),
                    ));
                    assert(spec_flags(spec_slots(self.units@)) =~= spec_flags_cleared(
                        spec_flags(spec_slots(before)),
                        index as int,
                        index + 1,
                    ));
                }
            } else {
                proof {
                    assert(spec_flags(spec_slots(self.units@)) =~= spec_flags_cleared(
                        spec_flags(spec_slots(self.units@)),
                        index as int,
                        index + 1,
                    ));
                }
            }
            last_index = index + 1;
            k = k + 1;
        }
        proof {
            assert(models.skip(k as int).len() == 0);
        }
        let n = self.units.len();
        notify_lost(&mut self.units, Ghost(head), Ghost(free), last_index, n, desc, sys_time);
        self.iface.clear();
        poll_result
    }
}

/// Clears the marks of the taken places from `from` up to, not including,
/// `to`.
fn clear_marks(flags: &mut Vec<Option<bool>>, from: usize, to: usize)
    ensures
        final(flags)@ == spec_flags_cleared(old(flags)@, from as int, to as int),
{
    let mut j: usize = from;
    assert(flags@ =~= spec_flags_cleared(old(flags)@, from as int, from as int));
    while j < to && j < flags.len()
        invariant
            from <= j,
            j <= to || j == from,
            flags@.len() == old(flags)@.len(),
            flags@ == spec_flags_cleared(old(flags)@, from as int, j as int),
        decreases flags@.len() - j,
    {
        let cleared: Option<bool> = match flags[j] {
            Some(_) => Some(false),
            None => None,
        };
        flags[j] = cleared;
        j = j + 1;
        assert(flags@ =~= spec_flags_cleared(old(flags)@, from as int, j as int));
    }
    assert(flags@ =~= spec_flags_cleared(old(flags)@, from as int, to as int));
}

impl<'a, C: CyclicProcess> CyclicUnits<'a, C> {
    /// Whether `process` can dispatch what the interface holds: whether
    /// every PDU that names a taken place will find the mark of that place
    /// set.
    #[verifier::rlimit(50)]
    pub fn can_process(&self) -> (r: bool)
        requires
            self.wf(),
        ensures
            r == self.spec_can_process(),
    {
        let mut flags: Vec<Option<bool>> = Vec::new();
        let mut i: usize = 0;
        while i < self.units.len()
            invariant
                i <= self.units@.len(),
                flags@.len() == i,
                forall|j: int| 0 <= j < i ==> flags@[j] == spec_flags(self@.slots)[j],
            decreases self.units@.len() - i,
        {
            let flag: Option<bool> = match &self.units[i] {
                Unit::Unit((_, sent)) => Some(*sent),
                Unit::NextFreeUnit(_) => None,
            };
            assert(spec_slots(self.units@)[i as int] == self.units@[i as int].spec_slot());
            flags.push(flag);
            i = i + 1;
        }
        assert(flags@ =~= spec_flags(self@.slots));
        let pdus = self.iface.peek_command();
        let ghost indices = spec_indices(self@.iface.pdus);
        let mut last_index: usize = 0;
        let mut k: usize = 0;
        assert(indices.skip(0) =~= indices);
        while k < pdus.len()
            invariant
                k <= pdus@.len(),
                indices == spec_indices(crate::ethercat_frame::spec_pdu_models(pdus@)),
                last_index <= 256,
                spec_dispatchable(flags@, indices.skip(k as int), last_index as int)
                    == self.spec_can_process(),
            decreases pdus@.len() - k,
        {
            let index = pdus[k].index as usize;
            proof {
                assert(indices.skip(k as int)[0] == index);
                assert(indices.skip(k as int).skip(1) =~= indices.skip(k + 1));
            }
            clear_marks(&mut flags, last_index, index);
            if index < flags.len() {
                match flags[index] {
                    Some(sent) => {
                        if !sent {
                            return false;
                        }
                    },
                    None => {},
                }
            }
            clear_marks(&mut flags, index, index + 1);
            last_index = index + 1;
            k = k + 1;
        }
        true
    }

    /// The dispatch of what the interface holds gives every unit that has a
    /// command under way exactly one call of `recieve_and_process`, and no
    /// other unit one: with the PDU that names the unit's place where one
    /// came, and with `None` where none came.
    pub proof fn lemma_process_delivers_once(&self, slaves: Seq<Slave>, sys_time: EtherCatSystemTime)
        requires
            self.spec_can_process(),
        ensures
            ({
                let flags = spec_flags(self@.slots);
                let indices = spec_indices(self@.iface.pdus);
                let calls = dispatch::spec_dispatch_calls(flags, indices, 0, 0);
                &&& spec_dispatch::<C>(self@.slots, slaves, self@.iface.pdus, sys_time, 0)
                    == dispatch::spec_apply_calls::<C>(
                    self@.slots,
                    slaves,
                    calls,
                    self@.iface.pdus,
                    sys_time,
                )
                &&& dispatch::spec_calls_to_sent(flags, calls)
                &&& dispatch::spec_calls_distinct(calls)
                &&& dispatch::spec_calls_cover(flags, calls)
                &&& dispatch::spec_calls_match(calls, indices, 0)
            }),
    {
        let pdus = self@.iface.pdus;
        assert(pdus.skip(0) =~= pdus);
        assert(spec_indices(pdus).skip(0) =~= spec_indices(pdus));
        dispatch::lemma_dispatch_is_calls::<C>(self@.slots, slaves, pdus, sys_time, 0, 0);
        dispatch::lemma_dispatch_coverage(spec_flags(self@.slots), spec_indices(pdus), 0, 0);
    }
}

/// An enqueue pass keeps the PDUs that the interface held and puts the
/// units' commands behind them in ascending order of the places: each new
/// PDU carries the number of its unit's place, and a higher one than the new
/// PDU before it.
pub proof fn lemma_enqueue_order<C: CyclicProcess>(
    slots: Seq<Option<(C::V, bool)>>,
    iface: InterfaceView,
    slaves: Seq<Slave>,
    sys_time: EtherCatSystemTime,
    i: int,
)
    requires
        0 <= i,
        slots.len() <= 256,
    ensures
        ({
            let before = iface.pdus;
            let after = spec_enqueue_from::<C>(slots, iface, slaves, sys_time, i).iface.pdus;
            &&& before.len() <= after.len()
            &&& after.take(before.len() as int) == before
            &&& forall|k: int|
                before.len() <= k < after.len() ==> i <= (#[trigger] after[k]).index < slots.len()
            &&& forall|a: int, b: int|
                before.len() <= a < b < after.len() ==> (#[trigger] after[a]).index < (
                #[trigger] after[b]).index
        }),
        spec_enqueue_from::<C>(slots, iface, slaves, sys_time, i).slots.len() == slots.len(),
    decreases slots.len() - i,
{
    let before = iface.pdus;
    let out = spec_enqueue_from::<C>(slots, iface, slaves, sys_time, i);
    let after = out.iface.pdus;
    if i >= slots.len() {
        assert(after.take(before.len() as int) =~= before);
    } else {
        let step = spec_enqueue_one::<C>(slots[i], iface, slaves, sys_time, i as u8);
        let mid = step.iface.pdus;
        assert(mid.len() == before.len() || (mid.len() == before.len() + 1 && mid.last().index
            == i && mid.take(before.len() as int) =~= before));
        if step.stop is Some {
            assert(after.take(before.len() as int) =~= before);
        } else {
            lemma_enqueue_order::<C>(
                slots.update(i, step.slot),
                step.iface,
                step.slaves,
                sys_time,
                i + 1,
            );
            assert(after.take(before.len() as int) =~= before) by {
                assert(after.take(mid.len() as int) == mid);
                assert forall|k: int| 0 <= k < before.len() implies after[k] == before[k] by {
                    assert(after.take(mid.len() as int)[k] == mid[k]);
                }
            }
            assert forall|k: int| before.len() <= k < after.len() implies i <= (
            #[trigger] after[k]).index < slots.len() by {
                if k < mid.len() {
                    assert(after.take(mid.len() as int)[k] == mid[k]);
                }
            }
            assert forall|a: int, b: int| before.len() <= a < b < after.len() implies (
            #[trigger] after[a]).index < (#[trigger] after[b]).index by {
                if a < mid.len() {
                    assert(after.take(mid.len() as int)[a] == mid[a]);
                }
            }
        }
    }
}

/// An enqueue pass fails only with `BufferExhausted`, and only at a command
/// that found no room in an empty interface: the interface holds nothing
/// after a pass that failed.
pub proof fn lemma_enqueue_failure<C: CyclicProcess>(
    slots: Seq<Option<(C::V, bool)>>,
    iface: InterfaceView,
    slaves: Seq<Slave>,
    sys_time: EtherCatSystemTime,
    i: int,
)
    requires
        0 <= i,
        slots.len() <= 256,
    ensures
        ({
            let out = spec_enqueue_from::<C>(slots, iface, slaves, sys_time, i);
            out.result is Err ==> out.result == Err::<bool, CommonError>(
                CommonError::BufferExhausted,
            ) && out.iface.data_size == 0
        }),
    decreases slots.len() - i,
{
    if i < slots.len() {
        let step = spec_enqueue_one::<C>(slots[i], iface, slaves, sys_time, i as u8);
        if step.stop is None {
            lemma_enqueue_failure::<C>(
                slots.update(i, step.slot),
                step.iface,
                step.slaves,
                sys_time,
                i + 1,
            );
        }
    }
}

} // verus!
