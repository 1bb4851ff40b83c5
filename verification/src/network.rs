//! The table of the slaves that were found on the network.

use crate::interface::SlaveAddress;
use crate::slave::Slave;
use vstd::prelude::*;

verus! {

/// The slaves that were found on the network, in the order of their position
/// on the line.
#[derive(Debug)]
pub struct NetworkDescription {
    slaves: Vec<Slave>,
}

impl View for NetworkDescription {
    type V = Seq<Slave>;

    closed spec fn view(&self) -> Seq<Slave> {
        self.slaves@
    }
}

/// The first position at or after `from` whose slave has the station address
/// `adr`, if there is one.
pub open spec fn spec_position_of_station(slaves: Seq<Slave>, adr: u16, from: int) -> Option<int>
    decreases slaves.len() - from,
{
    if from < 0 || from >= slaves.len() {
        None
    } else if slaves[from].configured_address == adr {
        Some(from)
    } else {
        spec_position_of_station(slaves, adr, from + 1)
    }
}

/// The position of the slave that `address` names, if it names one.
pub open spec fn spec_find_slave(slaves: Seq<Slave>, address: SlaveAddress) -> Option<int> {
    match address {
        SlaveAddress::StationAddress(adr) => spec_position_of_station(slaves, adr, 0),
        SlaveAddress::SlaveNumber(n) => if n < slaves.len() {
            Some(n as int)
        } else {
            None
        },
    }
}

/// A position that `spec_position_of_station` gives lies in the table, not
/// before `from`, and holds a slave with that station address.
pub proof fn lemma_position_of_station(slaves: Seq<Slave>, adr: u16, from: int)
    requires
        0 <= from,
    ensures
        spec_position_of_station(slaves, adr, from) matches Some(i) ==> from <= i < slaves.len()
            && slaves[i].configured_address == adr,
    decreases slaves.len() - from,
{
    if from < slaves.len() && slaves[from].configured_address != adr {
        lemma_position_of_station(slaves, adr, from + 1);
    }
}

/// A position that `spec_find_slave` gives lies in the table.
pub proof fn lemma_find_slave(slaves: Seq<Slave>, address: SlaveAddress)
    ensures
        spec_find_slave(slaves, address) matches Some(i) ==> 0 <= i < slaves.len(),
{
    match address {
        SlaveAddress::StationAddress(adr) => {
            lemma_position_of_station(slaves, adr, 0);
        },
        SlaveAddress::SlaveNumber(_) => {},
    }
}

impl NetworkDescription {
    pub fn new() -> (r: Self)
        ensures
            r@ == Seq::<Slave>::empty(),
    {
        NetworkDescription { slaves: Vec::new() }
    }

    /// Adds a slave behind those already known.
    pub fn push_slave(&mut self, slave: Slave)
        ensures
            final(self)@ == old(self)@.push(slave),
    {
        self.slaves.push(slave);
    }

    /// Number of slaves found.
    pub fn len(&self) -> (r: usize)
        ensures
            r == self@.len(),
    {
        self.slaves.len()
    }

    /// Position of the slave that `address` names.
    pub fn find_slave(&self, address: SlaveAddress) -> (r: Option<usize>)
        ensures
            r is Some <==> spec_find_slave(self@, address) is Some,
            r matches Some(k) ==> spec_find_slave(self@, address) == Some(k as int) && k
                < self@.len(),
            r matches Some(k) ==> (address matches SlaveAddress::StationAddress(adr)
                ==> self@[k as int].configured_address == adr),
    {
        match address {
            SlaveAddress::SlaveNumber(n) => {
                if (n as usize) < self.slaves.len() {
                    Some(n as usize)
                } else {
                    None
                }
            },
            SlaveAddress::StationAddress(adr) => {
                proof {
                    lemma_position_of_station(self.slaves@, adr, 0);
                }
                let mut i: usize = 0;
                while i < self.slaves.len()
                    invariant
                        i <= self.slaves@.len(),
                        address == SlaveAddress::StationAddress(adr),
                        spec_position_of_station(self.slaves@, adr, 0)
                            == spec_position_of_station(self.slaves@, adr, i as int),
                    decreases self.slaves@.len() - i,
                {
                    if self.slaves[i].configured_address == adr {
                        assert(spec_position_of_station(self.slaves@, adr, i as int) == Some(
                            i as int,
                        ));
                        return Some(i);
                    }
                    assert(spec_position_of_station(self.slaves@, adr, i as int)
                        == spec_position_of_station(self.slaves@, adr, i + 1));
                    i += 1;
                }
                assert(spec_position_of_station(self.slaves@, adr, i as int) is None);
                None
            },
        }
    }

    /// The slave that `address` names.
    pub fn slave(&self, address: SlaveAddress) -> (r: Option<&Slave>)
        ensures
            match spec_find_slave(self@, address) {
                Some(i) => r == Some(&self@[i]),
                None => r is None,
            },
    {
        match self.find_slave(address) {
            Some(i) => Some(&self.slaves[i]),
            None => None,
        }
    }

    /// The slave that `address` names, for changing it in place.
    pub fn slave_mut(&mut self, address: SlaveAddress) -> (r: Option<&mut Slave>)
        ensures
            match spec_find_slave(old(self)@, address) {
                Some(i) => r matches Some(s) && *s == old(self)@[i] && final(self)@ == old(
                    self,
                )@.update(i, *final(s)),
                None => r is None && final(self)@ == old(self)@,
            },
    {
        match self.find_slave(address) {
            Some(i) => Some(&mut self.slaves[i]),
            None => None,
        }
    }
}

} // verus!
