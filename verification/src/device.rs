//! The device of a virtual interface: two in-memory packet queues.

use bytes::Bytes;
use std::collections::VecDeque;
use vstd::prelude::*;

use crate::engine::payload::{all_octets, as_slice, octets};

verus! {

/// A device that carries whole IP packets between the caller and the stack.
pub struct VirtualDevice {
    /// The size of the largest packet that the device carries.
    pub mtu: usize,
    /// Packets on their way into the stack, the oldest first.
    pub ingress: VecDeque<Bytes>,
    /// Packets that the stack produced, the oldest first.
    pub egress: VecDeque<Bytes>,
}

/// What a device holds.
#[verifier::ext_equal]
pub struct DeviceModel {
    pub mtu: usize,
    pub ingress: Seq<Seq<u8>>,
    pub egress: Seq<Seq<u8>>,
}

impl VirtualDevice {
    pub open spec fn view(&self) -> DeviceModel {
        DeviceModel {
            mtu: self.mtu,
            ingress: all_octets(self.ingress@),
            egress: all_octets(self.egress@),
        }
    }

    /// A device that holds no packets.
    pub fn new(mtu: usize) -> (device: VirtualDevice)
        ensures
            device@ == (DeviceModel { mtu, ingress: Seq::empty(), egress: Seq::empty() }),
    {
        let device = VirtualDevice { mtu, ingress: VecDeque::new(), egress: VecDeque::new() };
        assert(device@ =~= DeviceModel { mtu, ingress: Seq::empty(), egress: Seq::empty() });
        device
    }

    /// Queues a packet for the stack. A packet that is larger than the device can
    /// carry is rejected.
    pub fn push_ingress(&mut self, data: Bytes) -> (queued: bool)
        ensures
            queued == (octets(data).len() <= old(self)@.mtu),
            final(self)@ == (DeviceModel {
                ingress: if queued {
                    old(self)@.ingress.push(octets(data))
                } else {
                    old(self)@.ingress
                },
                ..old(self)@
            }),
    {
        if as_slice(&data).len() > self.mtu {
            return false;
        }
        self.ingress.push_back(data);
        assert(self@.ingress =~= old(self)@.ingress.push(octets(data)));
        true
    }

    /// Takes the oldest packet that is queued for the stack.
    pub fn pop_ingress(&mut self) -> (data: Option<Bytes>)
        ensures
            match data {
                Some(d) => {
                    &&& old(self)@.ingress.len() > 0
                    &&& octets(d) == old(self)@.ingress[0]
                    &&& final(self)@ == (DeviceModel {
                        ingress: old(self)@.ingress.skip(1),
                        ..old(self)@
                    })
                },
                None => old(self)@.ingress.len() == 0 && final(self)@ == old(self)@,
            },
    {
        let data = self.ingress.pop_front();
        assert(data is Some ==> self@.ingress =~= old(self)@.ingress.skip(1));
        data
    }

    /// Takes out the packet at position `n` of those that are queued for the stack.
    pub fn drop_ingress(&mut self, n: usize)
        requires
            n < old(self)@.ingress.len(),
        ensures
            final(self)@ == (DeviceModel {
                ingress: old(self)@.ingress.remove(n as int),
                ..old(self)@
            }),
    {
        let _ = self.ingress.remove(n);
        assert(self@.ingress =~= old(self)@.ingress.remove(n as int));
    }

    /// Queues a packet that the stack produced.
    pub fn push_egress(&mut self, data: Bytes)
        ensures
            final(self)@ == (DeviceModel {
                egress: old(self)@.egress.push(octets(data)),
                ..old(self)@
            }),
    {
        self.egress.push_back(data);
        assert(self@.egress =~= old(self)@.egress.push(octets(data)));
    }

    /// Takes all packets that the stack produced, in the order in which it did.
    pub fn drain_egress(&mut self) -> (packets: Vec<Bytes>)
        ensures
            all_octets(packets@) == old(self)@.egress,
            final(self)@ == (DeviceModel { egress: Seq::empty(), ..old(self)@ }),
    {
        let mut packets: Vec<Bytes> = Vec::new();
        let ghost before = self.egress@;
        loop
            invariant
                packets@ + self.egress@ == before,
                self.mtu == old(self).mtu,
                self.ingress == old(self).ingress,
            ensures
                packets@ == before,
                self.egress@.len() == 0,
            decreases self.egress@.len(),
        {
            match self.egress.pop_front() {
                Some(data) => {
                    packets.push(data);
                },
                None => {
                    assert(packets@ =~= before);
                    break;
                },
            }
        }
        assert(self@ =~= DeviceModel { egress: Seq::empty(), ..old(self)@ });
        packets
    }
}

} // verus!
