use vstd::prelude::*;
use vstd::string::StringExecFns;
use crate::dcc::{DCCPacket, DCCPacketType, PacketModel, packet_model};

verus! {

/// Running statistics of a monitoring session and the log of its packets.
pub struct Data {
    total_packets: u64,
    invalid_packets: u64,
    idle_packets: u64,
    reset_packets: u64,
    hardware: String,
    firmware: String,
    packets: Vec<DCCPacket>,
}

pub struct SessionModel {
    pub total: nat,
    pub invalid: nat,
    pub idle: nat,
    pub reset: nat,
    pub hardware: Seq<char>,
    pub firmware: Seq<char>,
    pub packets: Seq<PacketModel>,
}

impl SessionModel {
    /// Every packet is counted once, in at most one of the three buckets,
    /// and the log holds one entry per counted packet.
    pub open spec fn wf(self) -> bool {
        &&& self.invalid + self.idle + self.reset <= self.total
        &&& self.packets.len() == self.total
    }

    /// Packets that are in none of the three buckets.
    pub open spec fn other(self) -> int {
        self.total - self.invalid - self.idle - self.reset
    }
}

/// The statistics after one more line was received.
pub open spec fn recorded(m: SessionModel, raw: Seq<char>) -> SessionModel {
    let p = packet_model(raw);
    SessionModel {
        total: m.total + 1,
        invalid: if p.kind == DCCPacketType::Invalid || p.kind == DCCPacketType::Unknown {
            m.invalid + 1
        } else {
            m.invalid
        },
        idle: if p.kind == DCCPacketType::Idle {
            m.idle + 1
        } else {
            m.idle
        },
        reset: if p.kind == DCCPacketType::Reset {
            m.reset + 1
        } else {
            m.reset
        },
        packets: m.packets.push(p),
        ..m
    }
}

/// The statistics after the lines were received, in order.
pub open spec fn recorded_all(m: SessionModel, raws: Seq<Seq<char>>) -> SessionModel
    decreases raws.len(),
{
    if raws.len() == 0 {
        m
    } else {
        recorded(recorded_all(m, raws.drop_last()), raws.last())
    }
}

/// The statistics with every count at zero and no packet logged.
pub open spec fn cleared(m: SessionModel) -> SessionModel {
    SessionModel { total: 0, invalid: 0, idle: 0, reset: 0, packets: Seq::empty(), ..m }
}

/// Each recorded line adds one to the total and one to exactly one of the
/// buckets: idle, reset, invalid or unknown, and the other packets.
pub proof fn lemma_record_one_bucket(m: SessionModel, raw: Seq<char>)
    requires
        m.wf(),
    ensures
        recorded(m, raw).wf(),
        recorded(m, raw).total == m.total + 1,
        (recorded(m, raw).idle == m.idle + 1) as int + (recorded(m, raw).reset == m.reset + 1) as int
            + (recorded(m, raw).invalid == m.invalid + 1) as int + (recorded(m, raw).other()
            == m.other() + 1) as int == 1,
        recorded(m, raw).idle >= m.idle,
        recorded(m, raw).reset >= m.reset,
        recorded(m, raw).invalid >= m.invalid,
        recorded(m, raw).other() >= m.other(),
{
}

/// After any number of recorded lines the total has grown by exactly that
/// number, and the statistics stay consistent.
pub proof fn lemma_records_total(m: SessionModel, raws: Seq<Seq<char>>)
    requires
        m.wf(),
    ensures
        recorded_all(m, raws).wf(),
        recorded_all(m, raws).total == m.total + raws.len(),
    decreases raws.len(),
{
    if raws.len() > 0 {
        lemma_records_total(m, raws.drop_last());
        lemma_record_one_bucket(recorded_all(m, raws.drop_last()), raws.last());
    }
}

impl View for Data {
    type V = SessionModel;

    closed spec fn view(&self) -> SessionModel {
        SessionModel {
            total: self.total_packets as nat,
            invalid: self.invalid_packets as nat,
            idle: self.idle_packets as nat,
            reset: self.reset_packets as nat,
            hardware: self.hardware@,
            firmware: self.firmware@,
            packets: self.packets@.map_values(|p: DCCPacket| p@),
        }
    }
}

impl Data {
    pub open spec fn wf(&self) -> bool {
        self@.wf()
    }

    pub fn new(hardware: &str, firmware: &str) -> (d: Data)
        ensures
            d.wf(),
            d@ == (SessionModel {
                total: 0,
                invalid: 0,
                idle: 0,
                reset: 0,
                hardware: hardware@,
                firmware: firmware@,
                packets: Seq::empty(),
            }),
    {
        let d = Data {
            total_packets: 0,
            invalid_packets: 0,
            idle_packets: 0,
            reset_packets: 0,
            hardware: String::from_str(hardware),
            firmware: String::from_str(firmware),
            packets: Vec::new(),
        };
        assert(d@.packets == Seq::<PacketModel>::empty());
        d
    }

    /// Decodes and classifies a received line, counts it and logs it.
    pub fn add_packet(&mut self, raw: &str)
        requires
            old(self).wf(),
            old(self)@.total < u64::MAX,
        ensures
            final(self).wf(),
            final(self)@ == recorded(old(self)@, raw@),
    {
        let packet = DCCPacket::new(raw);
        self.total_packets = self.total_packets + 1;
        match packet.kind() {
            DCCPacketType::Invalid | DCCPacketType::Unknown => {
                self.invalid_packets = self.invalid_packets + 1;
            },
            DCCPacketType::Idle => {
                self.idle_packets = self.idle_packets + 1;
            },
            DCCPacketType::Reset => {
                self.reset_packets = self.reset_packets + 1;
            },
            _ => {},
        }
        self.packets.push(packet);
        assert(self@.packets == old(self)@.packets.push(packet_model(raw@)));
    }

    /// Sets every count to zero and empties the log; the hardware and
    /// firmware names stay.
    pub fn clear(&mut self)
        ensures
            final(self).wf(),
            final(self)@ == cleared(old(self)@),
    {
        self.total_packets = 0;
        self.invalid_packets = 0;
        self.idle_packets = 0;
        self.reset_packets = 0;
        self.packets.clear();
        assert(self@.packets == Seq::<PacketModel>::empty());
    }

    pub fn total_packets(&self) -> (r: u64)
        ensures
            r == self@.total,
    {
        self.total_packets
    }

    /// Packets that were neither invalid nor unknown.
    pub fn valid_packets(&self) -> (r: u64)
        requires
            self.wf(),
        ensures
            r == self@.total - self@.invalid,
    {
        self.total_packets - self.invalid_packets
    }

    pub fn invalid_packets(&self) -> (r: u64)
        ensures
            r == self@.invalid,
    {
        self.invalid_packets
    }

    pub fn idle_packets(&self) -> (r: u64)
        ensures
            r == self@.idle,
    {
        self.idle_packets
    }

    pub fn reset_packets(&self) -> (r: u64)
        ensures
            r == self@.reset,
    {
        self.reset_packets
    }

    pub fn hardware(&self) -> (r: &str)
        ensures
            r@ == self@.hardware,
    {
        self.hardware.as_str()
    }

    pub fn firmware(&self) -> (r: &str)
        ensures
            r@ == self@.firmware,
    {
        self.firmware.as_str()
    }

    /// The logged packets, oldest first.
    pub fn packets(&self) -> (r: &Vec<DCCPacket>)
        ensures
            r@.map_values(|p: DCCPacket| p@) == self@.packets,
    {
        &self.packets
    }
}

} // verus!
