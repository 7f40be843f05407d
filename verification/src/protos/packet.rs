//! Packets.

use vstd::prelude::*;

verus! {

/// Marks on a packet.
#[derive(Clone, Copy, Debug, PartialEq, Eq)]
pub struct PacketFlags {
    pub discard: bool,
    pub forwarded: bool,
    pub repair: bool,
    pub simple_vote_tx: bool,
    pub tracer_packet: bool,
    pub from_staked_node: bool,
}

/// What is known of a packet beside its bytes.
#[derive(Clone, Debug, PartialEq, Eq)]
pub struct Meta {
    pub size: u64,
    pub addr: String,
    pub port: u32,
    pub flags: Option<PacketFlags>,
    pub sender_stake: u64,
}

impl Meta {
    /// A copy.
    pub fn copy(&self) -> (r: Self)
        ensures
            r == *self,
    {
        Meta {
            size: self.size,
            addr: self.addr.clone(),
            port: self.port,
            flags: self.flags,
            sender_stake: self.sender_stake,
        }
    }
}

/// A packet.
#[derive(Clone, Debug, PartialEq, Eq)]
pub struct Packet {
    pub data: Vec<u8>,
    pub meta: Option<Meta>,
}

/// A packet as a mathematical value.
pub struct PacketView {
    pub data: Seq<u8>,
    pub meta: Option<Meta>,
}

impl View for Packet {
    type V = PacketView;

    open spec fn view(&self) -> PacketView {
        PacketView { data: self.data@, meta: self.meta }
    }
}

/// Packets as mathematical values.
pub open spec fn packets_view(packets: Seq<Packet>) -> Seq<PacketView> {
    packets.map_values(|p: Packet| p@)
}

/// Packets that travel together.
#[derive(Clone, Debug, PartialEq, Eq)]
pub struct PacketBatch {
    pub packets: Vec<Packet>,
}

impl View for PacketBatch {
    type V = Seq<PacketView>;

    open spec fn view(&self) -> Seq<PacketView> {
        packets_view(self.packets@)
    }
}

/// A packet as it comes out of signature verification.
#[derive(Clone, Debug, PartialEq, Eq)]
pub struct BankingPacket {
    /// Whether the packet is to be ignored from here on.
    pub discard: bool,
    /// The bytes of the packet, where they can be read.
    pub data: Option<Vec<u8>>,
    /// What is known of the packet beside its bytes.
    pub meta: Meta,
}

/// Packets as they come out of signature verification, batch by batch.
pub type BankingPacketBatch = Vec<Vec<BankingPacket>>;

} // verus!
