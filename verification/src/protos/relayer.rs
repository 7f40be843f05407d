//! Messages of the relayer.

use crate::protos::packet::PacketBatch;
use crate::protos::packet::PacketView;
use crate::protos::shared::Header;
use crate::protos::shared::Heartbeat;
use crate::protos::shared::Socket;
use vstd::prelude::*;

verus! {

/// What the relayer sends to a subscriber.
#[derive(Clone, Debug, PartialEq, Eq)]
pub enum Msg {
    Batch(PacketBatch),
    Heartbeat(Heartbeat),
}

/// A message to a subscriber.
#[derive(Clone, Debug, PartialEq, Eq)]
pub struct SubscribePacketsResponse {
    pub header: Option<Header>,
    pub msg: Option<Msg>,
}

/// What the relayer sends to a subscriber, as a mathematical value.
pub enum MsgView {
    Batch(Seq<PacketView>),
    Heartbeat(Heartbeat),
}

/// A message to a subscriber as a mathematical value.
pub struct ResponseView {
    pub header: Option<Header>,
    pub msg: Option<MsgView>,
}

impl View for SubscribePacketsResponse {
    type V = ResponseView;

    open spec fn view(&self) -> ResponseView {
        ResponseView {
            header: self.header,
            msg: match self.msg {
                Some(Msg::Batch(batch)) => Some(MsgView::Batch(batch@)),
                Some(Msg::Heartbeat(heartbeat)) => Some(MsgView::Heartbeat(heartbeat)),
                None => None,
            },
        }
    }
}

/// Where a validator is to receive transactions.
#[derive(Clone, Debug, PartialEq, Eq)]
pub struct GetTpuConfigsResponse {
    pub tpu: Option<Socket>,
    pub tpu_forward: Option<Socket>,
}

} // verus!
