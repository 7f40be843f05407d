//! What stands between a validator and its block engine.

use crate::protos::block_engine::BlockEngineEndpoint;
use crate::protos::block_engine::GetBlockEngineEndpointResponse;
use crate::table::Key;
use crate::table::Table;
use vstd::prelude::*;

verus! {

/// The address that a request came from.
#[derive(Clone, Copy, Debug, PartialEq, Eq)]
pub enum PeerAddr {
    V4 { ipv4: [u8; 4], port: u16 },
    V6 { ipv6: [u8; 16], port: u16, flowinfo: u32, scope_id: u32 },
}

impl Key for PeerAddr {
    fn same(&self, other: &Self) -> (r: bool) {
        match (self, other) {
            (PeerAddr::V4 { ipv4, port }, PeerAddr::V4 { ipv4: other_ip, port: other_port }) => {
                ipv4.same(other_ip) && *port == *other_port
            },
            (
                PeerAddr::V6 { ipv6, port, flowinfo, scope_id },
                PeerAddr::V6 {
                    ipv6: other_ip,
                    port: other_port,
                    flowinfo: other_flowinfo,
                    scope_id: other_scope_id,
                },
            ) => {
                ipv6.same(other_ip) && *port == *other_port && *flowinfo == *other_flowinfo
                    && *scope_id == *other_scope_id
            },
            _ => false,
        }
    }
}

/// Clients of the block engine, one for each peer that asked for one.
pub struct ClientPool<C> {
    clients: Table<PeerAddr, C>,
}

impl<C> View for ClientPool<C> {
    type V = Map<PeerAddr, C>;

    closed spec fn view(&self) -> Map<PeerAddr, C> {
        self.clients@
    }
}

/// The client that is kept for a peer.
pub open spec fn pooled<C>(pool: Map<PeerAddr, C>, peer: Option<PeerAddr>) -> Option<C> {
    match peer {
        Some(addr) => if pool.contains_key(addr) {
            Some(pool[addr])
        } else {
            None
        },
        None => None,
    }
}

/// A pool in which a client is kept for a peer. Where the peer is not known,
/// none is.
pub open spec fn pool_with<C>(
    pool: Map<PeerAddr, C>,
    peer: Option<PeerAddr>,
    client: C,
) -> Map<PeerAddr, C> {
    match peer {
        Some(addr) => pool.insert(addr, client),
        None => pool,
    }
}

impl<C> ClientPool<C> {
    /// No peer has two clients.
    pub closed spec fn wf(&self) -> bool {
        self.clients.wf()
    }

    /// An empty pool.
    pub fn new() -> (r: Self)
        ensures
            r.wf(),
            r@ == Map::<PeerAddr, C>::empty(),
    {
        ClientPool { clients: Table::new() }
    }

    /// The client that is kept for a peer. Where there is none, a new one has to
    /// be made.
    pub fn get_pooled_client(&self, peer: Option<PeerAddr>) -> (r: Option<&C>)
        requires
            self.wf(),
        ensures
            match r {
                Some(client) => pooled(self@, peer) == Some(*client),
                None => pooled(self@, peer) is None,
            },
    {
        match peer {
            Some(addr) => self.clients.get(&addr),
            None => None,
        }
    }

    /// Keeps a client for a peer, where the peer is known.
    pub fn add_pooled_client(&mut self, peer: Option<PeerAddr>, client: C)
        requires
            old(self).wf(),
        ensures
            final(self).wf(),
            final(self)@ == pool_with(old(self)@, peer, client),
    {
        match peer {
            Some(addr) => self.clients.insert(addr, client),
            None => {},
        }
    }
}

/// A client that is kept for a peer is the one that the peer gets, and no other
/// peer's client changes.
pub proof fn law_pool_gives_back_the_client<C>(
    pool: Map<PeerAddr, C>,
    addr: PeerAddr,
    other: Option<PeerAddr>,
    client: C,
)
    ensures
        pooled(pool_with(pool, Some(addr), client), Some(addr)) == Some(client),
        other != Some(addr) ==> pooled(pool_with(pool, Some(addr), client), other) == pooled(
            pool,
            other,
        ),
{
}

/// A peer that is not known gets no client out of a pool, and leaves none in it.
pub proof fn law_unknown_peer_is_not_pooled<C>(pool: Map<PeerAddr, C>, client: C)
    ensures
        pooled(pool, None) is None,
        pool_with(pool, None, client) == pool,
{
}

/// The code of an answer that refuses permission.
pub const PERMISSION_DENIED: i32 = 7;

/// The stream of the block engine that goes along with the local one. Where the
/// block engine refuses permission there is none, and the local stream is served
/// alone; any other error is passed on.
pub open spec fn upstream_of<S, E>(reply: Result<S, (i32, E)>) -> Result<Option<S>, E> {
    match reply {
        Ok(stream) => Ok(Some(stream)),
        Err((code, error)) => if code == PERMISSION_DENIED {
            Ok(None)
        } else {
            Err(error)
        },
    }
}

/// Decides on the stream of the block engine. An error comes with its code.
pub fn upstream_or_proxy_only<S, E>(reply: Result<S, (i32, E)>) -> (r: Result<Option<S>, E>)
    ensures
        r == upstream_of(reply),
{
    match reply {
        Ok(stream) => Ok(Some(stream)),
        Err((code, error)) => if code == PERMISSION_DENIED {
            Ok(None)
        } else {
            Err(error)
        },
    }
}

/// What came from the block engine.
pub enum UpstreamEvent<T> {
    /// The peer is gone, or the program shuts down.
    Cancelled,
    /// A message.
    Item(T),
    /// The stream ended.
    Ended,
    /// The stream failed.
    Failed,
}

/// What is done with what came from the block engine.
pub enum UpstreamAction<T> {
    /// Pass a message on, and wait for the next.
    Publish(T),
    /// Stop listening.
    Stop,
}

/// One step of listening to the block engine: messages are passed on until the
/// first event that is none.
pub fn pump_upstream<T>(event: UpstreamEvent<T>) -> (r: UpstreamAction<T>)
    ensures
        match event {
            UpstreamEvent::Item(item) => r == UpstreamAction::Publish(item),
            _ => r is Stop,
        },
{
    match event {
        UpstreamEvent::Item(item) => UpstreamAction::Publish(item),
        UpstreamEvent::Cancelled => UpstreamAction::Stop,
        UpstreamEvent::Ended => UpstreamAction::Stop,
        UpstreamEvent::Failed => UpstreamAction::Stop,
    }
}

/// What the local stream has for a peer.
pub enum ProxyEvent<T> {
    /// Nothing yet.
    Pending,
    /// A message.
    Item(T),
    /// So many messages were lost before they got here.
    Lagged(u64),
    /// Nothing any more.
    Closed,
}

/// What a peer gets from the local stream.
pub enum ProxyAction<T> {
    /// Nothing yet.
    Wait,
    /// A message.
    Yield(T),
    /// Nothing for this event: look again.
    Skip,
    /// The end of the stream.
    End,
}

/// One look at the local stream. A stream that was cancelled ends, whatever it
/// still has; else messages go to the peer, and losses go unnoticed.
pub fn proxy_stream<T>(cancelled: bool, event: ProxyEvent<T>) -> (r: ProxyAction<T>)
    ensures
        cancelled ==> r is End,
        !cancelled ==> match event {
            ProxyEvent::Pending => r is Wait,
            ProxyEvent::Item(item) => r == ProxyAction::Yield(item),
            ProxyEvent::Lagged(_) => r is Skip,
            ProxyEvent::Closed => r is End,
        },
{
    if cancelled {
        return ProxyAction::End;
    }
    match event {
        ProxyEvent::Pending => ProxyAction::Wait,
        ProxyEvent::Item(item) => ProxyAction::Yield(item),
        ProxyEvent::Lagged(_) => ProxyAction::Skip,
        ProxyEvent::Closed => ProxyAction::End,
    }
}

/// An endpoint as the stand-in announces it: its own URL with the address for
/// shreds that the block engine gave.
pub open spec fn is_local_endpoint(
    url: Seq<char>,
    upstream: BlockEngineEndpoint,
    local: BlockEngineEndpoint,
) -> bool {
    &&& local.block_engine_url@ == url
    &&& local.shredstream_receiver_address@ == upstream.shredstream_receiver_address@
}

/// The service that stands between a validator and its block engine.
pub struct BlockengineService {
    /// The URL of the block engine.
    pub blockengine_url: String,
    /// The URL under which the stand-in is reached.
    pub local_blockengine_url: String,
}

impl BlockengineService {
    /// A service for a block engine.
    pub fn new(blockengine_url: String, local_blockengine_url: String) -> (r: Self)
        ensures
            r.blockengine_url == blockengine_url,
            r.local_blockengine_url == local_blockengine_url,
    {
        BlockengineService { blockengine_url, local_blockengine_url }
    }

    fn local_endpoint(&self, upstream: &BlockEngineEndpoint) -> (r: BlockEngineEndpoint)
        ensures
            is_local_endpoint(self.local_blockengine_url@, *upstream, r),
    {
        BlockEngineEndpoint {
            block_engine_url: self.local_blockengine_url.clone(),
            shredstream_receiver_address: upstream.shredstream_receiver_address.clone(),
        }
    }

    /// The endpoints that the block engine named, each with the URL of the
    /// stand-in in place of its own.
    pub fn get_block_engine_endpoints(&self, upstream: &GetBlockEngineEndpointResponse) -> (r:
        GetBlockEngineEndpointResponse)
        ensures
            match upstream.global_endpoint {
                Some(endpoint) => r.global_endpoint is Some && is_local_endpoint(
                    self.local_blockengine_url@,
                    endpoint,
                    r.global_endpoint->0,
                ),
                None => r.global_endpoint is None,
            },
            r.regioned_endpoints@.len() == upstream.regioned_endpoints@.len(),
            forall|i: int|
                0 <= i < upstream.regioned_endpoints@.len() ==> is_local_endpoint(
                    self.local_blockengine_url@,
                    upstream.regioned_endpoints@[i],
                    #[trigger] r.regioned_endpoints@[i],
                ),
    {
        let global_endpoint = match &upstream.global_endpoint {
            Some(endpoint) => Some(self.local_endpoint(endpoint)),
            None => None,
        };
        let mut regioned_endpoints: Vec<BlockEngineEndpoint> = Vec::new();
        let n: usize = upstream.regioned_endpoints.len();
        let mut i: usize = 0;
        while i < n
            invariant
                i <= n,
                n == upstream.regioned_endpoints@.len(),
                regioned_endpoints@.len() == i,
                forall|j: int|
                    0 <= j < i ==> is_local_endpoint(
                        self.local_blockengine_url@,
                        upstream.regioned_endpoints@[j],
                        #[trigger] regioned_endpoints@[j],
                    ),
            decreases n - i,
        {
            regioned_endpoints.push(self.local_endpoint(&upstream.regioned_endpoints[i]));
            i += 1;
        }
        GetBlockEngineEndpointResponse { global_endpoint, regioned_endpoints }
    }
}

} // verus!
