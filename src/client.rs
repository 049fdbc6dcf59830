//! The client core: a registered receive pool, one reserved slot per GET in
//! flight, and the table of pending requests keyed by request id.
use crate::error::KvError;
use crate::memory::{disjoint, footprint, lemma_overwrite_inside, MemoryPool, MemoryPoolConfig, PoolAllocation, PoolStats};
use crate::messages::{
    DeleteRequest, GetRequest, GetResponse, HeartbeatRequest, PutRequest, RegisterClientRequest,
    RegisterClientResponse, ValueSource,
};
use crate::protocol::{copy_bytes, DomainAddress, EntryView, ValueLocation};
use crate::server::{after_lookup, held_by, lookup, KvCacheServer, SERVER_POOL_ALIGNMENT};
use crate::transport::{RdmaTransport, TransportConfig};
use std::collections::HashMap;
use vstd::prelude::*;

verus! {

/// The slot reserved in the receive pool for each GET: the largest value a
/// client reads.
pub const MAX_VALUE_SIZE: usize = 1024 * 1024;

/// Values shorter than this travel inline in a PUT request.
pub const INLINE_VALUE_LIMIT: usize = 64 * 1024;

/// Alignment of the receive pool's slots: one page.
pub const CLIENT_POOL_ALIGNMENT: usize = 4096;

/// Client settings.
#[derive(Clone, Debug)]
pub struct ClientConfig {
    pub client_id: u32,
    pub server_addr: String,
    pub receive_buffer_size: usize,
    pub transport: TransportConfig,
}

impl Default for ClientConfig {
    /// Client 1 of `http://[::1]:50051` with a 64 MiB receive buffer.
    fn default() -> (r: Self)
        ensures
            r.client_id == 1,
            r.server_addr@ == "http://[::1]:50051"@,
            r.receive_buffer_size == 64 * 1024 * 1024,
            r.transport.node_id == 0 && r.transport.num_domains == 1 && r.transport.use_mock,
    {
        ClientConfig {
            client_id: 1,
            server_addr: "http://[::1]:50051".to_owned(),
            receive_buffer_size: 64 * 1024 * 1024,
            transport: TransportConfig::default(),
        }
    }
}

/// The slot of one GET in flight.
#[derive(Clone, Copy, Debug, PartialEq, Eq, Structural)]
pub struct PendingAllocation {
    pub allocation: PoolAllocation,
    pub expected_length: u64,
}

/// The server a client registered with.
#[derive(Clone, Debug)]
pub struct ServerInfo {
    pub server_id: u32,
    pub domain_addresses: Vec<DomainAddress>,
}

/// What a client's GET of `key` at `now` returns when the server holds the
/// index `m`: the value, or the error the server reports.
pub open spec fn client_get_result(m: Map<Seq<u8>, EntryView>, key: Seq<u8>, now: u64) -> Result<
    Seq<u8>,
    KvError,
> {
    match lookup(m, key, now) {
        None => Err(KvError::NotFound),
        Some(v) => if v.len() > MAX_VALUE_SIZE {
            Err(KvError::BufferTooSmall)
        } else {
            Ok(v)
        },
    }
}

/// A cache client.
pub struct KvCacheClient {
    config: ClientConfig,
    transport: RdmaTransport,
    memory_pool: MemoryPool,
    pending: HashMap<u64, PendingAllocation>,
    request_counter: u64,
    server_info: Option<ServerInfo>,
}

impl KvCacheClient {
    pub closed spec fn pending_spec(&self) -> Map<u64, PendingAllocation> {
        self.pending@
    }

    /// The id the next GET takes.
    pub closed spec fn next_request_id(&self) -> u64 {
        self.request_counter
    }

    pub closed spec fn connected(&self) -> bool {
        self.server_info is Some
    }

    /// The id and domain addresses of the server this client registered
    /// with.
    pub closed spec fn server_identity(&self) -> Option<(u32, Seq<Seq<u8>>)> {
        match self.server_info {
            Some(info) => Some((info.server_id, info.domain_addresses@.map_values(|a: DomainAddress| a@))),
            None => None,
        }
    }

    pub closed spec fn pool(&self) -> MemoryPool {
        self.memory_pool
    }

    pub closed spec fn config_spec(&self) -> ClientConfig {
        self.config
    }

    pub closed spec fn transport_spec(&self) -> RdmaTransport {
        self.transport
    }

    pub closed spec fn wf(&self) -> bool {
        let pool = self.memory_pool;
        let pending = self.pending@;
        &&& pool.wf()
        &&& pool.alignment() == CLIENT_POOL_ALIGNMENT
        &&& forall|id: u64| #[trigger] pending.contains_key(id) ==> id < self.request_counter
        &&& forall|id: u64|
            #[trigger] pending.contains_key(id) ==> {
                let a = pending[id].allocation;
                &&& a.size == MAX_VALUE_SIZE
                &&& pending[id].expected_length == MAX_VALUE_SIZE
                &&& pool.live().contains_key(a.offset as int)
                &&& pool.live()[a.offset as int] == footprint(MAX_VALUE_SIZE as nat, CLIENT_POOL_ALIGNMENT as nat)
                &&& a.offset + MAX_VALUE_SIZE <= pool.bytes().len()
            }
        &&& forall|id1: u64, id2: u64|
            #[trigger] pending.contains_key(id1) && #[trigger] pending.contains_key(id2) && id1 != id2
                ==> pending[id1].allocation.offset != pending[id2].allocation.offset
    }

    /// `next` is the receive pool once the slot of `request_id` is
    /// released: the slot leaves the live blocks and joins the free list.
    /// When the id is not pending the pool stays as it is.
    pub open spec fn released(&self, request_id: u64, next: MemoryPool) -> bool {
        if self.pending_spec().contains_key(request_id) {
            let a = self.pending_spec()[request_id].allocation;
            &&& next.live() == self.pool().live().remove(a.offset as int)
            &&& self.pool().allocator_spec().deallocate_post(a.offset, a.size as nat, next.allocator_spec())
            &&& next.bytes() == self.pool().bytes()
            &&& next.descriptor_spec() == self.pool().descriptor_spec()
        } else {
            next == self.pool()
        }
    }

    /// Request ids are unique: every pending id lies below the next one, so
    /// the id the next GET takes is not pending, and no two pending requests
    /// share an id.
    pub proof fn lemma_next_id_is_fresh(&self)
        requires
            self.wf(),
        ensures
            !self.pending_spec().contains_key(self.next_request_id()),
            forall|id: u64| #[trigger] self.pending_spec().contains_key(id) ==> id < self.next_request_id(),
    {
    }

    /// A client with a zeroed receive pool of `config.receive_buffer_size`
    /// bytes, nothing pending, not yet registered. Fails with
    /// `NotImplemented` unless the transport is the mock fabric.
    pub fn new(config: ClientConfig) -> (r: Result<Self, KvError>)
        ensures
            r is Ok <==> config.transport.use_mock,
            r matches Err(e) ==> e == KvError::NotImplemented,
            r matches Ok(c) ==> {
                &&& c.wf()
                &&& !c.connected()
                &&& c.pending_spec() == Map::<u64, PendingAllocation>::empty()
                &&& c.next_request_id() == 0
                &&& c.pool().bytes().len() == config.receive_buffer_size
                &&& c.pool().allocator_spec().capacity_spec() == config.receive_buffer_size as int / CLIENT_POOL_ALIGNMENT as int * CLIENT_POOL_ALIGNMENT as int
                &&& c.pool().allocator_spec().high_water() == 0
                &&& c.pool().allocator_spec().free_blocks().len() == 0
                &&& c.pool().used_spec() == 0
                &&& c.config_spec().client_id == config.client_id
            },
    {
        let mut transport_config = config.transport;
        transport_config.node_id = config.client_id;
        let transport = match RdmaTransport::new(transport_config) {
            Ok(t) => t,
            Err(e) => {
                return Err(e);
            },
        };
        let pool_config = MemoryPoolConfig { size: config.receive_buffer_size, alignment: CLIENT_POOL_ALIGNMENT };
        let memory_pool = match MemoryPool::new(pool_config, config.client_id, transport.domain_addresses()) {
            Ok(p) => p,
            Err(e) => {
                return Err(e);
            },
        };
        let pending: HashMap<u64, PendingAllocation> = HashMap::new();
        let c = KvCacheClient { config, transport, memory_pool, pending, request_counter: 0, server_info: None };
        assert(c.pending@ =~= Map::<u64, PendingAllocation>::empty());
        Ok(c)
    }

    /// Whether the client has registered with a server.
    pub fn is_connected(&self) -> (r: bool)
        ensures
            r == self.connected(),
    {
        self.server_info.is_some()
    }

    /// Receive-pool occupancy.
    pub fn memory_stats(&self) -> (r: PoolStats)
        requires
            self.wf(),
        ensures
            r.total == self.pool().bytes().len(),
            r.used == self.pool().used_spec(),
    {
        self.memory_pool.stats()
    }

    /// The registration this client sends: its id, its domains' addresses
    /// and its receive buffer's size.
    pub fn registration(&self) -> (r: RegisterClientRequest)
        ensures
            r.client_id == self.config_spec().client_id,
            r.receive_buffer_size == self.config_spec().receive_buffer_size,
            r.domain_addresses@.map_values(|b: Vec<u8>| b@) == self.transport_spec().addresses(),
    {
        let own = self.transport.domain_addresses();
        let mut addrs: Vec<Vec<u8>> = Vec::new();
        let mut j: usize = 0;
        while j < own.len()
            invariant
                j <= own@.len(),
                addrs@.len() == j,
                forall|k: int| 0 <= k < j ==> #[trigger] addrs@[k]@ == own@[k]@,
            decreases own@.len() - j,
        {
            addrs.push(copy_bytes(own[j].as_bytes()));
            j += 1;
        }
        assert(addrs@.map_values(|b: Vec<u8>| b@) =~= own@.map_values(|a: DomainAddress| a@));
        RegisterClientRequest {
            client_id: self.config.client_id,
            domain_addresses: addrs,
            receive_buffer_size: self.config.receive_buffer_size as u64,
        }
    }

    /// Takes in the server's answer to the registration; a refusal fails
    /// with `NotConnected` and changes nothing.
    pub fn on_registered(&mut self, response: &RegisterClientResponse) -> (r: Result<(), KvError>)
        requires
            old(self).wf(),
        ensures
            final(self).wf(),
            r is Ok <==> response.success,
            r matches Err(e) ==> e == KvError::NotConnected,
            final(self).connected() == (old(self).connected() || response.success),
            response.success ==> final(self).server_identity() == Some(
                (response.server_id, response.server_domain_addresses@.map_values(|b: Vec<u8>| b@)),
            ),
            !response.success ==> final(self).server_identity() == old(self).server_identity(),
            final(self).transport_spec() == old(self).transport_spec(),
            final(self).pending_spec() == old(self).pending_spec(),
            final(self).next_request_id() == old(self).next_request_id(),
            final(self).pool() == old(self).pool(),
            final(self).config_spec() == old(self).config_spec(),
    {
        if !response.success {
            return Err(KvError::NotConnected);
        }
        let mut addrs: Vec<DomainAddress> = Vec::new();
        let mut j: usize = 0;
        while j < response.server_domain_addresses.len()
            invariant
                j <= response.server_domain_addresses@.len(),
                addrs@.len() == j,
                forall|k: int| 0 <= k < j ==> #[trigger] addrs@[k]@ == response.server_domain_addresses@[k]@,
            decreases response.server_domain_addresses@.len() - j,
        {
            addrs.push(DomainAddress::new(copy_bytes(response.server_domain_addresses[j].as_slice())));
            j += 1;
        }
        assert(addrs@.map_values(|a: DomainAddress| a@) =~= response.server_domain_addresses@.map_values(
            |b: Vec<u8>| b@,
        ));
        self.server_info = Some(ServerInfo { server_id: response.server_id, domain_addresses: addrs });
        Ok(())
    }

    /// Registers with `server`, which runs in this address space: the server
    /// records this client's id, domain addresses and receive buffer size,
    /// and the client keeps the server's id and domain addresses.
    pub fn connect(&mut self, server: &mut KvCacheServer) -> (r: Result<(), KvError>)
        requires
            old(self).wf(),
            old(server).wf(),
        ensures
            final(self).wf(),
            final(server).wf(),
            r is Ok,
            final(self).connected(),
            final(self).pending_spec() == old(self).pending_spec(),
            final(self).next_request_id() == old(self).next_request_id(),
            final(self).pool() == old(self).pool(),
            final(self).config_spec() == old(self).config_spec(),
            final(server).index() == old(server).index(),
            final(server).pool() == old(server).pool(),
            final(server).clients_spec().dom() == old(server).clients_spec().dom().insert(
                old(self).config_spec().client_id,
            ),
            forall|id: u32|
                id != old(self).config_spec().client_id && #[trigger] old(server).clients_spec().contains_key(id)
                    ==> final(server).clients_spec()[id] == old(server).clients_spec()[id],
            final(server).clients_spec()[old(self).config_spec().client_id].client_id == old(self).config_spec().client_id,
            final(server).clients_spec()[old(self).config_spec().client_id].receive_buffer_size == old(self).config_spec().receive_buffer_size,
            final(server).clients_spec()[old(self).config_spec().client_id].domain_addresses@.map_values(
                |a: DomainAddress| a@,
            ) == old(self).transport_spec().addresses(),
            final(self).server_identity() == Some(
                (old(server).config_spec().node_id, old(server).transport_spec().addresses()),
            ),
    {
        let request = self.registration();
        let response = server.register_client(&request);
        self.on_registered(&response)
    }

    /// Starts a GET: takes the next request id, reserves a slot of
    /// `MAX_VALUE_SIZE` bytes, records it as pending, and builds the request
    /// naming that slot. Fails with `NotConnected` before registration, with
    /// `Internal` when the ids are spent, and with `PoolExhausted` when no
    /// slot is free (the id is then used up).
    pub fn begin_get(&mut self, key: &[u8]) -> (r: Result<GetRequest, KvError>)
        requires
            old(self).wf(),
        ensures
            final(self).wf(),
            final(self).connected() == old(self).connected(),
            final(self).config_spec() == old(self).config_spec(),
            final(self).pool().bytes() == old(self).pool().bytes(),
            final(self).pool().descriptor_spec() == old(self).pool().descriptor_spec(),
            final(self).transport_spec() == old(self).transport_spec(),
            final(self).server_identity() == old(self).server_identity(),
            !old(self).connected() ==> r == Err::<GetRequest, KvError>(KvError::NotConnected) && *final(self) == *old(self),
            old(self).connected() && old(self).next_request_id() == u64::MAX ==> r == Err::<
                GetRequest,
                KvError,
            >(KvError::Internal) && *final(self) == *old(self),
            old(self).connected() && old(self).next_request_id() < u64::MAX ==> {
                &&& final(self).next_request_id() == old(self).next_request_id() + 1
                &&& r is Ok <==> old(self).pool().allocator_spec().can_fit(MAX_VALUE_SIZE as nat)
                &&& r matches Err(e) ==> e == KvError::PoolExhausted && final(self).pending_spec() == old(self).pending_spec()
                    && final(self).pool() == old(self).pool()
                &&& r matches Ok(req) ==> {
                    &&& req.request_id == old(self).next_request_id()
                    &&& req.key@ == key@
                    &&& !old(self).pending_spec().contains_key(req.request_id)
                    &&& final(self).pending_spec().dom() == old(self).pending_spec().dom().insert(req.request_id)
                    &&& forall|id: u64| #[trigger]
                        old(self).pending_spec().contains_key(id) ==> final(self).pending_spec()[id] == old(self).pending_spec()[id]
                    &&& (req.response_location matches Some(loc) && loc.node_id == old(self).config_spec().client_id
                        && loc.length == MAX_VALUE_SIZE && loc.mr_descriptor@ == old(self).pool().descriptor_spec()
                        && loc.offset == final(self).pending_spec()[req.request_id].allocation.offset
                        && !old(self).pool().live().contains_key(loc.offset as int)
                        && final(self).pool().live() == old(self).pool().live().insert(
                        loc.offset as int,
                        footprint(MAX_VALUE_SIZE as nat, CLIENT_POOL_ALIGNMENT as nat),
                    ) && forall|id: u64| #[trigger]
                        old(self).pending_spec().contains_key(id) ==> disjoint(
                            loc.offset as int,
                            MAX_VALUE_SIZE as int,
                            old(self).pending_spec()[id].allocation.offset as int,
                            MAX_VALUE_SIZE as int,
                        ))
                }
            },
    {
        broadcast use vstd::std_specs::hash::group_hash_axioms;

        if self.server_info.is_none() {
            return Err(KvError::NotConnected);
        }
        if self.request_counter == u64::MAX {
            return Err(KvError::Internal);
        }
        let ghost pool0 = self.memory_pool;
        let request_id = self.request_counter;
        self.request_counter = self.request_counter + 1;
        let allocation = match self.memory_pool.allocate(MAX_VALUE_SIZE) {
            Ok(a) => a,
            Err(e) => {
                return Err(e);
            },
        };
        proof {
            pool0.lemma_bounds();
            assert(footprint(MAX_VALUE_SIZE as nat, CLIENT_POOL_ALIGNMENT as nat) == MAX_VALUE_SIZE);
            assert forall|id: u64| #[trigger] old(self).pending@.contains_key(id) implies disjoint(
                allocation.offset as int,
                MAX_VALUE_SIZE as int,
                old(self).pending@[id].allocation.offset as int,
                MAX_VALUE_SIZE as int,
            ) by {
                assert(pool0.live().contains_key(old(self).pending@[id].allocation.offset as int));
            }
        }
        self.pending.insert(request_id, PendingAllocation { allocation, expected_length: MAX_VALUE_SIZE as u64 });
        proof {
            let pending = self.pending@;
            assert forall|id1: u64, id2: u64|
                #[trigger] pending.contains_key(id1) && #[trigger] pending.contains_key(id2) && id1 != id2
                    implies pending[id1].allocation.offset != pending[id2].allocation.offset by {
                if id1 == request_id {
                    assert(old(self).pending@.contains_key(id2));
                } else if id2 == request_id {
                    assert(old(self).pending@.contains_key(id1));
                } else {
                    assert(old(self).pending@.contains_key(id1) && old(self).pending@.contains_key(id2));
                }
            }
        }
        let location = ValueLocation::new(
            self.config.client_id,
            self.memory_pool.descriptor().duplicate(),
            allocation.offset as u64,
            MAX_VALUE_SIZE as u64,
        );
        Ok(GetRequest { key: copy_bytes(key), response_location: Some(location), request_id })
    }

    /// Takes the pending entry of `request_id` out of the table and releases
    /// its slot.
    fn release_pending(&mut self, request_id: u64) -> (r: Option<PendingAllocation>)
        requires
            old(self).wf(),
        ensures
            final(self).wf(),
            r is Some <==> old(self).pending_spec().contains_key(request_id),
            r matches Some(p) ==> p == old(self).pending_spec()[request_id],
            final(self).pending_spec() == old(self).pending_spec().remove(request_id),
            old(self).released(request_id, final(self).pool()),
            final(self).next_request_id() == old(self).next_request_id(),
            final(self).connected() == old(self).connected(),
            final(self).server_identity() == old(self).server_identity(),
            final(self).transport_spec() == old(self).transport_spec(),
            final(self).config_spec() == old(self).config_spec(),
    {
        broadcast use vstd::std_specs::hash::group_hash_axioms;

        let removed = self.pending.remove(&request_id);
        match removed {
            Some(p) => {
                self.memory_pool.deallocate(&p.allocation);
                proof {
                    let pending = self.pending@;
                    assert forall|id: u64| #[trigger] pending.contains_key(id) implies self.memory_pool.live().contains_key(
                        pending[id].allocation.offset as int,
                    ) by {
                        assert(old(self).pending@.contains_key(id));
                    }
                    assert forall|id1: u64, id2: u64|
                        #[trigger] pending.contains_key(id1) && #[trigger] pending.contains_key(id2) && id1 != id2
                            implies pending[id1].allocation.offset != pending[id2].allocation.offset by {
                        assert(old(self).pending@.contains_key(id1) && old(self).pending@.contains_key(id2));
                    }
                }
                Some(p)
            },
            None => {
                assert(self.pending@ =~= old(self).pending@.remove(request_id));
                None
            },
        }
    }

    /// Completes a GET with the server's reply: the pending entry leaves the
    /// table and its slot is released on every path. On success the value's
    /// bytes are copied out of the slot first. Fails with `Internal` for an
    /// id that is not pending or a length beyond the slot, and with the
    /// server's message when the reply reports a failure.
    pub fn finish_get(&mut self, response: &GetResponse) -> (r: Result<Vec<u8>, KvError>)
        requires
            old(self).wf(),
        ensures
            final(self).wf(),
            final(self).pending_spec() == old(self).pending_spec().remove(response.request_id),
            old(self).released(response.request_id, final(self).pool()),
            final(self).next_request_id() == old(self).next_request_id(),
            final(self).connected() == old(self).connected(),
            final(self).server_identity() == old(self).server_identity(),
            final(self).transport_spec() == old(self).transport_spec(),
            final(self).config_spec() == old(self).config_spec(),
            !old(self).pending_spec().contains_key(response.request_id) ==> r == Err::<Vec<u8>, KvError>(
                KvError::Internal,
            ),
            old(self).pending_spec().contains_key(response.request_id) ==> {
                let slot = old(self).pending_spec()[response.request_id].allocation.offset;
                &&& !response.success ==> r == Err::<Vec<u8>, KvError>(KvError::Remote(response.error_message))
                &&& response.success && response.value_length > MAX_VALUE_SIZE ==> r == Err::<Vec<u8>, KvError>(
                    KvError::Internal,
                )
                &&& response.success && response.value_length <= MAX_VALUE_SIZE ==> (r matches Ok(v) && v@ == old(self).pool().bytes().subrange(slot as int, slot + response.value_length))
            },
    {
        let pending = match self.release_pending(response.request_id) {
            Some(p) => p,
            None => {
                return Err(KvError::Internal);
            },
        };
        if !response.success {
            return Err(KvError::Remote(response.error_message.clone()));
        }
        if response.value_length > pending.expected_length {
            return Err(KvError::Internal);
        }
        match self.memory_pool.read(pending.allocation.offset, response.value_length as usize) {
            Ok(bytes) => Ok(copy_bytes(bytes)),
            Err(e) => Err(e),
        }
    }

    /// Drops a GET whose reply will not be processed (a deadline, a
    /// cancelled caller): its entry leaves the table and its slot is
    /// released. Says whether it was pending.
    pub fn abandon_get(&mut self, request_id: u64) -> (r: bool)
        requires
            old(self).wf(),
        ensures
            final(self).wf(),
            r == old(self).pending_spec().contains_key(request_id),
            final(self).pending_spec() == old(self).pending_spec().remove(request_id),
            old(self).released(request_id, final(self).pool()),
            final(self).next_request_id() == old(self).next_request_id(),
            final(self).connected() == old(self).connected(),
            final(self).server_identity() == old(self).server_identity(),
            final(self).transport_spec() == old(self).transport_spec(),
            final(self).config_spec() == old(self).config_spec(),
    {
        self.release_pending(request_id).is_some()
    }

    /// Reads `key` from `server`, which runs in this address space: the
    /// value lands in a slot of this client's receive pool by a one-sided
    /// write and is copied out. Fails with `NotConnected` before
    /// registration, with `PoolExhausted` when no slot is free, and with the
    /// server's message when it reports a failure. The pending table is the
    /// same afterwards.
    pub fn get(&mut self, server: &mut KvCacheServer, key: &[u8], now: u64) -> (r: Result<Vec<u8>, KvError>)
        requires
            old(self).wf(),
            old(server).wf(),
        ensures
            final(self).wf(),
            final(server).wf(),
            final(self).pending_spec() == old(self).pending_spec(),
            final(self).connected() == old(self).connected(),
            final(self).server_identity() == old(self).server_identity(),
            final(self).config_spec() == old(self).config_spec(),
            final(self).transport_spec() == old(self).transport_spec(),
            final(self).pool().live() == old(self).pool().live(),
            final(self).pool().descriptor_spec() == old(self).pool().descriptor_spec(),
            old(self).pool().allocator_spec().can_fit(MAX_VALUE_SIZE as nat) ==> final(self).pool().allocator_spec().can_fit(MAX_VALUE_SIZE as nat),
            !old(self).connected() || old(self).next_request_id() == u64::MAX ==> *final(self) == *old(self)
                && final(server).index() == old(server).index() && final(server).pool() == old(server).pool(),
            old(self).connected() && old(self).next_request_id() < u64::MAX ==> final(self).next_request_id()
                == old(self).next_request_id() + 1,
            !old(self).connected() ==> r == Err::<Vec<u8>, KvError>(KvError::NotConnected) && final(server).index()
                == old(server).index(),
            old(self).connected() && old(self).next_request_id() == u64::MAX ==> r == Err::<Vec<u8>, KvError>(
                KvError::Internal,
            ) && final(server).index() == old(server).index(),
            old(self).connected() && old(self).next_request_id() < u64::MAX && !old(self).pool().allocator_spec().can_fit(MAX_VALUE_SIZE as nat) ==> r == Err::<Vec<u8>, KvError>(
                KvError::PoolExhausted,
            ) && final(server).index() == old(server).index() && final(server).pool() == old(server).pool(),
            old(self).connected() && old(self).next_request_id() < u64::MAX && old(self).pool().allocator_spec().can_fit(MAX_VALUE_SIZE as nat) ==> {
                &&& final(server).index() == after_lookup(old(server).index(), key@, now)
                &&& match client_get_result(old(server).index(), key@, now) {
                    Ok(v) => r matches Ok(b) && b@ == v,
                    Err(e) => r matches Err(KvError::Remote(m)) && m@ == e.text(),
                }
            },
    {
        let ghost pool0 = self.memory_pool;
        let request = match self.begin_get(key) {
            Ok(req) => req,
            Err(e) => {
                return Err(e);
            },
        };
        let ghost pool1 = self.memory_pool;
        let ghost slot = self.pending@[request.request_id].allocation.offset as int;
        proof {
            pool1.lemma_bounds();
            assert(self.pending@.contains_key(request.request_id));
            assert(slot + MAX_VALUE_SIZE <= pool1.bytes().len());
        }
        let response = match server.serve_get(&request, now, &mut self.memory_pool) {
            Ok(resp) => resp,
            Err(e) => {
                self.abandon_get(request.request_id);
                return Err(e);
            },
        };
        proof {
            match client_get_result(old(server).index(), key@, now) {
                Ok(v) => {
                    lemma_overwrite_inside(pool1.bytes(), slot, v);
                },
                Err(e) => {},
            }
        }
        let ghost mid = *self;
        let r = self.finish_get(&response);
        proof {
            assert(self.pending@ =~= old(self).pending@);
            assert(mid.pending_spec().contains_key(request.request_id));
            assert(self.memory_pool.live() =~= pool0.live());
            let a = mid.pending_spec()[request.request_id].allocation;
            let q = choose|q: int|
                0 <= q <= mid.pool().allocator_spec().free_blocks().len() && self.memory_pool.allocator_spec().free_blocks()
                    == #[trigger] mid.pool().allocator_spec().free_blocks().insert(
                    q,
                    (a.offset, footprint(a.size as nat, mid.pool().alignment()) as usize),
                );
            assert(footprint(MAX_VALUE_SIZE as nat, CLIENT_POOL_ALIGNMENT as nat) == MAX_VALUE_SIZE);
            assert(self.memory_pool.allocator_spec().free_blocks()[q].1 >= MAX_VALUE_SIZE);
        }
        r
    }

    /// Stores `value` under `key` on `server`, which runs in this address
    /// space, created at `now` with a time to live of `ttl_seconds`. Values of
    /// `INLINE_VALUE_LIMIT` bytes or more would need the remote-read path,
    /// which this version does not offer: they fail with `NotImplemented`.
    /// Fails with `NotConnected` before registration and with the server's
    /// message when its pool is full.
    pub fn put(&self, server: &mut KvCacheServer, key: &[u8], value: &[u8], ttl_seconds: u64, now: u64) -> (r:
        Result<(), KvError>)
        requires
            old(server).wf(),
        ensures
            final(server).wf(),
            r is Ok <==> self.connected() && value@.len() < INLINE_VALUE_LIMIT && old(server).pool().allocator_spec().can_fit(value@.len()),
            !self.connected() ==> r == Err::<(), KvError>(KvError::NotConnected),
            self.connected() && value@.len() >= INLINE_VALUE_LIMIT ==> r == Err::<(), KvError>(
                KvError::NotImplemented,
            ),
            r is Ok ==> final(server).index() == old(server).index().insert(
                key@,
                EntryView {
                    data: value@,
                    offset: final(server).index()[key@].offset,
                    ttl_seconds,
                    created_at: now,
                },
            ),
            r is Err ==> final(server).index() == old(server).index(),
            final(server).pool().allocator_spec().capacity_spec() == old(server).pool().allocator_spec().capacity_spec(),
            final(server).pool().allocator_spec().high_water() <= old(server).pool().allocator_spec().high_water()
                + footprint(value@.len(), SERVER_POOL_ALIGNMENT as nat),
            self.connected() && value@.len() < INLINE_VALUE_LIMIT && !old(server).pool().allocator_spec().can_fit(
                value@.len(),
            ) ==> (r matches Err(KvError::Remote(m)) && m@ == KvError::PoolExhausted.text()),
            !(self.connected() && value@.len() < INLINE_VALUE_LIMIT) ==> final(server).pool() == old(server).pool(),
            r is Err ==> final(server).pool() == old(server).pool(),
    {
        if self.server_info.is_none() {
            return Err(KvError::NotConnected);
        }
        if value.len() >= INLINE_VALUE_LIMIT {
            return Err(KvError::NotImplemented);
        }
        let request = PutRequest {
            key: copy_bytes(key),
            value_source: Some(ValueSource::InlineValue(copy_bytes(value))),
            ttl_seconds,
        };
        match server.handle_put(request, now) {
            Ok(response) => {
                if response.success {
                    Ok(())
                } else {
                    Err(KvError::Remote(response.error_message))
                }
            },
            Err(e) => Err(e),
        }
    }

    /// Deletes `key` on `server`, which runs in this address space; says
    /// whether it was there. Fails only with `NotConnected`.
    pub fn delete(&self, server: &mut KvCacheServer, key: &[u8]) -> (r: Result<bool, KvError>)
        requires
            old(server).wf(),
        ensures
            final(server).wf(),
            !self.connected() ==> r == Err::<bool, KvError>(KvError::NotConnected) && final(server).index()
                == old(server).index() && final(server).pool() == old(server).pool(),
            self.connected() ==> r == Ok::<bool, KvError>(old(server).index().contains_key(key@)) && final(server).index() == old(server).index().remove(key@),
            self.connected() ==> final(server).used() + held_by(old(server).index(), key@) == old(server).used(),
            r == Ok::<bool, KvError>(false) ==> final(server).pool() == old(server).pool(),
    {
        if self.server_info.is_none() {
            return Err(KvError::NotConnected);
        }
        let response = server.handle_delete(&DeleteRequest { key: copy_bytes(key) });
        Ok(response.key_existed)
    }

    /// Asks `server` whether it is alive. Fails only with `NotConnected`.
    pub fn heartbeat(&self, server: &KvCacheServer) -> (r: Result<bool, KvError>)
        ensures
            !self.connected() ==> r == Err::<bool, KvError>(KvError::NotConnected),
            self.connected() ==> r == Ok::<bool, KvError>(true),
    {
        if self.server_info.is_none() {
            return Err(KvError::NotConnected);
        }
        let response = server.heartbeat(&HeartbeatRequest { client_id: self.config.client_id });
        Ok(response.alive)
    }
}

} // verus!
