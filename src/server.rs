//! The server core: the cache index over the pinned pool, and the handlers
//! of the control-plane requests.
use crate::error::KvError;
use crate::index::{index_get, index_insert, index_items, index_len, index_new, index_remove, CacheIndex};
use crate::memory::{
    disjoint, footprint, lemma_align_up_ge, lemma_overwrite_inside, lemma_overwrite_outside, overwrite,
    MemoryPool, MemoryPoolConfig, PoolAllocation, PoolStats,
};
use crate::protocol::{entry_expired, CacheEntry, DomainAddress, EntryView, ValueLocation};
use crate::sums::{lemma_map_sum_empty, lemma_map_sum_insert, map_sum};
use crate::messages::{
    DeleteRequest, DeleteResponse, GetRequest, GetResponse, HeartbeatRequest, HeartbeatResponse, PutRequest,
    PutResponse, RegisterClientRequest, RegisterClientResponse, ValueSource,
};
use crate::transport::{destination_range_error, DomainRouting, RdmaTransport, TransferRequest, TransportConfig};
use std::collections::HashMap;
use vstd::prelude::*;

verus! {

/// Alignment of every value's offset in the server's pool: one page.
pub const SERVER_POOL_ALIGNMENT: usize = 4096;

/// Server settings.
#[derive(Clone, Debug)]
pub struct ServerConfig {
    pub node_id: u32,
    pub listen_addr: String,
    pub memory_pool_size: usize,
    pub transport: TransportConfig,
}

impl Default for ServerConfig {
    /// Node 0 on `[::1]:50051` with a one-gibibyte pool.
    fn default() -> (r: Self)
        ensures
            r.node_id == 0,
            r.listen_addr@ == "[::1]:50051"@,
            r.memory_pool_size == 1024 * 1024 * 1024,
            r.transport.node_id == 0 && r.transport.num_domains == 1 && r.transport.use_mock,
    {
        ServerConfig {
            node_id: 0,
            listen_addr: "[::1]:50051".to_owned(),
            memory_pool_size: 1024 * 1024 * 1024,
            transport: TransportConfig::default(),
        }
    }
}

/// What the server keeps of a registered client.
#[derive(Clone, Debug)]
pub struct RegisteredClient {
    pub client_id: u32,
    pub domain_addresses: Vec<DomainAddress>,
    pub receive_buffer_size: u64,
}

/// The pool bytes that the entry of `key` holds in `m`; none when absent.
pub open spec fn held_by(m: Map<Seq<u8>, EntryView>, key: Seq<u8>) -> nat {
    if m.contains_key(key) {
        footprint(m[key].data.len(), SERVER_POOL_ALIGNMENT as nat)
    } else {
        0
    }
}

/// The pool bytes that each entry holds.
pub open spec fn footprints(m: Map<Seq<u8>, EntryView>) -> Map<Seq<u8>, nat> {
    m.map_values(|e: EntryView| footprint(e.data.len(), SERVER_POOL_ALIGNMENT as nat))
}

/// The value a GET finds for `key` at `now`: none when the key is absent or
/// its entry has expired.
pub open spec fn lookup(m: Map<Seq<u8>, EntryView>, key: Seq<u8>, now: u64) -> Option<Seq<u8>> {
    if m.contains_key(key) && !entry_expired(m[key], now) {
        Some(m[key].data)
    } else {
        None
    }
}

/// What serving a GET of `key` at `now` into a window of `loc_len` bytes at
/// `loc_offset`, in a region of `dst_len` bytes, comes to: the value that
/// lands, or the error that the reply reports.
pub open spec fn get_outcome(
    m: Map<Seq<u8>, EntryView>,
    key: Seq<u8>,
    now: u64,
    loc_len: u64,
    loc_offset: u64,
    dst_len: nat,
) -> Result<Seq<u8>, KvError> {
    match lookup(m, key, now) {
        None => Err(KvError::NotFound),
        Some(v) => if loc_len < v.len() {
            Err(KvError::BufferTooSmall)
        } else if loc_offset + v.len() > dst_len {
            Err(KvError::TransferFailed)
        } else {
            Ok(v)
        },
    }
}

/// The index after a lookup at `now`: an expired entry for `key` is gone.
pub open spec fn after_lookup(m: Map<Seq<u8>, EntryView>, key: Seq<u8>, now: u64) -> Map<Seq<u8>, EntryView> {
    if m.contains_key(key) && entry_expired(m[key], now) {
        m.remove(key)
    } else {
        m
    }
}

/// The entry's bytes stand in the pool at its offset, inside a live block of
/// its footprint.
pub open spec fn entry_stored(pool: MemoryPool, e: EntryView) -> bool {
    &&& e.offset as int % pool.alignment() as int == 0
    &&& e.offset + e.data.len() <= pool.bytes().len()
    &&& pool.bytes().subrange(e.offset as int, e.offset + e.data.len()) == e.data
    &&& e.data.len() > 0 ==> pool.live().contains_key(e.offset as int)
    &&& e.data.len() > 0 ==> pool.live()[e.offset as int] == footprint(e.data.len(), pool.alignment())
}

/// A cache server: its pool of values, the index over it, its transport and
/// its registered clients.
pub struct KvCacheServer {
    config: ServerConfig,
    transport: RdmaTransport,
    memory_pool: MemoryPool,
    cache: CacheIndex,
    clients: HashMap<u32, RegisteredClient>,
}

impl KvCacheServer {
    /// Key bytes to the value of each live entry.
    pub closed spec fn index(&self) -> Map<Seq<u8>, EntryView> {
        index_items(self.cache)
    }

    pub closed spec fn pool(&self) -> MemoryPool {
        self.memory_pool
    }

    pub closed spec fn clients_spec(&self) -> Map<u32, RegisteredClient> {
        self.clients@
    }

    pub closed spec fn config_spec(&self) -> ServerConfig {
        self.config
    }

    pub closed spec fn transport_spec(&self) -> RdmaTransport {
        self.transport
    }

    /// Pool bytes held by live values.
    pub open spec fn used(&self) -> nat {
        self.pool().used_spec()
    }

    pub closed spec fn wf(&self) -> bool {
        let idx = self.index();
        let pool = self.memory_pool;
        &&& pool.wf()
        &&& pool.alignment() == SERVER_POOL_ALIGNMENT
        &&& idx.dom().finite()
        &&& pool.used_spec() == map_sum(footprints(idx))
        &&& forall|k: Seq<u8>| #[trigger] idx.contains_key(k) ==> entry_stored(pool, idx[k])
        &&& forall|k1: Seq<u8>, k2: Seq<u8>|
            #[trigger] idx.contains_key(k1) && #[trigger] idx.contains_key(k2) && k1 != k2 && idx[k1].data.len()
                > 0 && idx[k2].data.len() > 0 ==> idx[k1].offset != idx[k2].offset
    }

    /// Every live value holds exactly its footprint of the pool: the pool's
    /// used bytes are the sum, over live entries, of each value's length
    /// rounded up to the alignment.
    pub proof fn lemma_used_is_live_footprint(&self)
        requires
            self.wf(),
        ensures
            self.used() == map_sum(footprints(self.index())),
    {
    }

    /// Each live value stands in the pool at its offset, which is aligned,
    /// and the byte ranges of two nonempty values never overlap.
    pub proof fn lemma_entries_stored(&self)
        requires
            self.wf(),
        ensures
            forall|k: Seq<u8>| #[trigger] self.index().contains_key(k) ==> entry_stored(self.pool(), self.index()[k]),
            forall|k1: Seq<u8>, k2: Seq<u8>|
                #[trigger] self.index().contains_key(k1) && #[trigger] self.index().contains_key(k2) && k1 != k2
                    && self.index()[k1].data.len() > 0 && self.index()[k2].data.len() > 0 ==> disjoint(
                    self.index()[k1].offset as int,
                    self.index()[k1].data.len() as int,
                    self.index()[k2].offset as int,
                    self.index()[k2].data.len() as int,
                ),
    {
        let idx = self.index();
        let pool = self.memory_pool;
        pool.lemma_bounds();
        pool.allocator_spec().lemma_wf();
        assert forall|k1: Seq<u8>, k2: Seq<u8>|
            #[trigger] idx.contains_key(k1) && #[trigger] idx.contains_key(k2) && k1 != k2 && idx[k1].data.len() > 0
                && idx[k2].data.len() > 0 implies disjoint(
            idx[k1].offset as int,
            idx[k1].data.len() as int,
            idx[k2].offset as int,
            idx[k2].data.len() as int,
        ) by {
            let e1 = idx[k1];
            let e2 = idx[k2];
            assert(entry_stored(pool, e1) && entry_stored(pool, e2));
            lemma_align_up_ge(e1.data.len(), pool.alignment());
            lemma_align_up_ge(e2.data.len(), pool.alignment());
            assert(pool.live().contains_key(e1.offset as int) && pool.live().contains_key(e2.offset as int));
            assert(e1.offset != e2.offset);
        }
    }

    /// A server with an empty cache, a zeroed pool of
    /// `config.memory_pool_size` bytes registered on its transport's domains,
    /// and no clients. Fails with `NotImplemented` unless the transport is
    /// the mock fabric.
    pub fn new(config: ServerConfig) -> (r: Result<Self, KvError>)
        ensures
            r is Ok <==> config.transport.use_mock,
            r matches Err(e) ==> e == KvError::NotImplemented,
            r matches Ok(s) ==> {
                &&& s.wf()
                &&& s.index() == Map::<Seq<u8>, EntryView>::empty()
                &&& s.used() == 0
                &&& s.pool().bytes().len() == config.memory_pool_size
                &&& s.pool().allocator_spec().capacity_spec() == config.memory_pool_size as int / SERVER_POOL_ALIGNMENT as int * SERVER_POOL_ALIGNMENT as int
                &&& s.pool().allocator_spec().high_water() == 0
                &&& s.pool().allocator_spec().free_blocks().len() == 0
                &&& s.clients_spec() == Map::<u32, RegisteredClient>::empty()
                &&& s.config_spec().node_id == config.node_id
                &&& s.transport_spec().config_spec().node_id == config.node_id
            },
    {
        let mut transport_config = config.transport;
        transport_config.node_id = config.node_id;
        let transport = match RdmaTransport::new(transport_config) {
            Ok(t) => t,
            Err(e) => {
                return Err(e);
            },
        };
        let pool_config = MemoryPoolConfig { size: config.memory_pool_size, alignment: SERVER_POOL_ALIGNMENT };
        let memory_pool = match MemoryPool::new(pool_config, config.node_id, transport.domain_addresses()) {
            Ok(p) => p,
            Err(e) => {
                return Err(e);
            },
        };
        let cache = index_new();
        let clients: HashMap<u32, RegisteredClient> = HashMap::new();
        let s = KvCacheServer { config, transport, memory_pool, cache, clients };
        proof {
            assert(index_items(cache) =~= Map::<Seq<u8>, EntryView>::empty());
            assert(footprints(s.index()) =~= Map::<Seq<u8>, nat>::empty());
            lemma_map_sum_empty::<Seq<u8>>();
            assert(s.clients@ =~= Map::<u32, RegisteredClient>::empty());
        }
        Ok(s)
    }

    /// The address the control plane listens on.
    pub fn listen_addr(&self) -> (r: &str)
        ensures
            r@ == self.config_spec().listen_addr@,
    {
        self.config.listen_addr.as_str()
    }

    /// The number of live keys.
    pub fn num_entries(&self) -> (r: usize)
        ensures
            r == self.index().len(),
    {
        index_len(&self.cache)
    }

    /// A copy of the entry for `key`, if it has one (expired or not).
    pub fn entry(&self, key: &[u8]) -> (r: Option<CacheEntry>)
        ensures
            r is Some <==> self.index().contains_key(key@),
            r matches Some(e) ==> e@ == self.index()[key@],
    {
        index_get(&self.cache, key)
    }

    /// Pool occupancy.
    pub fn memory_stats(&self) -> (r: PoolStats)
        requires
            self.wf(),
        ensures
            r.total == self.pool().bytes().len(),
            r.used == self.used(),
            r.available == self.pool().allocator_spec().capacity_spec() - self.used(),
            r.used + r.available == r.total as int / SERVER_POOL_ALIGNMENT as int * SERVER_POOL_ALIGNMENT as int,
    {
        self.memory_pool.stats()
    }

    /// Stores `value` under `key`, created at `now` (milliseconds) with a
    /// time to live of `ttl_seconds`. The value is copied into a fresh block
    /// of the pool; an entry it replaces has its block released. Fails with
    /// `PoolExhausted`, changing nothing, when the pool has no room.
    pub fn put_value(&mut self, key: Vec<u8>, value: Vec<u8>, ttl_seconds: u64, now: u64) -> (r: Result<
        (),
        KvError,
    >)
        requires
            old(self).wf(),
        ensures
            final(self).wf(),
            r is Ok <==> old(self).pool().allocator_spec().can_fit(value@.len()),
            r matches Err(e) ==> e == KvError::PoolExhausted && final(self).index() == old(self).index()
                && final(self).used() == old(self).used() && final(self).pool() == old(self).pool(),
            r is Ok ==> final(self).index() == old(self).index().insert(
                key@,
                EntryView {
                    data: value@,
                    offset: final(self).index()[key@].offset,
                    ttl_seconds,
                    created_at: now,
                },
            ),
            final(self).pool().allocator_spec().capacity_spec() == old(self).pool().allocator_spec().capacity_spec(),
            final(self).pool().allocator_spec().high_water() <= old(self).pool().allocator_spec().high_water()
                + footprint(value@.len(), SERVER_POOL_ALIGNMENT as nat),
            r is Ok ==> final(self).used() + held_by(old(self).index(), key@) == old(self).used() + footprint(
                value@.len(),
                SERVER_POOL_ALIGNMENT as nat,
            ),
            final(self).clients_spec() == old(self).clients_spec(),
            final(self).config_spec() == old(self).config_spec(),
            final(self).transport_spec() == old(self).transport_spec(),
            final(self).pool().handle_spec() == old(self).pool().handle_spec(),
    {
        let ghost idx0 = self.index();
        let ghost pool0 = self.memory_pool;
        let ghost a = SERVER_POOL_ALIGNMENT as nat;
        let allocation = match self.memory_pool.allocate(value.len()) {
            Ok(al) => al,
            Err(e) => {
                return Err(e);
            },
        };
        let ghost pool1 = self.memory_pool;
        let ghost o = allocation.offset as int;
        let ghost fp = footprint(value@.len(), a);
        proof {
            lemma_align_up_ge(value@.len(), a);
            pool0.lemma_bounds();
        }
        let written = self.memory_pool.write(allocation.offset, value.as_slice());
        assert(written is Ok);
        let ghost pool2 = self.memory_pool;
        let entry = CacheEntry::new(value, allocation.offset as u64, ttl_seconds, now);
        let ghost new_e = entry@;
        let replaced = index_insert(&mut self.cache, key, entry);
        let ghost idx1 = self.index();
        proof {
            // the other entries keep their bytes and their blocks
            assert forall|k: Seq<u8>| #[trigger] idx0.contains_key(k) && k != key@ implies entry_stored(
                pool2,
                idx0[k],
            ) by {
                let e = idx0[k];
                assert(entry_stored(pool0, e));
                if e.data.len() > 0 {
                    lemma_align_up_ge(e.data.len(), a);
                    if value@.len() > 0 {
                        assert(disjoint(o, fp as int, e.offset as int, pool0.live()[e.offset as int] as int));
                        assert(e.offset as int != o);
                    }
                }
                lemma_overwrite_outside(
                    pool1.bytes(),
                    o,
                    value@,
                    e.offset as int,
                    e.data.len() as int,
                );
            }
            lemma_overwrite_inside(pool1.bytes(), o, value@);
            assert(entry_stored(pool2, new_e));
        }
        match replaced {
            Some(old_entry) => {
                proof {
                    assert(entry_stored(pool0, old_entry@));
                    pool0.lemma_bounds();
                    if old_entry@.data.len() > 0 && value@.len() > 0 {
                        assert(old_entry@.offset as int != o);
                    }
                }
                let old_block = PoolAllocation { offset: old_entry.offset as usize, size: old_entry.len() };
                self.memory_pool.deallocate(&old_block);
            },
            None => {},
        }
        proof {
            let pool3 = self.memory_pool;
            let idx = self.index();
            assert(idx == idx0.insert(key@, new_e));
            assert forall|k: Seq<u8>| #[trigger] idx.contains_key(k) implies entry_stored(pool3, idx[k]) by {
                if k == key@ {
                    assert(idx[k] == new_e);
                    if replaced is Some && value@.len() > 0 && replaced.unwrap()@.data.len() > 0 {
                        assert(replaced.unwrap()@.offset as int != o);
                    }
                } else {
                    assert(idx[k] == idx0[k]);
                    assert(entry_stored(pool2, idx0[k]));
                    if replaced is Some && idx0[k].data.len() > 0 && idx0[key@].data.len() > 0 {
                        assert(idx0[k].offset != idx0[key@].offset);
                    }
                }
            }
            assert forall|k1: Seq<u8>, k2: Seq<u8>|
                #[trigger] idx.contains_key(k1) && #[trigger] idx.contains_key(k2) && k1 != k2 && idx[k1].data.len()
                    > 0 && idx[k2].data.len() > 0 implies idx[k1].offset != idx[k2].offset by {
                if k1 == key@ {
                    assert(entry_stored(pool0, idx0[k2]));
                } else if k2 == key@ {
                    assert(entry_stored(pool0, idx0[k1]));
                } else {
                    assert(idx0.contains_key(k1) && idx0.contains_key(k2));
                }
            }
            // accounting
            lemma_map_sum_insert(pool0.live(), o, fp);
            if value@.len() > 0 {
                assert(pool0.live().remove(o) =~= pool0.live());
            }
            if replaced is Some {
                let oe = replaced.unwrap()@;
                lemma_map_sum_insert(pool2.live(), oe.offset as int, 0);
            }
            assert(footprints(idx) =~= footprints(idx0).insert(key@, fp));
            assert(footprints(idx0).remove(key@) =~= footprints(idx0.remove(key@)));
            assert(footprints(idx0).dom() =~= idx0.dom());
            lemma_map_sum_insert(footprints(idx0), key@, fp);
        }
        Ok(())
    }

    /// Takes `key` out of the index and releases its block.
    fn remove_entry(&mut self, key: &[u8]) -> (r: Option<CacheEntry>)
        requires
            old(self).wf(),
        ensures
            final(self).wf(),
            r is Some <==> old(self).index().contains_key(key@),
            r matches Some(e) ==> e@ == old(self).index()[key@],
            final(self).index() == old(self).index().remove(key@),
            final(self).used() + held_by(old(self).index(), key@) == old(self).used(),
            r is None ==> final(self).pool() == old(self).pool(),
            final(self).pool().allocator_spec().capacity_spec() == old(self).pool().allocator_spec().capacity_spec(),
            final(self).pool().allocator_spec().high_water() == old(self).pool().allocator_spec().high_water(),
            final(self).pool().bytes() == old(self).pool().bytes(),
            final(self).pool().handle_spec() == old(self).pool().handle_spec(),
            final(self).clients_spec() == old(self).clients_spec(),
            final(self).config_spec() == old(self).config_spec(),
            final(self).transport_spec() == old(self).transport_spec(),
    {
        let ghost idx0 = self.index();
        let ghost pool0 = self.memory_pool;
        let removed = index_remove(&mut self.cache, key);
        match removed {
            Some(e) => {
                proof {
                    assert(entry_stored(pool0, e@));
                    pool0.lemma_bounds();
                }
                let block = PoolAllocation { offset: e.offset as usize, size: e.len() };
                self.memory_pool.deallocate(&block);
                proof {
                    let idx = self.index();
                    let pool = self.memory_pool;
                    assert forall|k: Seq<u8>| #[trigger] idx.contains_key(k) implies entry_stored(pool, idx[k]) by {
                        assert(idx0.contains_key(k) && k != key@);
                        assert(entry_stored(pool0, idx0[k]));
                        if idx0[k].data.len() > 0 && e@.data.len() > 0 {
                            assert(idx0[k].offset != idx0[key@].offset);
                        }
                    }
                    assert forall|k1: Seq<u8>, k2: Seq<u8>|
                        #[trigger] idx.contains_key(k1) && #[trigger] idx.contains_key(k2) && k1 != k2
                            && idx[k1].data.len() > 0 && idx[k2].data.len() > 0 implies idx[k1].offset
                        != idx[k2].offset by {
                        assert(idx0.contains_key(k1) && idx0.contains_key(k2));
                    }
                    lemma_map_sum_insert(pool0.live(), e@.offset as int, 0);
                    assert(footprints(idx0).dom() =~= idx0.dom());
                    lemma_map_sum_insert(footprints(idx0), key@, 0);
                    assert(footprints(idx0).remove(key@) =~= footprints(idx));
                }
                Some(e)
            },
            None => {
                proof {
                    assert(idx0.remove(key@) =~= idx0);
                }
                None
            },
        }
    }

    /// Removes `key` and releases its block; says whether it was there.
    /// Never fails.
    pub fn delete_value(&mut self, key: &[u8]) -> (r: bool)
        requires
            old(self).wf(),
        ensures
            final(self).wf(),
            r == old(self).index().contains_key(key@),
            final(self).index() == old(self).index().remove(key@),
            final(self).used() + held_by(old(self).index(), key@) == old(self).used(),
            !r ==> final(self).pool() == old(self).pool(),
            final(self).pool().allocator_spec().capacity_spec() == old(self).pool().allocator_spec().capacity_spec(),
            final(self).pool().allocator_spec().high_water() == old(self).pool().allocator_spec().high_water(),
            final(self).pool().bytes() == old(self).pool().bytes(),
            final(self).clients_spec() == old(self).clients_spec(),
            final(self).config_spec() == old(self).config_spec(),
            final(self).transport_spec() == old(self).transport_spec(),
            final(self).pool().handle_spec() == old(self).pool().handle_spec(),
    {
        let removed = self.remove_entry(key);
        removed.is_some()
    }

    /// Looks `key` up at `now` and describes the remote write of its value
    /// into `location`. An entry found expired is removed and its block
    /// released (lazy expiry). Fails with `NotFound` for an absent or
    /// expired key, and with `BufferTooSmall` when the window is shorter
    /// than the value. The entry's bytes stay valid only while no PUT or
    /// DELETE of the key runs, so the caller keeps the server to itself
    /// until the transfer has completed.
    pub fn prepare_get(&mut self, key: &[u8], location: &ValueLocation, now: u64) -> (r: Result<
        TransferRequest,
        KvError,
    >)
        requires
            old(self).wf(),
        ensures
            final(self).wf(),
            final(self).index() == after_lookup(old(self).index(), key@, now),
            final(self).pool().allocator_spec().capacity_spec() == old(self).pool().allocator_spec().capacity_spec(),
            final(self).pool().allocator_spec().high_water() == old(self).pool().allocator_spec().high_water(),
            !(old(self).index().contains_key(key@) && entry_expired(old(self).index()[key@], now)) ==> final(self).pool() == old(self).pool(),
            final(self).used() + (if old(self).index().contains_key(key@) && entry_expired(
                old(self).index()[key@],
                now,
            ) {
                held_by(old(self).index(), key@)
            } else {
                0
            }) == old(self).used(),
            final(self).pool().bytes() == old(self).pool().bytes(),
            final(self).pool().handle_spec() == old(self).pool().handle_spec(),
            final(self).clients_spec() == old(self).clients_spec(),
            final(self).config_spec() == old(self).config_spec(),
            final(self).transport_spec() == old(self).transport_spec(),
            match lookup(old(self).index(), key@, now) {
                None => r == Err::<TransferRequest, KvError>(KvError::NotFound),
                Some(v) => if location.length < v.len() {
                    r == Err::<TransferRequest, KvError>(KvError::BufferTooSmall)
                } else {
                    r matches Ok(t) && t.src_handle == old(self).pool().handle_spec() && t.src_offset
                        == old(self).index()[key@].offset && t.length == v.len() && t.imm_data is None
                        && t.dst_descriptor@ == location.mr_descriptor@ && t.dst_offset == location.offset
                        && t.routing == (DomainRouting::RoundRobinSharded { num_shards: 1 })
                        && t.src_offset + t.length <= old(self).pool().bytes().len() && old(self).pool().bytes().subrange(t.src_offset as int, t.src_offset + t.length) == v
                },
            },
    {
        let ghost idx0 = self.index();
        let entry = match index_get(&self.cache, key) {
            Some(e) => e,
            None => {
                return Err(KvError::NotFound);
            },
        };
        if entry.is_expired(now) {
            let _ = self.remove_entry(key);
            return Err(KvError::NotFound);
        }
        proof {
            assert(entry_stored(self.memory_pool, entry@));
        }
        let value_len = entry.len() as u64;
        if location.length < value_len {
            return Err(KvError::BufferTooSmall);
        }
        Ok(
            TransferRequest {
                src_handle: self.memory_pool.handle(),
                src_offset: entry.offset,
                length: value_len,
                imm_data: None,
                dst_descriptor: location.mr_descriptor.duplicate(),
                dst_offset: location.offset,
                routing: DomainRouting::RoundRobinSharded { num_shards: 1 },
            },
        )
    }

    /// Serves a GET in one address space: looks the key up (with lazy
    /// expiry) and writes its value through the transport into `dst`, the
    /// pool that the request's response location names. Fails with
    /// `InvalidArgument` when the request has no response location; any
    /// other failure is reported in the reply.
    pub fn serve_get(&mut self, request: &GetRequest, now: u64, dst: &mut MemoryPool) -> (r: Result<
        GetResponse,
        KvError,
    >)
        requires
            old(self).wf(),
            old(dst).wf(),
        ensures
            final(self).wf(),
            final(dst).wf(),
            final(dst).allocator_spec() == old(dst).allocator_spec(),
            final(dst).descriptor_spec() == old(dst).descriptor_spec(),
            final(dst).handle_spec() == old(dst).handle_spec(),
            final(self).pool().allocator_spec().capacity_spec() == old(self).pool().allocator_spec().capacity_spec(),
            final(self).pool().allocator_spec().high_water() == old(self).pool().allocator_spec().high_water(),
            final(self).clients_spec() == old(self).clients_spec(),
            final(self).config_spec() == old(self).config_spec(),
            final(self).transport_spec() == old(self).transport_spec(),
            request.response_location is None ==> r == Err::<GetResponse, KvError>(KvError::InvalidArgument)
                && final(self).index() == old(self).index() && final(self).pool() == old(self).pool() && final(dst).bytes() == old(dst).bytes(),
            request.response_location matches Some(loc) ==> {
                &&& final(self).index() == after_lookup(old(self).index(), request.key@, now)
                &&& !(old(self).index().contains_key(request.key@) && entry_expired(
                    old(self).index()[request.key@],
                    now,
                )) ==> final(self).pool() == old(self).pool()
                &&& final(self).used() + (if old(self).index().contains_key(request.key@) && entry_expired(
                    old(self).index()[request.key@],
                    now,
                ) {
                    held_by(old(self).index(), request.key@)
                } else {
                    0
                }) == old(self).used()
                &&& r matches Ok(resp) && resp.request_id == request.request_id && match get_outcome(
                    old(self).index(),
                    request.key@,
                    now,
                    loc.length,
                    loc.offset,
                    old(dst).bytes().len(),
                ) {
                    Ok(v) => resp.success && resp.value_length == v.len() && resp.error_message@.len() == 0
                        && final(dst).bytes() == overwrite(old(dst).bytes(), loc.offset as int, v),
                    Err(e) => !resp.success && resp.value_length == 0 && resp.error_message@ == (if e
                        == KvError::TransferFailed {
                        destination_range_error()
                    } else {
                        e.text()
                    })
                        && final(dst).bytes() == old(dst).bytes(),
                }
            },
    {
        let location = match &request.response_location {
            Some(loc) => loc,
            None => {
                return Err(KvError::InvalidArgument);
            },
        };
        match self.prepare_get(request.key.as_slice(), location, now) {
            Err(e) => Ok(
                GetResponse {
                    success: false,
                    value_length: 0,
                    error_message: e.message(),
                    request_id: request.request_id,
                },
            ),
            Ok(t) => {
                let result = self.transport.submit_transfer(&t, self.memory_pool.buffer(), dst);
                if result.success {
                    Ok(
                        GetResponse {
                            success: true,
                            value_length: t.length,
                            error_message: String::new(),
                            request_id: request.request_id,
                        },
                    )
                } else {
                    Ok(
                        GetResponse {
                            success: false,
                            value_length: 0,
                            error_message: match result.error {
                                Some(m) => m,
                                None => KvError::TransferFailed.message(),
                            },
                            request_id: request.request_id,
                        },
                    )
                }
            },
        }
    }

    /// Handles a PUT request. Fails with `InvalidArgument` when it carries
    /// no value and with `NotImplemented` for a value to be read remotely;
    /// an inline value is stored as `put_value` does, and a full pool is
    /// reported in the reply.
    pub fn handle_put(&mut self, request: PutRequest, now: u64) -> (r: Result<PutResponse, KvError>)
        requires
            old(self).wf(),
        ensures
            final(self).wf(),
            final(self).clients_spec() == old(self).clients_spec(),
            final(self).config_spec() == old(self).config_spec(),
            final(self).transport_spec() == old(self).transport_spec(),
            final(self).pool().allocator_spec().capacity_spec() == old(self).pool().allocator_spec().capacity_spec(),
            final(self).pool().allocator_spec().high_water() <= old(self).pool().allocator_spec().high_water()
                + match request.value_source {
                Some(ValueSource::InlineValue(v)) => footprint(v@.len(), SERVER_POOL_ALIGNMENT as nat),
                _ => 0,
            },
            match request.value_source {
                None => r == Err::<PutResponse, KvError>(KvError::InvalidArgument) && final(self).index()
                    == old(self).index() && final(self).pool() == old(self).pool(),
                Some(ValueSource::RdmaLocation(_)) => r == Err::<PutResponse, KvError>(KvError::NotImplemented)
                    && final(self).index() == old(self).index() && final(self).pool() == old(self).pool(),
                Some(ValueSource::InlineValue(v)) => r matches Ok(resp) && (resp.success <==> old(self).pool().allocator_spec().can_fit(v@.len())) && (resp.success ==> resp.error_message@.len() == 0
                    && final(self).index() == old(self).index().insert(
                    request.key@,
                    EntryView {
                        data: v@,
                        offset: final(self).index()[request.key@].offset,
                        ttl_seconds: request.ttl_seconds,
                        created_at: now,
                    },
                )) && (!resp.success ==> resp.error_message@ == KvError::PoolExhausted.text() && final(self).index() == old(self).index()
                    && final(self).pool() == old(self).pool()),
            },
    {
        let PutRequest { key, value_source, ttl_seconds } = request;
        let value = match value_source {
            Some(ValueSource::InlineValue(v)) => v,
            Some(ValueSource::RdmaLocation(_)) => {
                return Err(KvError::NotImplemented);
            },
            None => {
                return Err(KvError::InvalidArgument);
            },
        };
        match self.put_value(key, value, ttl_seconds, now) {
            Ok(()) => Ok(PutResponse { success: true, error_message: String::new() }),
            Err(e) => Ok(PutResponse { success: false, error_message: e.message() }),
        }
    }

    /// Handles a DELETE request: never fails, and says whether the key was
    /// there.
    pub fn handle_delete(&mut self, request: &DeleteRequest) -> (r: DeleteResponse)
        requires
            old(self).wf(),
        ensures
            final(self).wf(),
            r.success,
            r.key_existed == old(self).index().contains_key(request.key@),
            final(self).index() == old(self).index().remove(request.key@),
            final(self).pool().allocator_spec().capacity_spec() == old(self).pool().allocator_spec().capacity_spec(),
            final(self).pool().allocator_spec().high_water() == old(self).pool().allocator_spec().high_water(),
            final(self).used() + held_by(old(self).index(), request.key@) == old(self).used(),
            !r.key_existed ==> final(self).pool() == old(self).pool(),
            final(self).clients_spec() == old(self).clients_spec(),
    {
        let existed = self.delete_value(request.key.as_slice());
        DeleteResponse { success: true, key_existed: existed }
    }

    /// Records a client and answers with this server's id and domain
    /// addresses.
    pub fn register_client(&mut self, request: &RegisterClientRequest) -> (r: RegisterClientResponse)
        requires
            old(self).wf(),
        ensures
            final(self).wf(),
            final(self).index() == old(self).index(),
            final(self).pool() == old(self).pool(),
            final(self).clients_spec().dom() == old(self).clients_spec().dom().insert(request.client_id),
            forall|id: u32|
                id != request.client_id && #[trigger] old(self).clients_spec().contains_key(id) ==> final(self).clients_spec()[id] == old(self).clients_spec()[id],
            final(self).clients_spec()[request.client_id].client_id == request.client_id,
            final(self).clients_spec()[request.client_id].receive_buffer_size == request.receive_buffer_size,
            final(self).clients_spec()[request.client_id].domain_addresses@.map_values(|a: DomainAddress| a@)
                == request.domain_addresses@.map_values(|b: Vec<u8>| b@),
            r.success,
            r.server_id == old(self).config_spec().node_id,
            r.server_domain_addresses@.map_values(|b: Vec<u8>| b@) == old(self).transport_spec().addresses(),
    {
        broadcast use vstd::std_specs::hash::group_hash_axioms;

        let mut addrs: Vec<DomainAddress> = Vec::new();
        let mut i: usize = 0;
        while i < request.domain_addresses.len()
            invariant
                i <= request.domain_addresses@.len(),
                addrs@.len() == i,
                forall|k: int| 0 <= k < i ==> #[trigger] addrs@[k]@ == request.domain_addresses@[k]@,
            decreases request.domain_addresses@.len() - i,
        {
            let bytes = request.domain_addresses[i].clone();
            assert(bytes@ =~= request.domain_addresses@[i as int]@);
            addrs.push(DomainAddress::new(bytes));
            i += 1;
        }
        assert(addrs@.map_values(|a: DomainAddress| a@) =~= request.domain_addresses@.map_values(|b: Vec<u8>| b@));
        let client = RegisteredClient {
            client_id: request.client_id,
            domain_addresses: addrs,
            receive_buffer_size: request.receive_buffer_size,
        };
        self.clients.insert(request.client_id, client);
        let own = self.transport.domain_addresses();
        let mut server_addresses: Vec<Vec<u8>> = Vec::new();
        let mut j: usize = 0;
        while j < own.len()
            invariant
                j <= own@.len(),
                server_addresses@.len() == j,
                forall|k: int| 0 <= k < j ==> #[trigger] server_addresses@[k]@ == own@[k]@,
            decreases own@.len() - j,
        {
            let bytes = own[j].0.clone();
            assert(bytes@ =~= own@[j as int]@);
            server_addresses.push(bytes);
            j += 1;
        }
        assert(server_addresses@.map_values(|b: Vec<u8>| b@) =~= own@.map_values(|a: DomainAddress| a@));
        RegisterClientResponse {
            success: true,
            server_id: self.config.node_id,
            server_domain_addresses: server_addresses,
        }
    }

    /// Answers a heartbeat: always alive.
    pub fn heartbeat(&self, request: &HeartbeatRequest) -> (r: HeartbeatResponse)
        ensures
            r.alive,
    {
        HeartbeatResponse { alive: true }
    }

    /// This server's node id.
    pub fn node_id(&self) -> (r: u32)
        ensures
            r == self.config_spec().node_id,
    {
        self.config.node_id
    }
}

} // verus!
