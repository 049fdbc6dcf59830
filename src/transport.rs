//! The transport: domain addresses, memory registration and one-sided
//! writes. The mock variant simulates the data plane inside one address
//! space by copying between buffers.
use crate::error::KvError;
use crate::memory::{overwrite, MemoryPool};
use crate::protocol::{
    addr_rkey_view, DomainAddress, MemoryRegionDescriptor, MemoryRegionHandle,
    MemoryRegionRemoteKey,
};
use vstd::prelude::*;

verus! {

/// Transport settings: this endpoint's node id, how many domains (NICs) it
/// exposes, and whether to simulate the fabric in-process.
#[derive(Clone, Copy, Debug)]
pub struct TransportConfig {
    pub node_id: u32,
    pub num_domains: usize,
    pub use_mock: bool,
}

impl Default for TransportConfig {
    /// Node 0, one domain, mock fabric.
    fn default() -> (r: Self)
        ensures
            r.node_id == 0,
            r.num_domains == 1,
            r.use_mock,
    {
        TransportConfig { node_id: 0, num_domains: 1, use_mock: true }
    }
}

/// How a transfer picks its domains.
#[derive(Clone, Copy, Debug, PartialEq, Eq, Structural)]
pub enum DomainRouting {
    /// Split into `num_shards` equal stripes over the domains in turn.
    RoundRobinSharded { num_shards: u8 },
    /// Use the named domain only.
    Pinned { domain_idx: u8 },
}

impl Default for DomainRouting {
    /// The whole transfer on one domain.
    fn default() -> (r: Self)
        ensures
            r == (DomainRouting::RoundRobinSharded { num_shards: 1 }),
    {
        DomainRouting::RoundRobinSharded { num_shards: 1 }
    }
}

/// One one-sided write: `length` bytes from a local region at `src_offset`
/// to a remote region at `dst_offset`.
#[derive(Debug)]
pub struct TransferRequest {
    pub src_handle: MemoryRegionHandle,
    pub src_offset: u64,
    pub length: u64,
    pub imm_data: Option<u32>,
    pub dst_descriptor: MemoryRegionDescriptor,
    pub dst_offset: u64,
    pub routing: DomainRouting,
}

impl Clone for TransferRequest {
    fn clone(&self) -> (r: Self)
        ensures
            r.src_handle == self.src_handle,
            r.src_offset == self.src_offset,
            r.length == self.length,
            r.imm_data == self.imm_data,
            r.dst_descriptor@ == self.dst_descriptor@,
            r.dst_offset == self.dst_offset,
            r.routing == self.routing,
    {
        TransferRequest {
            src_handle: self.src_handle,
            src_offset: self.src_offset,
            length: self.length,
            imm_data: self.imm_data,
            dst_descriptor: self.dst_descriptor.duplicate(),
            dst_offset: self.dst_offset,
            routing: self.routing,
        }
    }
}

/// Outcome of a transfer.
#[derive(Clone, Debug)]
pub struct TransferResult {
    pub success: bool,
    pub bytes_transferred: u64,
    pub error: Option<String>,
}

/// The decimal digits of `n`, as ASCII bytes.
pub open spec fn decimal(n: nat) -> Seq<u8>
    decreases n,
{
    if n < 10 {
        seq![(48 + n) as u8]
    } else {
        decimal(n / 10).push((48 + n % 10) as u8)
    }
}

/// Appends the decimal digits of `n` to `out`.
pub fn push_decimal(out: &mut Vec<u8>, n: u64)
    ensures
        final(out)@ == old(out)@ + decimal(n as nat),
    decreases n,
{
    if n >= 10 {
        push_decimal(out, n / 10);
    }
    out.push(48u8 + (n % 10) as u8);
    assert(final(out)@ =~= old(out)@ + decimal(n as nat)) by {
        reveal_with_fuel(decimal, 2);
    }
}

/// `mock://node<node>/domain<i>`, the address of a simulated domain.
pub open spec fn mock_address(node: u32, i: nat) -> Seq<u8> {
    seq![109u8, 111, 99, 107, 58, 47, 47, 110, 111, 100, 101] + decimal(node as nat) + seq![
        47u8,
        100,
        111,
        109,
        97,
        105,
        110,
    ] + decimal(i)
}

/// Builds the address of simulated domain `i` of `node`.
pub fn mock_domain_address(node: u32, i: usize) -> (r: DomainAddress)
    ensures
        r@ == mock_address(node, i as nat),
{
    let mut out: Vec<u8> = Vec::new();
    out.push(109u8);
    out.push(111u8);
    out.push(99u8);
    out.push(107u8);
    out.push(58u8);
    out.push(47u8);
    out.push(47u8);
    out.push(110u8);
    out.push(111u8);
    out.push(100u8);
    out.push(101u8);
    push_decimal(&mut out, node as u64);
    out.push(47u8);
    out.push(100u8);
    out.push(111u8);
    out.push(109u8);
    out.push(97u8);
    out.push(105u8);
    out.push(110u8);
    push_decimal(&mut out, i as u64);
    assert(out@ =~= mock_address(node, i as nat));
    DomainAddress::new(out)
}

/// Copies of the addresses, in order.
fn clone_addresses(addrs: &Vec<DomainAddress>) -> (r: Vec<DomainAddress>)
    ensures
        r@.len() == addrs@.len(),
        forall|i: int| 0 <= i < addrs@.len() ==> #[trigger] r@[i]@ == addrs@[i]@,
{
    let mut out: Vec<DomainAddress> = Vec::new();
    let mut i: usize = 0;
    while i < addrs.len()
        invariant
            i <= addrs@.len(),
            out@.len() == i,
            forall|k: int| 0 <= k < i ==> #[trigger] out@[k]@ == addrs@[k]@,
        decreases addrs@.len() - i,
    {
        out.push(addrs[i].clone());
        i += 1;
    }
    out
}

/// The fabric simulated in one address space.
pub struct MockTransport {
    config: TransportConfig,
    domain_addresses: Vec<DomainAddress>,
}

impl MockTransport {
    pub closed spec fn config_spec(&self) -> TransportConfig {
        self.config
    }

    /// The simulated domains' addresses.
    pub closed spec fn addresses(&self) -> Seq<Seq<u8>> {
        self.domain_addresses@.map_values(|a: DomainAddress| a@)
    }

    /// A mock endpoint with `config.num_domains` synthetic addresses.
    pub fn new(config: TransportConfig) -> (r: Self)
        ensures
            r.config_spec() == config,
            r.addresses() == Seq::new(config.num_domains as nat, |i: int| mock_address(config.node_id, i as nat)),
    {
        let mut addrs: Vec<DomainAddress> = Vec::new();
        let mut i: usize = 0;
        while i < config.num_domains
            invariant
                i <= config.num_domains,
                addrs@.len() == i,
                forall|k: int| 0 <= k < i ==> #[trigger] addrs@[k]@ == mock_address(config.node_id, k as nat),
            decreases config.num_domains - i,
        {
            addrs.push(mock_domain_address(config.node_id, i));
            i += 1;
        }
        let r = MockTransport { config, domain_addresses: addrs };
        assert(r.addresses() =~= Seq::new(
            config.num_domains as nat,
            |i: int| mock_address(config.node_id, i as nat),
        ));
        r
    }

    pub fn domain_addresses(&self) -> (r: Vec<DomainAddress>)
        ensures
            r@.map_values(|a: DomainAddress| a@) == self.addresses(),
    {
        let r = clone_addresses(&self.domain_addresses);
        assert(r@.map_values(|a: DomainAddress| a@) =~= self.addresses());
        r
    }

    /// Registers `len` bytes at address `ptr`: a handle, and a descriptor
    /// with remote key i for the i-th domain.
    pub fn register_memory(&self, ptr: u64, len: usize) -> (r: (MemoryRegionHandle, MemoryRegionDescriptor))
        ensures
            r.0 == (MemoryRegionHandle { ptr, len }),
            r.1@.ptr == ptr,
            r.1@.addr_rkey_list.map_values(|p: (Seq<u8>, u64)| p.0) == self.addresses(),
            forall|i: int| 0 <= i < r.1@.addr_rkey_list.len() ==> #[trigger] r.1@.addr_rkey_list[i].1 == i as u64,
    {
        let handle = MemoryRegionHandle::new(ptr, len);
        let mut list: Vec<(DomainAddress, MemoryRegionRemoteKey)> = Vec::new();
        let mut i: usize = 0;
        while i < self.domain_addresses.len()
            invariant
                i <= self.domain_addresses@.len(),
                list@.len() == i,
                forall|k: int|
                    0 <= k < i ==> #[trigger] addr_rkey_view(list@[k]) == (self.domain_addresses@[k]@, k as u64),
            decreases self.domain_addresses@.len() - i,
        {
            list.push((self.domain_addresses[i].clone(), MemoryRegionRemoteKey(i as u64)));
            i += 1;
        }
        let descriptor = MemoryRegionDescriptor::new(ptr, list);
        assert(descriptor@.addr_rkey_list.map_values(|p: (Seq<u8>, u64)| p.0) =~= self.addresses());
        (handle, descriptor)
    }

    /// Performs a one-sided write inside this address space: `src` is the
    /// region that `request.src_handle` names and `dst` the pool that
    /// `request.dst_descriptor` names. A range that passes either end fails
    /// the transfer and leaves `dst` as it was.
    pub fn submit_transfer(&self, request: &TransferRequest, src: &[u8], dst: &mut MemoryPool) -> (r:
        TransferResult)
        requires
            old(dst).wf(),
        ensures
            final(dst).wf(),
            final(dst).allocator_spec() == old(dst).allocator_spec(),
            final(dst).descriptor_spec() == old(dst).descriptor_spec(),
            final(dst).handle_spec() == old(dst).handle_spec(),
            r.success <==> transfer_fits(request, src@.len(), old(dst).bytes().len()),
            r.success ==> r.bytes_transferred == request.length && r.error is None,
            r.success ==> final(dst).bytes() == overwrite(
                old(dst).bytes(),
                request.dst_offset as int,
                src@.subrange(request.src_offset as int, request.src_offset + request.length),
            ),
            !r.success ==> r.bytes_transferred == 0 && r.error is Some && final(dst).bytes() == old(dst).bytes(),
            request.src_offset + request.length > src@.len() ==> (r.error matches Some(m) && m@
                == source_range_error()),
            request.src_offset + request.length <= src@.len() && !r.success ==> (r.error matches Some(m) && m@
                == destination_range_error()),
    {
        if request.src_offset > src.len() as u64 || request.length > src.len() as u64 - request.src_offset {
            return TransferResult {
                success: false,
                bytes_transferred: 0,
                error: Some("Transfer failed: source range passes the end of the region".to_owned()),
            };
        }
        let start = request.src_offset as usize;
        let end = (request.src_offset + request.length) as usize;
        let bytes = vstd::slice::slice_subrange(src, start, end);
        let dst_len = dst.buffer().len();
        if request.dst_offset > dst_len as u64 {
            return TransferResult {
                success: false,
                bytes_transferred: 0,
                error: Some("Transfer failed: destination range passes the end of the region".to_owned()),
            };
        }
        match dst.write(request.dst_offset as usize, bytes) {
            Ok(()) => TransferResult { success: true, bytes_transferred: request.length, error: None },
            Err(_) => TransferResult {
                success: false,
                bytes_transferred: 0,
                error: Some("Transfer failed: destination range passes the end of the region".to_owned()),
            },
        }
    }

    /// Drains a completion, for fabrics that do not report them on their
    /// own. The mock completes every transfer when it is submitted, so
    /// there is never one to drain.
    pub fn poll_completion(&self) -> (r: Option<TransferResult>)
        ensures
            r is None,
    {
        None
    }
}

/// The error a transfer reports when its source range passes the end of
/// the source region.
pub open spec fn source_range_error() -> Seq<char> {
    "Transfer failed: source range passes the end of the region"@
}

/// The error a transfer reports when its source range fits but its
/// destination range passes the end of the destination region.
pub open spec fn destination_range_error() -> Seq<char> {
    "Transfer failed: destination range passes the end of the region"@
}

/// Both ranges of a transfer lie inside their regions.
pub open spec fn transfer_fits(request: &TransferRequest, src_len: nat, dst_len: nat) -> bool {
    &&& request.src_offset + request.length <= src_len
    &&& request.dst_offset + request.length <= dst_len
}

/// The transport an endpoint uses. Only the mock fabric is built in; a
/// real one is refused at construction.
pub struct RdmaTransport {
    inner: MockTransport,
    config: TransportConfig,
}

impl RdmaTransport {
    pub closed spec fn config_spec(&self) -> TransportConfig {
        self.config
    }

    pub closed spec fn addresses(&self) -> Seq<Seq<u8>> {
        self.inner.addresses()
    }

    /// A transport for `config`; fails with `NotImplemented` unless the
    /// mock fabric is asked for.
    pub fn new(config: TransportConfig) -> (r: Result<Self, KvError>)
        ensures
            r is Ok <==> config.use_mock,
            r matches Err(e) ==> e == KvError::NotImplemented,
            r matches Ok(t) ==> t.config_spec() == config && t.addresses() == Seq::new(
                config.num_domains as nat,
                |i: int| mock_address(config.node_id, i as nat),
            ),
    {
        if !config.use_mock {
            return Err(KvError::NotImplemented);
        }
        let inner = MockTransport::new(config);
        Ok(RdmaTransport { inner, config })
    }

    pub fn domain_addresses(&self) -> (r: Vec<DomainAddress>)
        ensures
            r@.map_values(|a: DomainAddress| a@) == self.addresses(),
    {
        self.inner.domain_addresses()
    }

    pub fn node_id(&self) -> (r: u32)
        ensures
            r == self.config_spec().node_id,
    {
        self.config.node_id
    }

    pub fn register_memory(&self, ptr: u64, len: usize) -> (r: (MemoryRegionHandle, MemoryRegionDescriptor))
        ensures
            r.0 == (MemoryRegionHandle { ptr, len }),
            r.1@.ptr == ptr,
            r.1@.addr_rkey_list.map_values(|p: (Seq<u8>, u64)| p.0) == self.addresses(),
            forall|i: int| 0 <= i < r.1@.addr_rkey_list.len() ==> #[trigger] r.1@.addr_rkey_list[i].1 == i as u64,
    {
        self.inner.register_memory(ptr, len)
    }

    pub fn submit_transfer(&self, request: &TransferRequest, src: &[u8], dst: &mut MemoryPool) -> (r:
        TransferResult)
        requires
            old(dst).wf(),
        ensures
            final(dst).wf(),
            final(dst).allocator_spec() == old(dst).allocator_spec(),
            final(dst).descriptor_spec() == old(dst).descriptor_spec(),
            final(dst).handle_spec() == old(dst).handle_spec(),
            r.success <==> transfer_fits(request, src@.len(), old(dst).bytes().len()),
            r.success ==> r.bytes_transferred == request.length && r.error is None,
            r.success ==> final(dst).bytes() == overwrite(
                old(dst).bytes(),
                request.dst_offset as int,
                src@.subrange(request.src_offset as int, request.src_offset + request.length),
            ),
            !r.success ==> r.bytes_transferred == 0 && r.error is Some && final(dst).bytes() == old(dst).bytes(),
            request.src_offset + request.length > src@.len() ==> (r.error matches Some(m) && m@
                == source_range_error()),
            request.src_offset + request.length <= src@.len() && !r.success ==> (r.error matches Some(m) && m@
                == destination_range_error()),
    {
        self.inner.submit_transfer(request, src, dst)
    }

    pub fn poll_completion(&self) -> (r: Option<TransferResult>)
        ensures
            r is None,
    {
        self.inner.poll_completion()
    }
}

} // verus!
