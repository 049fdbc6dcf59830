//! Data types shared by the server, the client and the transport.
use smallvec::SmallVec;
use vstd::prelude::*;

verus! {

/// Network address of one remote-access domain (one NIC endpoint). Opaque
/// bytes, compared by equality.
#[derive(Debug, PartialEq, Eq, Hash)]
pub struct DomainAddress(pub Vec<u8>);

impl Clone for DomainAddress {
    fn clone(&self) -> (r: Self)
        ensures
            r@ == self@,
    {
        let bytes = self.0.clone();
        assert(bytes@ =~= self.0@);
        DomainAddress(bytes)
    }
}

impl View for DomainAddress {
    type V = Seq<u8>;

    open spec fn view(&self) -> Seq<u8> {
        self.0@
    }
}

impl DomainAddress {
    pub fn new(addr: Vec<u8>) -> (r: Self)
        ensures
            r@ == addr@,
    {
        DomainAddress(addr)
    }

    pub fn as_bytes(&self) -> (r: &[u8])
        ensures
            r@ == self@,
    {
        self.0.as_slice()
    }
}

/// A vector holding the same bytes as `s`.
pub fn copy_bytes(s: &[u8]) -> (r: Vec<u8>)
    ensures
        r@ == s@,
{
    let mut out: Vec<u8> = Vec::new();
    let mut i: usize = 0;
    while i < s.len()
        invariant
            i <= s@.len(),
            out@ == s@.subrange(0, i as int),
        decreases s@.len() - i,
    {
        out.push(s[i]);
        i += 1;
        assert(out@ =~= s@.subrange(0, i as int));
    }
    assert(s@.subrange(0, s@.len() as int) =~= s@);
    out
}

/// Remote key: a token that lets a peer's NIC write into one memory region
/// through one domain.
#[derive(Clone, Copy, Debug, PartialEq, Eq, Structural)]
pub struct MemoryRegionRemoteKey(pub u64);

/// The per-domain list of a descriptor: each domain's address with the
/// remote key that the region was registered under there. Held in a small
/// vector that keeps up to four pairs inline.
#[verifier::external_body]
#[derive(Debug)]
pub struct AddrRkeyList {
    items: SmallVec<[(DomainAddress, MemoryRegionRemoteKey); 4]>,
}

/// The items of a per-domain list, in order, as (address bytes, remote key).
pub uninterp spec fn addr_rkey_items(l: AddrRkeyList) -> Seq<(Seq<u8>, u64)>;

/// The view of one (address, key) pair.
pub open spec fn addr_rkey_view(p: (DomainAddress, MemoryRegionRemoteKey)) -> (Seq<u8>, u64) {
    (p.0@, p.1.0)
}

/// Relies on smallvec's `SmallVec::from_vec`: the list holds the vector's
/// items in the same order.
#[verifier::external_body]
fn addr_rkey_list_from_vec(v: Vec<(DomainAddress, MemoryRegionRemoteKey)>) -> (r: AddrRkeyList)
    ensures
        addr_rkey_items(r) == v@.map_values(|p: (DomainAddress, MemoryRegionRemoteKey)| addr_rkey_view(p)),
{
    AddrRkeyList { items: SmallVec::from_vec(v) }
}

/// Relies on smallvec's `Clone` for `SmallVec`: a list with the same items in
/// the same order.
#[verifier::external_body]
fn addr_rkey_list_clone(l: &AddrRkeyList) -> (r: AddrRkeyList)
    ensures
        addr_rkey_items(r) == addr_rkey_items(*l),
{
    AddrRkeyList { items: l.items.clone() }
}

/// Relies on smallvec's `SmallVec::first` (through its slice view): the
/// first item's address, if the list has one.
#[verifier::external_body]
fn addr_rkey_list_first(l: &AddrRkeyList) -> (r: Option<&DomainAddress>)
    ensures
        addr_rkey_items(*l).len() == 0 <==> r is None,
        r is Some ==> r.unwrap()@ == addr_rkey_items(*l)[0].0,
{
    l.items.first().map(|p| &p.0)
}

/// Relies on smallvec's `SmallVec::to_vec` (through its slice view): the
/// items, in order, in a vector.
#[verifier::external_body]
fn addr_rkey_list_to_vec(l: &AddrRkeyList) -> (r: Vec<(DomainAddress, MemoryRegionRemoteKey)>)
    ensures
        r@.map_values(|p: (DomainAddress, MemoryRegionRemoteKey)| addr_rkey_view(p)) == addr_rkey_items(*l),
{
    l.items.to_vec()
}

/// What a peer needs to write into a registered memory region: its base
/// address and, per domain, the address and remote key to use.
#[derive(Debug)]
pub struct MemoryRegionDescriptor {
    pub ptr: u64,
    pub addr_rkey_list: AddrRkeyList,
}

/// The value of a descriptor.
pub ghost struct DescriptorView {
    pub ptr: u64,
    pub addr_rkey_list: Seq<(Seq<u8>, u64)>,
}

impl View for MemoryRegionDescriptor {
    type V = DescriptorView;

    open spec fn view(&self) -> DescriptorView {
        DescriptorView { ptr: self.ptr, addr_rkey_list: addr_rkey_items(self.addr_rkey_list) }
    }
}

impl MemoryRegionDescriptor {
    pub fn new(ptr: u64, addr_rkey_list: Vec<(DomainAddress, MemoryRegionRemoteKey)>) -> (r: Self)
        ensures
            r@.ptr == ptr,
            r@.addr_rkey_list == addr_rkey_list@.map_values(
                |p: (DomainAddress, MemoryRegionRemoteKey)| addr_rkey_view(p),
            ),
    {
        MemoryRegionDescriptor { ptr, addr_rkey_list: addr_rkey_list_from_vec(addr_rkey_list) }
    }

    /// The first domain's address, for single-NIC setups.
    pub fn first_domain(&self) -> (r: Option<&DomainAddress>)
        ensures
            self@.addr_rkey_list.len() == 0 <==> r is None,
            r is Some ==> r.unwrap()@ == self@.addr_rkey_list[0].0,
    {
        addr_rkey_list_first(&self.addr_rkey_list)
    }

    /// The (address, remote key) pairs, in order.
    pub fn entries(&self) -> (r: Vec<(DomainAddress, MemoryRegionRemoteKey)>)
        ensures
            r@.map_values(|p: (DomainAddress, MemoryRegionRemoteKey)| addr_rkey_view(p)) == self@.addr_rkey_list,
    {
        addr_rkey_list_to_vec(&self.addr_rkey_list)
    }

    /// A copy of this descriptor with the same value.
    pub fn duplicate(&self) -> (r: Self)
        ensures
            r@ == self@,
    {
        MemoryRegionDescriptor { ptr: self.ptr, addr_rkey_list: addr_rkey_list_clone(&self.addr_rkey_list) }
    }
}

impl Clone for MemoryRegionDescriptor {
    fn clone(&self) -> (r: Self)
        ensures
            r@ == self@,
    {
        self.duplicate()
    }
}

/// A window inside some peer's registered region.
#[derive(Clone, Debug)]
pub struct ValueLocation {
    pub node_id: u32,
    pub mr_descriptor: MemoryRegionDescriptor,
    pub offset: u64,
    pub length: u64,
}

impl ValueLocation {
    pub fn new(node_id: u32, mr_descriptor: MemoryRegionDescriptor, offset: u64, length: u64) -> (r: Self)
        ensures
            r.node_id == node_id,
            r.mr_descriptor@ == mr_descriptor@,
            r.offset == offset,
            r.length == length,
    {
        ValueLocation { node_id, mr_descriptor, offset, length }
    }
}

/// Local handle of a registered memory region, meaningful only to the
/// process that registered it.
#[derive(Clone, Copy, Debug)]
pub struct MemoryRegionHandle {
    pub ptr: u64,
    pub len: usize,
}

impl MemoryRegionHandle {
    pub fn new(ptr: u64, len: usize) -> (r: Self)
        ensures
            r.ptr == ptr,
            r.len == len,
    {
        MemoryRegionHandle { ptr, len }
    }
}

/// Milliseconds in a second, for time-to-live checks on millisecond clocks.
pub const MILLIS_PER_SECOND: u64 = 1000;

/// Server-side record of one live key: the value, where it stands in the
/// server's pool, its time to live in seconds (0: never expires) and its
/// creation time in milliseconds of a monotonic clock.
#[derive(Clone, Debug)]
pub struct CacheEntry {
    pub data: Vec<u8>,
    pub offset: u64,
    pub ttl_seconds: u64,
    pub created_at: u64,
}

/// The value of a cache entry.
pub ghost struct EntryView {
    pub data: Seq<u8>,
    pub offset: u64,
    pub ttl_seconds: u64,
    pub created_at: u64,
}

impl View for CacheEntry {
    type V = EntryView;

    open spec fn view(&self) -> EntryView {
        EntryView {
            data: self.data@,
            offset: self.offset,
            ttl_seconds: self.ttl_seconds,
            created_at: self.created_at,
        }
    }
}

/// Whole seconds from `created_at` to `now` (milliseconds); zero when the
/// clock reads earlier than the creation time.
pub open spec fn elapsed_seconds(created_at: u64, now: u64) -> int {
    if now >= created_at {
        (now - created_at) as int / MILLIS_PER_SECOND as int
    } else {
        0
    }
}

/// An entry has expired at `now` when it has a time to live and at least
/// that many whole seconds have passed since its creation.
pub open spec fn entry_expired(e: EntryView, now: u64) -> bool {
    e.ttl_seconds != 0 && elapsed_seconds(e.created_at, now) >= e.ttl_seconds
}

impl CacheEntry {
    pub fn new(data: Vec<u8>, offset: u64, ttl_seconds: u64, created_at: u64) -> (r: Self)
        ensures
            r@ == (EntryView { data: data@, offset, ttl_seconds, created_at }),
    {
        CacheEntry { data, offset, ttl_seconds, created_at }
    }

    /// Whether the entry has expired at `now`, in milliseconds of the clock
    /// that stamped `created_at`.
    pub fn is_expired(&self, now: u64) -> (r: bool)
        ensures
            r == entry_expired(self@, now),
    {
        if self.ttl_seconds == 0 {
            return false;
        }
        let elapsed: u64 = if now >= self.created_at { (now - self.created_at) / MILLIS_PER_SECOND } else { 0 };
        elapsed >= self.ttl_seconds
    }

    pub fn len(&self) -> (r: usize)
        ensures
            r == self@.data.len(),
    {
        self.data.len()
    }

    pub fn is_empty(&self) -> (r: bool)
        ensures
            r == (self@.data.len() == 0),
    {
        self.data.len() == 0
    }
}

} // verus!
