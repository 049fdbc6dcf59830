use kv_rdma_poc::error::KvError;
use kv_rdma_poc::memory::{BumpAllocator, MemoryPool, MemoryPoolConfig, PoolAllocation};
use kv_rdma_poc::protocol::DomainAddress;

#[test]
fn test_memory_pool_allocation() {
    let config = MemoryPoolConfig {
        size: 4096,
        alignment: 64,
    };
    let mut pool = MemoryPool::new(config, 1, vec![]).unwrap();

    let alloc1 = pool.allocate(100).unwrap();
    assert_eq!(alloc1.offset, 0);
    assert_eq!(alloc1.size, 100);

    let alloc2 = pool.allocate(200).unwrap();
    assert!(alloc2.offset >= 100);
}

#[test]
fn test_memory_pool_write_read() {
    let config = MemoryPoolConfig {
        size: 4096,
        alignment: 64,
    };
    let mut pool = MemoryPool::new(config, 1, vec![]).unwrap();

    let data = b"Hello, RDMA!";
    pool.write(0, data).unwrap();

    let read_data = pool.read(0, data.len()).unwrap();
    assert_eq!(read_data, data);
}

#[test]
fn allocations_are_aligned_and_bumped_by_footprint() {
    let mut pool = MemoryPool::new(MemoryPoolConfig { size: 4096, alignment: 64 }, 1, vec![]).unwrap();
    assert_eq!(pool.allocate(100).unwrap().offset, 0);
    assert_eq!(pool.allocate(200).unwrap().offset, 128);
    assert_eq!(pool.allocate(1).unwrap().offset, 384);
    let stats = pool.stats();
    assert_eq!(stats.total, 4096);
    assert_eq!(stats.used, 128 + 256 + 64);
    assert_eq!(stats.available, 4096 - 448);
}

#[test]
fn released_block_is_reused_first_fit() {
    let mut pool = MemoryPool::new(MemoryPoolConfig { size: 4096, alignment: 64 }, 1, vec![]).unwrap();
    let a = pool.allocate(256).unwrap();
    let b = pool.allocate(64).unwrap();
    let _c = pool.allocate(64).unwrap();
    pool.deallocate(&b);
    pool.deallocate(&a);
    // the first block in offset order that holds the request is taken
    let d = pool.allocate(64).unwrap();
    assert_eq!(d.offset, 0);
    // its remainder stays free and is found next
    let e = pool.allocate(128).unwrap();
    assert_eq!(e.offset, 64);
    let f = pool.allocate(64).unwrap();
    assert_eq!(f.offset, 192);
    let g = pool.allocate(64).unwrap();
    assert_eq!(g.offset, 256);
    assert_eq!(pool.stats().used, 64 + 128 + 64 + 64 + 64);
}

#[test]
fn exhausted_pool_reports_pool_exhausted() {
    let mut pool = MemoryPool::new(MemoryPoolConfig { size: 4096, alignment: 1024 }, 1, vec![]).unwrap();
    for _ in 0..4 {
        pool.allocate(1024).unwrap();
    }
    assert_eq!(pool.allocate(1), Err(KvError::PoolExhausted));
    assert_eq!(pool.stats().used, 4096);
    assert_eq!(pool.stats().available, 0);
}

#[test]
fn oversized_request_fails() {
    let mut pool = MemoryPool::new(MemoryPoolConfig { size: 4096, alignment: 64 }, 1, vec![]).unwrap();
    assert_eq!(pool.allocate(4097), Err(KvError::PoolExhausted));
    assert_eq!(pool.stats().used, 0);
}

#[test]
fn zero_size_allocation_holds_nothing() {
    let mut pool = MemoryPool::new(MemoryPoolConfig { size: 4096, alignment: 64 }, 1, vec![]).unwrap();
    let z = pool.allocate(0).unwrap();
    assert_eq!(z.size, 0);
    assert_eq!(pool.stats().used, 0);
    pool.deallocate(&z);
    assert_eq!(pool.stats().used, 0);
    assert_eq!(pool.allocate(64).unwrap().offset, 0);
}

#[test]
fn out_of_bounds_access_is_internal_error() {
    let mut pool = MemoryPool::new(MemoryPoolConfig { size: 64, alignment: 64 }, 1, vec![]).unwrap();
    assert_eq!(pool.write(60, b"12345"), Err(KvError::Internal));
    assert_eq!(pool.read(60, 5), Err(KvError::Internal));
    assert_eq!(pool.buffer(), &[0u8; 64][..]);
    assert!(pool.write(59, b"12345").is_ok());
    assert_eq!(pool.read(59, 5).unwrap(), b"12345");
}

#[test]
fn unaligned_pool_size_leaves_tail_unallocated() {
    let mut pool = MemoryPool::new(MemoryPoolConfig { size: 1000, alignment: 256 }, 1, vec![]).unwrap();
    assert_eq!(pool.stats().total, 1000);
    assert_eq!(pool.stats().available, 768);
    for _ in 0..3 {
        pool.allocate(256).unwrap();
    }
    assert_eq!(pool.allocate(1), Err(KvError::PoolExhausted));
}

#[test]
fn descriptor_gets_one_key_per_domain() {
    let addrs = vec![DomainAddress::new(b"a".to_vec()), DomainAddress::new(b"bc".to_vec())];
    let pool = MemoryPool::new(MemoryPoolConfig { size: 4096, alignment: 64 }, 3, addrs).unwrap();
    let entries = pool.descriptor().entries();
    assert_eq!(entries.len(), 2);
    assert_eq!(entries[0].0.as_bytes(), b"a");
    assert_eq!(entries[0].1 .0, 0);
    assert_eq!(entries[1].0.as_bytes(), b"bc");
    assert_eq!(entries[1].1 .0, 1);
    assert_eq!(pool.descriptor().first_domain().unwrap().as_bytes(), b"a");
    assert_eq!(pool.descriptor().ptr, pool.handle().ptr);
    assert_eq!(pool.handle().len, 4096);
}

#[test]
fn bump_allocator_counts_live_bytes() {
    let mut a = BumpAllocator::new(1024, 128);
    let x = a.allocate(1).unwrap();
    let y = a.allocate(129).unwrap();
    assert_eq!((x, y), (0, 128));
    assert_eq!(a.used(), 128 + 256);
    assert_eq!(a.available(), 1024 - 384);
    a.deallocate(x, 1);
    assert_eq!(a.used(), 256);
    assert_eq!(a.allocate(100), Some(0));
    let _ = PoolAllocation { offset: 0, size: 0 };
}

#[test]
fn default_pool_config_is_one_gib_page_aligned() {
    let c = MemoryPoolConfig::default();
    assert_eq!(c.size, 1024 * 1024 * 1024);
    assert_eq!(c.alignment, 4096);
}
