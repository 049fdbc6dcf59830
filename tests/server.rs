use kv_rdma_poc::error::KvError;
use kv_rdma_poc::memory::{MemoryPool, MemoryPoolConfig};
use kv_rdma_poc::messages::{DeleteRequest, GetRequest, HeartbeatRequest, PutRequest, RegisterClientRequest, ValueSource};
use kv_rdma_poc::protocol::{CacheEntry, MemoryRegionDescriptor, ValueLocation};
use kv_rdma_poc::server::{KvCacheServer, ServerConfig};
use kv_rdma_poc::transport::{DomainRouting, TransportConfig};

fn small_server() -> KvCacheServer {
    let config = ServerConfig {
        node_id: 1,
        memory_pool_size: 1024 * 1024,
        ..Default::default()
    };
    KvCacheServer::new(config).unwrap()
}

fn window(length: u64) -> ValueLocation {
    ValueLocation::new(9, MemoryRegionDescriptor::new(0, vec![]), 0, length)
}

#[test]
fn test_server_creation() {
    let config = ServerConfig {
        node_id: 1,
        memory_pool_size: 1024 * 1024,
        ..Default::default()
    };
    let server = KvCacheServer::new(config).unwrap();
    assert_eq!(server.num_entries(), 0);
}

#[test]
fn test_put_and_lookup() {
    let mut server = small_server();
    server.put_value(b"key1".to_vec(), b"value1".to_vec(), 0, 0).unwrap();
    assert!(server.entry(b"key1").is_some());
    let entry = server.entry(b"key1").unwrap();
    assert_eq!(entry.data, b"value1");
}

#[test]
fn default_server_config() {
    let c = ServerConfig::default();
    assert_eq!(c.node_id, 0);
    assert_eq!(c.listen_addr, "[::1]:50051");
    assert_eq!(c.memory_pool_size, 1024 * 1024 * 1024);
    let server = small_server();
    assert_eq!(server.listen_addr(), "[::1]:50051");
    assert_eq!(server.node_id(), 1);
}

#[test]
fn real_fabric_is_refused() {
    let config = ServerConfig {
        memory_pool_size: 4096,
        transport: TransportConfig { node_id: 0, num_domains: 1, use_mock: false },
        ..Default::default()
    };
    assert!(matches!(KvCacheServer::new(config), Err(KvError::NotImplemented)));
}

#[test]
fn put_places_value_in_pool_and_counts_footprint() {
    let mut server = small_server();
    server.put_value(b"a".to_vec(), vec![7u8; 10], 0, 0).unwrap();
    server.put_value(b"b".to_vec(), vec![8u8; 5000], 0, 0).unwrap();
    assert_eq!(server.memory_stats().used, 4096 + 8192);
    let a = server.entry(b"a").unwrap();
    let b = server.entry(b"b").unwrap();
    assert_eq!(a.offset % 4096, 0);
    assert_eq!(b.offset % 4096, 0);
    assert_ne!(a.offset, b.offset);
    assert_eq!(a.len(), 10);
    assert!(!a.is_empty());
}

#[test]
fn second_put_replaces_and_releases() {
    let mut server = small_server();
    server.put_value(b"k".to_vec(), vec![1u8; 5000], 0, 0).unwrap();
    let used_first = server.memory_stats().used;
    server.put_value(b"k".to_vec(), b"v2".to_vec(), 0, 0).unwrap();
    let used_second = server.memory_stats().used;
    assert!(used_second <= used_first);
    assert_eq!(used_second, 4096);
    assert_eq!(server.entry(b"k").unwrap().data, b"v2");
    assert_eq!(server.num_entries(), 1);
}

#[test]
fn many_puts_of_one_key_keep_only_the_last() {
    let mut server = small_server();
    for i in 0..20u8 {
        server.put_value(b"k".to_vec(), vec![i; 100 + i as usize], 0, 0).unwrap();
    }
    assert_eq!(server.num_entries(), 1);
    assert_eq!(server.entry(b"k").unwrap().data, vec![19u8; 119]);
    assert_eq!(server.memory_stats().used, 4096);
}

#[test]
fn used_matches_live_entries_after_mixed_operations() {
    let mut server = small_server();
    server.put_value(b"a".to_vec(), vec![0u8; 1], 0, 0).unwrap();
    server.put_value(b"b".to_vec(), vec![0u8; 4097], 0, 0).unwrap();
    server.put_value(b"c".to_vec(), vec![0u8; 0], 0, 0).unwrap();
    assert!(server.delete_value(b"a"));
    server.put_value(b"d".to_vec(), vec![0u8; 8192], 0, 0).unwrap();
    server.put_value(b"b".to_vec(), vec![0u8; 10], 0, 0).unwrap();
    // live: b (10 -> 4096), c (0 -> 0), d (8192 -> 8192)
    assert_eq!(server.memory_stats().used, 4096 + 8192);
}

#[test]
fn delete_of_absent_key_reports_false() {
    let mut server = small_server();
    assert!(!server.delete_value(b"never"));
    let r = server.handle_delete(&DeleteRequest { key: b"never".to_vec() });
    assert!(r.success);
    assert!(!r.key_existed);
}

#[test]
fn get_after_delete_is_not_found() {
    let mut server = small_server();
    server.put_value(b"key1".to_vec(), b"value1".to_vec(), 0, 0).unwrap();
    assert!(server.delete_value(b"key1"));
    assert!(matches!(server.prepare_get(b"key1", &window(1024), 0), Err(KvError::NotFound)));
    assert_eq!(server.memory_stats().used, 0);
}

#[test]
fn prepare_get_describes_the_transfer() {
    let mut server = small_server();
    server.put_value(b"key1".to_vec(), b"value1".to_vec(), 0, 0).unwrap();
    let loc = ValueLocation::new(3, MemoryRegionDescriptor::new(77, vec![]), 4096, 100);
    let t = server.prepare_get(b"key1", &loc, 0).unwrap();
    assert_eq!(t.length, 6);
    assert_eq!(t.src_offset, server.entry(b"key1").unwrap().offset);
    assert_eq!(t.dst_offset, 4096);
    assert_eq!(t.dst_descriptor.ptr, 77);
    assert_eq!(t.routing, DomainRouting::RoundRobinSharded { num_shards: 1 });
    assert_eq!(t.imm_data, None);
}

#[test]
fn small_window_is_buffer_too_small() {
    let mut server = small_server();
    server.put_value(b"k".to_vec(), b"value1".to_vec(), 0, 0).unwrap();
    assert!(matches!(server.prepare_get(b"k", &window(5), 0), Err(KvError::BufferTooSmall)));
    assert!(server.prepare_get(b"k", &window(6), 0).is_ok());
}

#[test]
fn expired_entry_is_removed_on_lookup() {
    let mut server = small_server();
    server.put_value(b"tk".to_vec(), b"v".to_vec(), 1, 1000).unwrap();
    assert!(server.prepare_get(b"tk", &window(16), 1999).is_ok());
    assert!(matches!(server.prepare_get(b"tk", &window(16), 2200), Err(KvError::NotFound)));
    assert!(server.entry(b"tk").is_none());
    assert_eq!(server.memory_stats().used, 0);
}

#[test]
fn zero_ttl_never_expires() {
    let entry = CacheEntry::new(b"v".to_vec(), 0, 0, 0);
    assert!(!entry.is_expired(u64::MAX));
    let timed = CacheEntry::new(b"v".to_vec(), 0, 2, 500);
    assert!(!timed.is_expired(2499));
    assert!(timed.is_expired(2500));
    assert!(!timed.is_expired(100));
}

#[test]
fn serve_get_lands_value_in_destination_pool() {
    let mut server = small_server();
    server.put_value(b"key1".to_vec(), b"value1".to_vec(), 0, 0).unwrap();
    let mut dst = MemoryPool::new(MemoryPoolConfig { size: 8192, alignment: 4096 }, 2, vec![]).unwrap();
    let loc = ValueLocation::new(2, dst.descriptor().clone(), 4096, 4096);
    let req = GetRequest { key: b"key1".to_vec(), response_location: Some(loc), request_id: 42 };
    let resp = server.serve_get(&req, 0, &mut dst).unwrap();
    assert!(resp.success);
    assert_eq!(resp.value_length, 6);
    assert_eq!(resp.request_id, 42);
    assert_eq!(dst.read(4096, 6).unwrap(), b"value1");
    assert_eq!(dst.read(0, 6).unwrap(), &[0u8; 6]);
}

#[test]
fn serve_get_reports_failures_in_reply() {
    let mut server = small_server();
    server.put_value(b"k".to_vec(), b"value1".to_vec(), 0, 0).unwrap();
    let mut dst = MemoryPool::new(MemoryPoolConfig { size: 4100, alignment: 4096 }, 2, vec![]).unwrap();
    let missing = GetRequest { key: b"x".to_vec(), response_location: Some(window(16)), request_id: 1 };
    let r = server.serve_get(&missing, 0, &mut dst).unwrap();
    assert!(!r.success);
    assert_eq!(r.error_message, "Key not found");
    let past_end = ValueLocation::new(2, dst.descriptor().clone(), 4096, 4096);
    let req = GetRequest { key: b"k".to_vec(), response_location: Some(past_end), request_id: 2 };
    let r = server.serve_get(&req, 0, &mut dst).unwrap();
    assert!(!r.success);
    assert_eq!(r.value_length, 0);
    assert_eq!(r.error_message, "Transfer failed: destination range passes the end of the region");
    let no_loc = GetRequest { key: b"k".to_vec(), response_location: None, request_id: 3 };
    assert!(matches!(server.serve_get(&no_loc, 0, &mut dst), Err(KvError::InvalidArgument)));
}

#[test]
fn put_requests_are_checked() {
    let mut server = small_server();
    let none = PutRequest { key: b"k".to_vec(), value_source: None, ttl_seconds: 0 };
    assert!(matches!(server.handle_put(none, 0), Err(KvError::InvalidArgument)));
    let remote = PutRequest {
        key: b"k".to_vec(),
        value_source: Some(ValueSource::RdmaLocation(window(10))),
        ttl_seconds: 0,
    };
    assert!(matches!(server.handle_put(remote, 0), Err(KvError::NotImplemented)));
    let inline = PutRequest { key: b"k".to_vec(), value_source: Some(ValueSource::InlineValue(b"v".to_vec())), ttl_seconds: 0 };
    let r = server.handle_put(inline, 0).unwrap();
    assert!(r.success);
    assert!(r.error_message.is_empty());
    let huge = PutRequest {
        key: b"h".to_vec(),
        value_source: Some(ValueSource::InlineValue(vec![0u8; 2 * 1024 * 1024])),
        ttl_seconds: 0,
    };
    let r = server.handle_put(huge, 0).unwrap();
    assert!(!r.success);
    assert_eq!(r.error_message, "Memory pool exhausted");
    assert_eq!(server.num_entries(), 1);
}

#[test]
fn pool_exhaustion_keeps_prior_entries() {
    let config = ServerConfig { memory_pool_size: 16 * 4096, ..Default::default() };
    let mut server = KvCacheServer::new(config).unwrap();
    for i in 0..16 {
        server.put_value(format!("k{}", i).into_bytes(), vec![i as u8; 1024], 0, 0).unwrap();
    }
    let r = server.put_value(b"overflow".to_vec(), vec![0u8; 2048], 0, 0);
    assert_eq!(r, Err(KvError::PoolExhausted));
    for i in 0..16 {
        assert_eq!(server.entry(format!("k{}", i).as_bytes()).unwrap().data, vec![i as u8; 1024]);
    }
}

#[test]
fn register_client_answers_with_server_identity() {
    let config = ServerConfig {
        node_id: 5,
        memory_pool_size: 4096,
        transport: TransportConfig { node_id: 0, num_domains: 2, use_mock: true },
        ..Default::default()
    };
    let mut server = KvCacheServer::new(config).unwrap();
    let r = server.register_client(&RegisterClientRequest {
        client_id: 9,
        domain_addresses: vec![b"x".to_vec()],
        receive_buffer_size: 4096,
    });
    assert!(r.success);
    assert_eq!(r.server_id, 5);
    assert_eq!(r.server_domain_addresses, vec![b"mock://node5/domain0".to_vec(), b"mock://node5/domain1".to_vec()]);
    assert!(server.heartbeat(&HeartbeatRequest { client_id: 9 }).alive);
}
