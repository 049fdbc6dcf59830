use kv_rdma_poc::client::{ClientConfig, KvCacheClient, MAX_VALUE_SIZE};
use kv_rdma_poc::error::KvError;
use kv_rdma_poc::messages::GetResponse;
use kv_rdma_poc::server::{KvCacheServer, ServerConfig};
use kv_rdma_poc::transport::TransportConfig;

fn server(mb: usize) -> KvCacheServer {
    KvCacheServer::new(ServerConfig { memory_pool_size: mb * 1024 * 1024, ..Default::default() }).unwrap()
}

fn client(id: u32, mb: usize) -> KvCacheClient {
    KvCacheClient::new(ClientConfig {
        client_id: id,
        receive_buffer_size: mb * 1024 * 1024,
        transport: TransportConfig { node_id: id, num_domains: 1, use_mock: true },
        ..Default::default()
    })
    .unwrap()
}

#[test]
fn test_client_creation() {
    let config = ClientConfig {
        client_id: 1,
        receive_buffer_size: 1024 * 1024,
        ..Default::default()
    };
    let client = KvCacheClient::new(config).unwrap();
    assert!(!client.is_connected());
}

#[test]
fn default_client_config() {
    let c = ClientConfig::default();
    assert_eq!(c.client_id, 1);
    assert_eq!(c.server_addr, "http://[::1]:50051");
    assert_eq!(c.receive_buffer_size, 64 * 1024 * 1024);
}

#[test]
fn operations_before_connect_fail() {
    let mut s = server(1);
    let mut c = client(1, 4);
    assert_eq!(c.get(&mut s, b"k", 0), Err(KvError::NotConnected));
    assert_eq!(c.put(&mut s, b"k", b"v", 0, 0), Err(KvError::NotConnected));
    assert_eq!(c.delete(&mut s, b"k"), Err(KvError::NotConnected));
    assert_eq!(c.heartbeat(&s), Err(KvError::NotConnected));
    assert_eq!(s.num_entries(), 0);
}

#[test]
fn put_then_get_returns_value() {
    let mut s = server(1);
    let mut c = client(1, 4);
    c.connect(&mut s).unwrap();
    assert!(c.is_connected());
    c.put(&mut s, b"key1", b"value1", 0, 0).unwrap();
    assert_eq!(c.get(&mut s, b"key1", 10).unwrap(), b"value1");
    assert_eq!(c.memory_stats().used, 0);
}

#[test]
fn get_after_delete_reports_not_found() {
    let mut s = server(1);
    let mut c = client(1, 4);
    c.connect(&mut s).unwrap();
    c.put(&mut s, b"key1", b"value1", 0, 0).unwrap();
    assert_eq!(c.delete(&mut s, b"key1"), Ok(true));
    assert_eq!(c.get(&mut s, b"key1", 0), Err(KvError::Remote("Key not found".to_string())));
    assert_eq!(c.delete(&mut s, b"key1"), Ok(false));
}

#[test]
fn ttl_expiry_through_client() {
    let mut s = server(1);
    let mut c = client(1, 4);
    c.connect(&mut s).unwrap();
    c.put(&mut s, b"tk", b"v", 1, 5_000).unwrap();
    assert_eq!(c.get(&mut s, b"tk", 5_900).unwrap(), b"v");
    assert_eq!(c.get(&mut s, b"tk", 6_200), Err(KvError::Remote("Key not found".to_string())));
    assert_eq!(s.num_entries(), 0);
}

#[test]
fn large_put_is_not_implemented() {
    let mut s = server(1);
    let mut c = client(1, 4);
    c.connect(&mut s).unwrap();
    assert_eq!(c.put(&mut s, b"big", &vec![0u8; 64 * 1024], 0, 0), Err(KvError::NotImplemented));
    assert!(c.put(&mut s, b"big", &vec![0u8; 64 * 1024 - 1], 0, 0).is_ok());
}

#[test]
fn value_beyond_slot_is_buffer_too_small() {
    let mut s = server(4);
    s.put_value(b"huge".to_vec(), vec![1u8; MAX_VALUE_SIZE + 1], 0, 0).unwrap();
    let mut c = client(1, 4);
    c.connect(&mut s).unwrap();
    assert_eq!(c.get(&mut s, b"huge", 0), Err(KvError::Remote("Response buffer too small".to_string())));
    assert_eq!(c.memory_stats().used, 0);
}

#[test]
fn full_receive_pool_fails_get() {
    let mut s = server(1);
    let mut c = client(1, 1);
    c.connect(&mut s).unwrap();
    let _held = c.begin_get(b"a").unwrap();
    assert_eq!(c.get(&mut s, b"a", 0), Err(KvError::PoolExhausted));
}

#[test]
fn request_ids_are_unique_and_released() {
    let mut c = client(1, 4);
    let mut s = server(1);
    c.connect(&mut s).unwrap();
    let r0 = c.begin_get(b"a").unwrap();
    let r1 = c.begin_get(b"b").unwrap();
    assert_eq!(r0.request_id, 0);
    assert_eq!(r1.request_id, 1);
    let l0 = r0.response_location.as_ref().unwrap();
    let l1 = r1.response_location.as_ref().unwrap();
    assert_ne!(l0.offset, l1.offset);
    assert_eq!(l0.length, MAX_VALUE_SIZE as u64);
    assert_eq!(l0.node_id, 1);
    assert_eq!(c.memory_stats().used, 2 * MAX_VALUE_SIZE);
    let failed = GetResponse { success: false, value_length: 0, error_message: "x".to_string(), request_id: 1 };
    assert_eq!(c.finish_get(&failed), Err(KvError::Remote("x".to_string())));
    assert_eq!(c.finish_get(&failed), Err(KvError::Internal));
    assert!(c.abandon_get(0));
    assert!(!c.abandon_get(0));
    assert_eq!(c.memory_stats().used, 0);
    let r2 = c.begin_get(b"c").unwrap();
    assert_eq!(r2.request_id, 2);
}

#[test]
fn finish_get_copies_reported_length() {
    let mut c = client(1, 4);
    let mut s = server(1);
    c.connect(&mut s).unwrap();
    let r = c.begin_get(b"a").unwrap();
    let ok = GetResponse { success: true, value_length: 3, error_message: String::new(), request_id: r.request_id };
    assert_eq!(c.finish_get(&ok).unwrap(), vec![0u8; 3]);
    let r = c.begin_get(b"a").unwrap();
    let too_long = GetResponse {
        success: true,
        value_length: MAX_VALUE_SIZE as u64 + 1,
        error_message: String::new(),
        request_id: r.request_id,
    };
    assert_eq!(c.finish_get(&too_long), Err(KvError::Internal));
    assert_eq!(c.memory_stats().used, 0);
}

#[test]
fn registration_carries_client_identity() {
    let c = client(7, 2);
    let req = c.registration();
    assert_eq!(req.client_id, 7);
    assert_eq!(req.receive_buffer_size, 2 * 1024 * 1024);
    assert_eq!(req.domain_addresses, vec![b"mock://node7/domain0".to_vec()]);
}

#[test]
fn put_on_full_server_reports_its_message() {
    let mut s = KvCacheServer::new(ServerConfig { memory_pool_size: 4096, ..Default::default() }).unwrap();
    let mut c = client(1, 4);
    c.connect(&mut s).unwrap();
    c.put(&mut s, b"a", b"x", 0, 0).unwrap();
    assert_eq!(c.put(&mut s, b"b", b"y", 0, 0), Err(KvError::Remote("Memory pool exhausted".to_string())));
    assert_eq!(s.num_entries(), 1);
}
