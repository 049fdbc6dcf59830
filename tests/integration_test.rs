use kv_rdma_poc::client::{ClientConfig, KvCacheClient};
use kv_rdma_poc::memory::{MemoryPool, MemoryPoolConfig};
use kv_rdma_poc::protocol::MemoryRegionHandle;
use kv_rdma_poc::server::{KvCacheServer, ServerConfig};
use kv_rdma_poc::transport::{
    mock_domain_address, push_decimal, DomainRouting, RdmaTransport, TransferRequest, TransportConfig,
};

#[test]
fn test_server_client_integration() {
    let server_config = ServerConfig {
        node_id: 0,
        memory_pool_size: 16 * 1024 * 1024,
        transport: TransportConfig { node_id: 0, num_domains: 1, use_mock: true },
        ..Default::default()
    };
    let mut server = KvCacheServer::new(server_config).unwrap();

    let client_config = ClientConfig {
        client_id: 1,
        receive_buffer_size: 4 * 1024 * 1024,
        transport: TransportConfig { node_id: 1, num_domains: 1, use_mock: true },
        ..Default::default()
    };
    let mut client = KvCacheClient::new(client_config).unwrap();
    client.connect(&mut server).unwrap();

    client.put(&mut server, b"key1", b"value1", 0, 0).unwrap();
    client.put(&mut server, b"key2", b"hello world", 0, 0).unwrap();

    let value1 = client.get(&mut server, b"key1", 0).unwrap();
    assert_eq!(value1, b"value1");

    let value2 = client.get(&mut server, b"key2", 0).unwrap();
    assert_eq!(value2, b"hello world");

    let result = client.get(&mut server, b"nonexistent", 0);
    assert!(result.is_err());

    let existed = client.delete(&mut server, b"key1").unwrap();
    assert!(existed);

    let result = client.get(&mut server, b"key1", 0);
    assert!(result.is_err());

    let existed = client.delete(&mut server, b"nonexistent").unwrap();
    assert!(!existed);

    let alive = client.heartbeat(&server).unwrap();
    assert!(alive);
}

#[test]
fn test_large_values() {
    let server_config = ServerConfig {
        node_id: 0,
        memory_pool_size: 64 * 1024 * 1024,
        transport: TransportConfig::default(),
        ..Default::default()
    };
    let mut server = KvCacheServer::new(server_config).unwrap();

    let client_config = ClientConfig {
        client_id: 1,
        receive_buffer_size: 16 * 1024 * 1024,
        transport: TransportConfig::default(),
        ..Default::default()
    };
    let mut client = KvCacheClient::new(client_config).unwrap();
    client.connect(&mut server).unwrap();

    for size in [1024, 4096, 16384, 32768] {
        let key = format!("key_size_{}", size);
        let value: Vec<u8> = (0..size).map(|i| (i % 256) as u8).collect();

        client.put(&mut server, key.as_bytes(), &value, 0, 0).unwrap();

        let retrieved = client.get(&mut server, key.as_bytes(), 0).unwrap();
        assert_eq!(retrieved.len(), size);
        assert_eq!(retrieved, value);
    }
}

#[test]
fn test_multiple_clients() {
    let server_config = ServerConfig {
        node_id: 0,
        memory_pool_size: 32 * 1024 * 1024,
        transport: TransportConfig::default(),
        ..Default::default()
    };
    let mut server = KvCacheServer::new(server_config).unwrap();

    let mut clients = Vec::new();
    for i in 1..=3 {
        let client_config = ClientConfig {
            client_id: i,
            receive_buffer_size: 4 * 1024 * 1024,
            transport: TransportConfig { node_id: i, num_domains: 1, use_mock: true },
            ..Default::default()
        };
        let mut client = KvCacheClient::new(client_config).unwrap();
        client.connect(&mut server).unwrap();
        clients.push(client);
    }

    clients[0].put(&mut server, b"shared_key", b"shared_value", 0, 0).unwrap();

    for client in clients.iter_mut() {
        let value = client.get(&mut server, b"shared_key", 0).unwrap();
        assert_eq!(value, b"shared_value");
    }

    for (i, client) in clients.iter_mut().enumerate() {
        let key = format!("client_{}_key", i);
        let value = format!("client_{}_value", i);
        client.put(&mut server, key.as_bytes(), value.as_bytes(), 0, 0).unwrap();
    }

    for i in 0..3 {
        for client in clients.iter_mut() {
            let key = format!("client_{}_key", i);
            let expected_value = format!("client_{}_value", i);
            let value = client.get(&mut server, key.as_bytes(), 0).unwrap();
            assert_eq!(value, expected_value.as_bytes());
        }
    }
}

#[test]
fn test_mock_transfer() {
    let config = TransportConfig { node_id: 1, num_domains: 2, use_mock: true };
    let transport = RdmaTransport::new(config).unwrap();

    let addrs = transport.domain_addresses();
    assert_eq!(addrs.len(), 2);
    assert_eq!(addrs[0].as_bytes(), b"mock://node1/domain0");
    assert_eq!(addrs[1].as_bytes(), b"mock://node1/domain1");

    let src_data = vec![1u8, 2, 3, 4, 5];
    let mut dst = MemoryPool::new(MemoryPoolConfig { size: 5, alignment: 1 }, 1, vec![]).unwrap();

    let src_handle = MemoryRegionHandle::new(0, src_data.len());
    let request = TransferRequest {
        src_handle,
        src_offset: 0,
        length: 5,
        imm_data: None,
        dst_descriptor: dst.descriptor().clone(),
        dst_offset: 0,
        routing: DomainRouting::default(),
    };

    let result = transport.submit_transfer(&request, &src_data, &mut dst);
    assert!(result.success);
    assert_eq!(result.bytes_transferred, 5);
    assert_eq!(dst.buffer(), &src_data[..]);

    let mut past_end = request.clone();
    past_end.dst_offset = 1;
    let result = transport.submit_transfer(&past_end, &src_data, &mut dst);
    assert!(!result.success);
    assert_eq!(result.bytes_transferred, 0);
    assert!(result.error.is_some());
}

#[test]
fn register_memory_mints_one_key_per_domain() {
    let transport = RdmaTransport::new(TransportConfig { node_id: 12, num_domains: 3, use_mock: true }).unwrap();
    assert_eq!(transport.node_id(), 12);
    let (handle, desc) = transport.register_memory(0x1000, 64);
    assert_eq!(handle.ptr, 0x1000);
    assert_eq!(handle.len, 64);
    assert_eq!(desc.ptr, 0x1000);
    let entries = desc.entries();
    assert_eq!(entries.len(), 3);
    for (i, (addr, key)) in entries.iter().enumerate() {
        assert_eq!(addr.as_bytes(), format!("mock://node12/domain{}", i).as_bytes());
        assert_eq!(key.0, i as u64);
    }
    assert!(RdmaTransport::new(TransportConfig { node_id: 0, num_domains: 1, use_mock: false }).is_err());
}

#[test]
fn mock_addresses_spell_out_node_and_domain() {
    assert_eq!(mock_domain_address(1234, 10).as_bytes(), b"mock://node1234/domain10");
    assert_eq!(mock_domain_address(0, 0).as_bytes(), b"mock://node0/domain0");
    let mut out = b"x".to_vec();
    push_decimal(&mut out, u64::MAX);
    assert_eq!(out, b"x18446744073709551615");
    let t = RdmaTransport::new(TransportConfig::default()).unwrap();
    assert!(t.poll_completion().is_none());
}

#[test]
fn transfer_errors_name_the_range_at_fault() {
    let transport = RdmaTransport::new(TransportConfig::default()).unwrap();
    let src = vec![1u8, 2, 3];
    let mut dst = MemoryPool::new(MemoryPoolConfig { size: 8, alignment: 1 }, 0, vec![]).unwrap();
    let request = TransferRequest {
        src_handle: MemoryRegionHandle::new(0, 3),
        src_offset: 2,
        length: 2,
        imm_data: None,
        dst_descriptor: dst.descriptor().clone(),
        dst_offset: 0,
        routing: DomainRouting::default(),
    };
    let r = transport.submit_transfer(&request, &src, &mut dst);
    assert!(!r.success);
    assert_eq!(r.error.as_deref(), Some("Transfer failed: source range passes the end of the region"));
    let mut past = request.clone();
    past.src_offset = 0;
    past.dst_offset = 7;
    let r = transport.submit_transfer(&past, &src, &mut dst);
    assert_eq!(r.error.as_deref(), Some("Transfer failed: destination range passes the end of the region"));
    assert_eq!(dst.buffer(), &[0u8; 8][..]);
}
