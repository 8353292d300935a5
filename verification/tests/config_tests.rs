use kv_core::config::{
    ServerConfig, ClientConfig, GeneralConfig, LogConfig, RotationConfig, StorageConfig,
    ServerTlsConfig, ClientTlsConfig,
};

#[test]
fn config_values_compare_by_contents() {
    let server = ServerConfig {
        general: GeneralConfig { addr: "127.0.0.1:9527".to_string() },
        storage: StorageConfig::SledDb("/tmp/kv".to_string()),
        tls: ServerTlsConfig {
            cert: "cert".to_string(),
            key: "key".to_string(),
            ca: None,
        },
        log: LogConfig { path: "/tmp/log".to_string(), rotation: RotationConfig::Daily },
    };
    assert_eq!(server.clone(), server);
    assert_ne!(server.storage, StorageConfig::MemTable);
    let client = ClientConfig {
        general: GeneralConfig { addr: "127.0.0.1:9527".to_string() },
        tls: ClientTlsConfig {
            domain: "kvserver.acme.inc".to_string(),
            identity: Some(("cert".to_string(), "key".to_string())),
            ca: None,
        },
    };
    assert_eq!(client.general.addr, server.general.addr);
}
