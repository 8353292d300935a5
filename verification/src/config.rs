use vstd::prelude::*;

verus! {

// The configuration surface the command-line entry points consume. The
// core only carries these values; reading and parsing the files is the
// callers' business.

/// Everything a server needs to start.
#[derive(Debug, Clone, PartialEq, Eq)]
pub struct ServerConfig {
    pub general: GeneralConfig,
    pub storage: StorageConfig,
    pub tls: ServerTlsConfig,
    pub log: LogConfig,
}

/// Everything a client needs to connect.
#[derive(Debug, Clone, PartialEq, Eq)]
pub struct ClientConfig {
    pub general: GeneralConfig,
    pub tls: ClientTlsConfig,
}

/// The address to bind or connect to.
#[derive(Debug, Clone, PartialEq, Eq)]
pub struct GeneralConfig {
    pub addr: String,
}

/// Where logs go and how often the file rotates.
#[derive(Debug, Clone, PartialEq, Eq)]
pub struct LogConfig {
    pub path: String,
    pub rotation: RotationConfig,
}

/// How often the log file rotates.
#[derive(Debug, Clone, PartialEq, Eq)]
pub enum RotationConfig {
    Hourly,
    Daily,
    Never,
}

/// Which storage backend to run, and where a persistent one keeps its
/// files.
#[derive(Debug, Clone, PartialEq, Eq)]
pub enum StorageConfig {
    MemTable,
    SledDb(String),
}

/// The server's certificate, key, and optional client CA.
#[derive(Debug, Clone, PartialEq, Eq)]
pub struct ServerTlsConfig {
    pub cert: String,
    pub key: String,
    pub ca: Option<String>,
}

/// The client's expected server name, optional identity, and optional CA.
#[derive(Debug, Clone, PartialEq, Eq)]
pub struct ClientTlsConfig {
    pub domain: String,
    pub identity: Option<(String, String)>,
    pub ca: Option<String>,
}

} // verus!
