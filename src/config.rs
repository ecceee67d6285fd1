use vstd::prelude::*;

verus! {

/// Default connect timeout, in milliseconds.
pub const DEFAULT_CONNECT_TIMEOUT_MS: u64 = 30000;

/// Default read/write timeout, in milliseconds.
pub const DEFAULT_IO_TIMEOUT_MS: u64 = 60000;

/// Default largest packet, in bytes.
pub const DEFAULT_MAX_PACKET_SIZE: usize = 1048576;

/// Settings of the transport under one connection. Timeouts are in
/// milliseconds; the address is in `host:port` form.
#[derive(Debug, Clone, PartialEq)]
pub struct TransportConfig {
    pub bind_addr: String,
    pub connect_timeout_ms: u64,
    pub io_timeout_ms: u64,
    pub max_packet_size: usize,
}

/// Which setting `validate` refuses first, or `None` when all are usable.
pub enum ConfigFault {
    ZeroConnectTimeout,
    ZeroIoTimeout,
    ZeroMaxPacketSize,
}

impl TransportConfig {
    pub open spec fn fault(&self) -> Option<ConfigFault> {
        if self.connect_timeout_ms == 0 {
            Some(ConfigFault::ZeroConnectTimeout)
        } else if self.io_timeout_ms == 0 {
            Some(ConfigFault::ZeroIoTimeout)
        } else if self.max_packet_size == 0 {
            Some(ConfigFault::ZeroMaxPacketSize)
        } else {
            None
        }
    }

    /// The default settings: 127.0.0.1:8080, 30 s to connect, 60 s per I/O
    /// operation, packets up to 1 MiB.
    pub fn new() -> (r: Self)
        ensures
            r.bind_addr@ == "127.0.0.1:8080"@,
            r.connect_timeout_ms == DEFAULT_CONNECT_TIMEOUT_MS,
            r.io_timeout_ms == DEFAULT_IO_TIMEOUT_MS,
            r.max_packet_size == DEFAULT_MAX_PACKET_SIZE,
            r.fault() is None,
    {
        TransportConfig {
            bind_addr: "127.0.0.1:8080".to_string(),
            connect_timeout_ms: DEFAULT_CONNECT_TIMEOUT_MS,
            io_timeout_ms: DEFAULT_IO_TIMEOUT_MS,
            max_packet_size: DEFAULT_MAX_PACKET_SIZE,
        }
    }

    pub fn with_bind_addr(self, addr: String) -> (r: Self)
        ensures
            r.bind_addr@ == addr@,
            r.connect_timeout_ms == self.connect_timeout_ms,
            r.io_timeout_ms == self.io_timeout_ms,
            r.max_packet_size == self.max_packet_size,
    {
        TransportConfig { bind_addr: addr, ..self }
    }

    pub fn with_connect_timeout(self, timeout_ms: u64) -> (r: Self)
        ensures
            r.bind_addr@ == self.bind_addr@,
            r.connect_timeout_ms == timeout_ms,
            r.io_timeout_ms == self.io_timeout_ms,
            r.max_packet_size == self.max_packet_size,
    {
        TransportConfig { connect_timeout_ms: timeout_ms, ..self }
    }

    pub fn with_io_timeout(self, timeout_ms: u64) -> (r: Self)
        ensures
            r.bind_addr@ == self.bind_addr@,
            r.connect_timeout_ms == self.connect_timeout_ms,
            r.io_timeout_ms == timeout_ms,
            r.max_packet_size == self.max_packet_size,
    {
        TransportConfig { io_timeout_ms: timeout_ms, ..self }
    }

    pub fn with_max_packet_size(self, size: usize) -> (r: Self)
        ensures
            r.bind_addr@ == self.bind_addr@,
            r.connect_timeout_ms == self.connect_timeout_ms,
            r.io_timeout_ms == self.io_timeout_ms,
            r.max_packet_size == size,
    {
        TransportConfig { max_packet_size: size, ..self }
    }

    /// Refuses a zero connect timeout, a zero I/O timeout or a zero packet
    /// size, in that order of precedence.
    pub fn validate(&self) -> (r: Result<(), String>)
        ensures
            r is Ok <==> self.fault() is None,
            self.fault() == Some(ConfigFault::ZeroConnectTimeout) ==> (r matches Err(m) && m@
                == "Connect timeout cannot be zero"@),
            self.fault() == Some(ConfigFault::ZeroIoTimeout) ==> (r matches Err(m) && m@
                == "I/O timeout cannot be zero"@),
            self.fault() == Some(ConfigFault::ZeroMaxPacketSize) ==> (r matches Err(m) && m@
                == "Maximum packet size cannot be zero"@),
    {
        if self.connect_timeout_ms == 0 {
            return Err("Connect timeout cannot be zero".to_string());
        }
        if self.io_timeout_ms == 0 {
            return Err("I/O timeout cannot be zero".to_string());
        }
        if self.max_packet_size == 0 {
            return Err("Maximum packet size cannot be zero".to_string());
        }
        Ok(())
    }
}

impl Default for TransportConfig {
    fn default() -> (r: Self)
        ensures
            r.bind_addr@ == "127.0.0.1:8080"@,
            r.connect_timeout_ms == DEFAULT_CONNECT_TIMEOUT_MS,
            r.io_timeout_ms == DEFAULT_IO_TIMEOUT_MS,
            r.max_packet_size == DEFAULT_MAX_PACKET_SIZE,
    {
        TransportConfig::new()
    }
}

} // verus!
