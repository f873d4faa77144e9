//! Transport settings: connection, read and write timeouts.
use vstd::prelude::*;

verus! {

pub const CONNECT_TIMEOUT_SECS: u64 = 10;

pub const READ_TIMEOUT_SECS: u64 = 30;

pub const WRITE_TIMEOUT_SECS: u64 = 30;

#[derive(Debug, Clone, Copy, PartialEq, Eq)]
pub struct TransportConfig {
    pub connect_timeout_secs: u64,
    pub read_timeout_secs: u64,
    pub write_timeout_secs: u64,
}

impl Default for TransportConfig {
    fn default() -> (r: Self)
        ensures
            r == (TransportConfig { connect_timeout_secs: 10, read_timeout_secs: 30, write_timeout_secs: 30 }),
    {
        TransportConfig {
            connect_timeout_secs: CONNECT_TIMEOUT_SECS,
            read_timeout_secs: READ_TIMEOUT_SECS,
            write_timeout_secs: WRITE_TIMEOUT_SECS,
        }
    }
}

impl TransportConfig {
    /// Every timeout must be nonzero.
    pub fn validate(&self) -> (r: Result<(), String>)
        ensures
            r is Ok <==> self.connect_timeout_secs != 0 && self.read_timeout_secs != 0 && self.write_timeout_secs != 0,
    {
        if self.connect_timeout_secs == 0 {
            return Err(String::from_str("connect timeout cannot be zero"));
        }
        if self.read_timeout_secs == 0 {
            return Err(String::from_str("read timeout cannot be zero"));
        }
        if self.write_timeout_secs == 0 {
            return Err(String::from_str("write timeout cannot be zero"));
        }
        Ok(())
    }
}

} // verus!
