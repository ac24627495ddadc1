//! The options of the scheduler and their defaults.

use vstd::prelude::*;
use vstd::string::StringExecFns;

verus! {

/// The options that the configuration file may set.
#[derive(Debug, Clone, PartialEq, Eq)]
pub struct Configuration {
    /// Path of the serial byte device.
    pub uart: String,
    /// Bits per second on the serial link.
    pub baudrate: u32,
    /// The output line of the heartbeat.
    pub heartbeat_pin: u8,
    /// The output line that signals pending events.
    pub update_pin: u8,
    /// How often per second the heartbeat goes through a full period.
    pub heartbeat_freq: u64,
    /// Path of the local stream socket for events from outside.
    pub socket: String,
}

impl Default for Configuration {
    /// The options that hold where the configuration file is missing or
    /// cannot be parsed.
    fn default() -> (config: Self)
        ensures
            config.uart@ == "/dev/serial0"@,
            config.baudrate == 921_600,
            config.heartbeat_pin == 34,
            config.update_pin == 35,
            config.heartbeat_freq == 10,
            config.socket@ == "/tmp/scheduler_socket"@,
    {
        Configuration {
            uart: String::from_str("/dev/serial0"),
            baudrate: 921_600,
            heartbeat_pin: 34,
            update_pin: 35,
            heartbeat_freq: 10,
            socket: String::from_str("/tmp/scheduler_socket"),
        }
    }
}

impl Configuration {
    /// The milliseconds for which the heartbeat line stays high, and then
    /// low: half a period, `500 / heartbeat_freq`.
    pub fn heartbeat_half_period(&self) -> (millis: u64)
        requires
            self.heartbeat_freq > 0,
        ensures
            millis == 500int / (self.heartbeat_freq as int),
    {
        500 / self.heartbeat_freq
    }
}

} // verus!
