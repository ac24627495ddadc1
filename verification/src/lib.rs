//! Payload scheduler of a small satellite's experimental unit: the framed
//! serial protocol, the command rules, the event queue and the result archive.

pub mod bytes;
pub mod checksum;
pub mod communication;
pub mod config;
pub mod filevec;
pub mod simple_archive;
pub mod command;
