//! A liveness agent for a device on a publish/subscribe bus, as a library
//! of decisions: what the device says of itself, how that is written on the
//! wire, what the broker is to say when the device is gone, and what is
//! published in answer to each thing that happens to the connection. The
//! program around it reads the clock, talks to the broker and writes the
//! log.

pub mod configuration;
pub mod json;
pub mod message;
pub mod profile;
pub mod report;
pub mod session;
pub mod text;
pub mod timestamp;
