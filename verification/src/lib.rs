//! Bridge between a Zaber-style ASCII serial device and an OPC UA style
//! publishing server: a serialized device link, a telemetry poller and a
//! command dispatcher, with the published state they maintain.

pub mod dispatcher;
pub mod errors;
pub mod link;
pub mod poller;
pub mod position;
pub mod state;
