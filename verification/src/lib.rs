//! A verified core for an ONVIF camera client.
//!
//! The library covers the pure logic of the protocol client: the streaming
//! XML field extractor, the WS-Discovery reply handling with deduplication,
//! the SOAP request templates and retry bookkeeping, the capability builder
//! stages that turn SOAP responses into typed records, and the line-oriented
//! device registry codec.  All network and file I/O is left to the embedding
//! application, which feeds raw bytes in and takes typed records out.

pub mod text;
pub mod xml;
pub mod device;
pub mod error;
pub mod client;
pub mod builder;
pub mod camera;
pub mod registry;
