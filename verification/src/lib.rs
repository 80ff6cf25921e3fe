//! Durable document storage for a search server.
//!
//! The heart of the library is a pair: the codec that packs a batch of
//! documents into one columnar block of bytes ([`codec`], over the document
//! model of [`document`]), and the sharded, append-only block store that
//! persists such blocks and doubles as a write-ahead log ([`writers`],
//! [`shard`], [`service`], [`reader`], with segment files named by the keys
//! of [`file_key`]).
//!
//! Around it stand the pieces of the server that decide something on plain
//! values: casting incoming values to the types of a schema ([`type_cast`],
//! [`datetime`]), permissions of access tokens and the cache they are kept
//! in ([`auth`], [`tokens`]), the parameters of requests ([`requests`]) and
//! spelling correction ([`correction`]).
//!
//! The library does no input or output of its own.  Files, clocks, tasks and
//! sockets belong to the application, which hands the library plain values
//! and, for segments, an implementation of [`writers::SegmentWriter`].

pub mod auth;
pub mod codec;
pub mod correction;
pub mod datetime;
pub mod decimal;
pub mod document;
pub mod error;
pub mod file_key;
pub mod reader;
pub mod requests;
pub mod service;
pub mod shard;
pub mod text;
pub mod tokens;
pub mod type_cast;
pub mod wire;
pub mod writers;
