//! Live-query bookkeeping and cluster bootstrap for a multi-node document
//! database: cluster membership, the node/table live-query registry, change
//! capture, notification fan-out and the garbage collector that repairs the
//! bookkeeping left behind by nodes that disappeared.

pub mod backoff;
pub mod capture;
pub mod catalog;
pub mod cbor;
pub mod clock;
pub mod convert;
pub mod datastore;
pub mod delivery;
pub mod document;
pub mod endpoint;
pub mod error;
pub mod fanout;
pub mod filter;
pub mod gc;
pub mod geometry;
pub mod grammar;
pub mod heartbeat;
pub mod ident;
pub mod layout;
pub mod options;
pub mod record;
pub mod registry;
pub mod seqs;
pub mod statements;
pub mod tables;
pub mod text;
pub mod transaction;
pub mod value;
