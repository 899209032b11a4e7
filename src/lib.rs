//! Synchronous snapshot bridge for a terminal volume mixer.
//!
//! The audio server answers introspection queries through callbacks that run
//! while its event loop is stepped. This library holds the decisions around
//! that protocol: the connection state machine, the bookkeeping of outstanding
//! list queries, the join of sinks with the streams routed to them, and the
//! last-write-wins cache that decouples polling from rendering.
pub mod cache;
pub mod connection;
pub mod data;
pub mod meter;
pub mod query;
pub mod snapshot;

pub use cache::{publish, ChannelClosedError, CrossThreadCache};
pub use connection::{
    ConnectProgress, ConnectionError, ConnectionManager, ConnectionState, ContextState,
    IterateOutcome,
};
pub use data::{SinkInformation, SinkInputInformation, SinkState};
pub use meter::MeterGlyph;
pub use query::{AwaitStatus, IntrospectionRequest, ListResult, OperationState, QueryCoordinator};
pub use snapshot::{SinkAndInputs, VolumeInfo};
