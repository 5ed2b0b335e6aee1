//! Oscilloscope control and test-campaign logic: the SCPI command library
//! and its dispatch, channel bookkeeping, resource and endpoint strings,
//! binary block headers, run summaries and counters.
pub mod acquisition;
pub mod block;
pub mod channel_mask;
pub mod csv;
pub mod dispatch;
pub mod endpoint;
pub mod instrument;
pub mod metrics;
pub mod order;
pub mod oscilloscope;
pub mod signal;
pub mod step;
pub mod summary;
pub mod text;
