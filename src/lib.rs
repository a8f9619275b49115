//! Frame-timing telemetry: a tolerant parser for a capture tool's streamed
//! records, windowed FPS metrics with percentile lows, and the state machine
//! of one monitoring session.

pub mod capture;
pub mod decimal;
pub mod games;
pub mod hardware;
pub mod metrics;
pub mod monitor;
pub mod record;
pub mod text;
