//! Progressive telemetry dashboard engine.
//!
//! Scalar "tiles" and time-series "charts" describing a named monitored
//! source are pushed to a client over one long-lived connection: a skeleton
//! announcing the widget structure comes first, per-widget data updates
//! follow in completion order, and a completion fence closes the stream.
//! This crate holds the verified core: template resolution, probe
//! availability filtering, time-series downsampling, the length-prefixed
//! binary frame codec, and the stream orchestration decisions.

pub mod codec;
pub mod dashboard;
pub mod downsample;
pub mod frame;
pub mod influx;
pub mod listing;
pub mod message;
pub mod probe;
pub mod source;
pub mod stream;
pub mod telemetry;
pub mod template;
pub mod text;
pub mod widgets;
