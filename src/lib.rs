//! Control logic of a live audio/video mixer node: typed settings,
//! time-driven control points, the consumer registry behind a stream
//! producer, the node's schedule, and the mixer's own bookkeeping.
//!
//! The media graph itself is driven by the application around this library;
//! every decision it takes is made here.
pub mod control;
pub mod controllers;
pub mod mixer;
pub mod producer;
pub mod schedule;
pub mod setting;
pub mod text;
pub mod value;
