//! Power, thermal and utilization monitoring.
pub mod args;
pub mod bytes;
pub mod calendar;
pub mod cli;
pub mod collect_cmd;
pub mod completion_cmd;
pub mod doctor_cmd;
pub mod event;
pub mod fan_cmd;
pub mod fans;
pub mod ffi;
pub mod fleet;
pub mod hosts;
pub mod http;
pub mod ioreport;
pub mod json;
pub mod memory;
pub mod launchd;
pub mod man_cmd;
pub mod pipe_cmd;
pub mod prometheus;
pub mod readings;
pub mod sample;
pub mod sampler;
pub mod seqlock;
pub mod serialize;
pub mod serve_cmd;
pub mod smc;
pub mod soc;
pub mod suggest;
pub mod text;
pub mod tui;
pub mod values;
