//! Decision core of a local face-authentication daemon.
//!
//! Everything here is a function of plain values: requests and identities,
//! file metadata, mapped buffers, command-line words, profile events. The
//! program around the library does the reading, the waiting and the writing.
pub mod authorization;
pub mod capture;
pub mod child_spawn;
pub mod detection;
pub mod diagnostics;
pub mod digest;
pub mod engine;
pub mod float_bits;
pub mod fp16_args;
pub mod fp16_assignment;
pub mod fp16_cache;
pub mod fp16_comparison;
pub mod fp16_corpus;
pub mod fp16_environment;
pub mod fp16_layout;
pub mod fp16_metrics;
pub mod fp16_model;
pub mod fp16_placement;
pub mod fp16_profile;
pub mod fp16_protocol;
pub mod fp16_provenance;
pub mod fp16_records;
pub mod fp16_report;
pub mod fp16_run;
pub mod fp16_tree;
pub mod fp16_wire;
pub mod fp16_worker;
pub mod frame;
pub mod inference;
pub mod mjpeg;
pub mod mode1_key;
pub mod names;
pub mod options;
pub mod order;
pub mod paths;
pub mod raw;
pub mod readiness;
pub mod scrfd;
pub mod startup;
pub mod text;
pub mod wiping;
pub mod wire;
