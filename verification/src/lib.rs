//! A content-addressed store of build-log records.
//!
//! Each record carries a project name, a timestamp, optional tags and the
//! captured log text, and is named by a short fingerprint of its content.
//! The store keeps records in insertion order, lists the most recent ones,
//! resolves a fingerprint prefix to a single record and prepares exports.
//! Every executable function carries a machine-checked contract over the
//! mathematical views defined alongside it.

pub mod browse;
pub mod clock;
pub mod command;
pub mod export;
pub mod fingerprint;
pub mod laws;
pub mod order;
pub mod record;
pub mod report;
pub mod store;
pub mod text;
pub mod timestamp;
