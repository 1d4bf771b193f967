//! Verified core of a CloudWatch metric-widget image downloader: account
//! configuration loading and filtering, widget template rendering, image
//! naming, credential-context resolution, and the per-account batch pipeline.

pub mod account;
pub mod batch;
pub mod config;
pub mod creds;
pub mod metrics;
pub mod naming;
pub mod template;
pub mod text;
