//! The logic of an MCP server that drives a running Maya through its listener.
//!
//! - `maya`: the listener's protocol, one call step by step
//! - `json`: JSON values, read and written by `serde_json`
//! - `tools`: what each tool asks of Maya and how it shows the answer
//! - `status`: probes of the listener, their history and the lines of the status report
//! - `log`: the log file's place, lines and rotation
//! - `calendar`, `settings`, `text`: dates, settings and text that the others build on

pub mod calendar;
pub mod json;
pub mod log;
pub mod maya;
pub mod settings;
pub mod status;
pub mod text;
pub mod tools;
