//! Snapshot testing for REST APIs.
//!
//! A suite names one endpoint and an ordered list of test cases. A run sends
//! one request for each test case, in order and one at a time, redacts from
//! each response body the fields that vary from run to run, and collects the
//! outputs by name into a snapshot. The first run of a suite gives the
//! snapshot to store; every later run is compared with the stored one, field
//! by field, and succeeds if nothing differs.
//!
//! The library decides and the caller acts: [`run::Run`] is a machine of
//! states that says which request to send next and takes what came back. It
//! reads no file and opens no connection.
//!
//! - [`suite`]: the suite and its test cases, and how their placeholders are
//!   resolved.
//! - [`interpolate`]: placeholders of the form `${NAME}`.
//! - [`json`]: JSON values, with deep equality.
//! - [`redact`]: neutralizing and removing fields of a response body;
//!   [`idempotence`]: why doing it twice changes nothing.
//! - [`request`]: from a test case to its request, from a response to its
//!   output; [`http`]: what the HTTP client accepts.
//! - [`snapshot`]: outputs and the snapshot that holds them by name.
//! - [`compare`]: the differences between two snapshots; [`agreement`]: what
//!   the comparison's verdict means.
//! - [`run`]: the run as a machine of states.
//! - [`headers`]: headers written as lines; [`strmap`]: maps from strings to
//!   strings; [`text`]: searching and splitting.

pub mod agreement;
pub mod compare;
pub mod headers;
pub mod http;
pub mod idempotence;
pub mod interpolate;
pub mod json;
pub mod redact;
pub mod request;
pub mod run;
pub mod snapshot;
pub mod strmap;
pub mod suite;
pub mod text;
