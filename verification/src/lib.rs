//! Verified core of the Xray controller: the byte-level HTTP handling it
//! performs against the Docker Engine API and on its own control socket, and the
//! decision procedure that validates and restarts the Xray container.

pub mod bytes;
pub mod text;
pub mod percent;
pub mod chunked;
pub mod http;
pub mod json;
pub mod control;
pub mod apply;
