//! An HTTP/1.1 origin server core: request framing, virtual-host and
//! location resolution, request validation, body handling (drain, upload,
//! multipart), CGI environment construction, and response serialization.
//!
//! Every function here is pure logic over plain values; the surrounding
//! program performs the socket, file and process work and feeds the results
//! back in.

pub mod body;
pub mod bytes;
pub mod cgi;
pub mod config;
pub mod confparse;
pub mod http;
pub mod multipart;
pub mod request;
pub mod resolve;
pub mod response;
