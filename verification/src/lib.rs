//! The core of a command-line URL shortener: everything that the tool
//! decides, with no input or output of its own.
//!
//! A run shortens the URLs of an input through a remote service. The
//! `dispatch` module keeps the number of operations in flight within a
//! bound and hands their results out in order; `api` holds the client,
//! which decides stage by stage what one operation does; `remote` reads
//! the responses of the service; `cache` remembers the links that the
//! service has made. `io` reads the input, `cli` and `config` hold the
//! settings, `error` the failures, and `weburl` the URLs.
//!
//! The program around this library sends the requests, reads and writes
//! the files, and tells the library what came back.

pub mod api;
pub mod cache;
pub mod cli;
pub mod config;
pub mod dispatch;
pub mod error;
pub mod io;
pub mod remote;
pub mod weburl;
