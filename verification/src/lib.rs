//! The backend of `vchat`, a group voice and text chat.
//!
//! The server answers in two steps. [`server::State::handle`] takes a request in, counts it, and
//! says what comes next: an answer, the page from the disk, or the body of the request.
//! [`server::State::finish`] deals with the body. In between nothing is held, so that reading a slow
//! body keeps nobody waiting.
//!
//! What the server remembers is modelled by [`server::Memory`]; what a response says by
//! [`http::Reply`]. Functions that read the clock have a twin whose name ends in `_at`, which is
//! given the time and whose contract is exact; of themselves they say that some reading of the
//! clock gave the outcome.

pub mod clock;
pub mod config;
pub mod documents;
pub mod encoding;
pub mod http;
pub mod json;
pub mod jwt;
pub mod laws;
pub mod names;
pub mod nicks;
pub mod rate;
pub mod rooms;
pub mod routes;
pub mod server;
pub mod table;
pub mod text;
