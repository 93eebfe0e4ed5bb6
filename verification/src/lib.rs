//! Client-side logic of a small command-line ChatGPT client: the
//! server-sent-event stream parser, the reply printer and the request
//! builders, with their contracts.
pub mod text;
pub mod sse;
pub mod stream;
pub mod models;
pub mod request;
pub mod arkose;
pub mod util;
