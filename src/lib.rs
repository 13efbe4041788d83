//! A small HTTP/1.1 server core: a header map, request and response types,
//! a byte-level request parser, response serialisation, request routing and
//! the decisions that drive a persistent connection.

pub mod args;
pub mod compression;
pub mod config;
pub mod connection;
pub mod handlers;
pub mod headers;
pub mod http;
pub mod message;
pub mod order;
pub mod parser;
pub mod text;

pub use config::ServerConfig;
pub use handlers::Router;
pub use http::{HttpHeaders, HttpMethod, HttpRequest, HttpResponse, parse_request};
