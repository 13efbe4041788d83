//! The protocol types and the request parser, under one path.

pub use crate::headers::HttpHeaders;
pub use crate::message::{HttpMethod, HttpRequest, HttpResponse};
pub use crate::parser::{ParseError, ParseOutcome, parse_request};
