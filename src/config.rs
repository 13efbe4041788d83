//! The server's configuration, and how a command line sets it.

use vstd::prelude::*;
use crate::args::{ArgsError, ArgsView, arg_views, options_from, parse_args};

verus! {

/// What the handlers need to know: where files are served from, if anywhere.
#[derive(Debug, Clone, PartialEq, Eq)]
pub struct ServerConfig {
    pub directory: Option<String>,
}

impl ServerConfig {
    pub fn new(directory: Option<String>) -> (c: ServerConfig)
        ensures
            c.directory == directory,
    {
        ServerConfig { directory }
    }
}

/// The directory that the options name: `d` first, `directory` else.
pub open spec fn directory_option(m: Map<Seq<char>, Seq<char>>) -> Option<Seq<char>> {
    if m.contains_key("d"@) {
        Some(m["d"@])
    } else if m.contains_key("directory"@) {
        Some(m["directory"@])
    } else {
        None
    }
}

/// Reads the configuration from a command line (`-d <dir>` or
/// `--directory <dir>`).
pub fn parse_args_from_vec(args: &[String]) -> (r: Result<ServerConfig, ArgsError>)
    ensures
        match options_from(arg_views(args@), 0, Map::empty()) {
            ArgsView::Parsed(m) => r matches Ok(c) && match directory_option(m) {
                Some(d) => c.directory matches Some(s) && s@ == d,
                None => c.directory is None,
            },
            ArgsView::Refused(kind, i) => r matches Err(e) && e.kind == kind && 0 <= i < args@.len()
                && e.arg@ == args@[i]@,
        },
{
    let options = match parse_args(args) {
        Ok(o) => o,
        Err(e) => return Err(e),
    };
    let directory = match options.get("d") {
        Some(d) => Some(d.clone()),
        None => match options.get("directory") {
            Some(d) => Some(d.clone()),
            None => None,
        },
    };
    Ok(ServerConfig::new(directory))
}

} // verus!
