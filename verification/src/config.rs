//! Command-line commands and server configuration.
use crate::error::concat_str;
use crate::text::chars_of;
use vstd::prelude::*;

verus! {

broadcast use vstd::string::group_string_axioms;

/// The parsed command line.
#[derive(Debug, Clone)]
pub struct Cli {
    pub command: Command,
}

/// What the program is asked to do.
#[derive(Debug, Clone)]
pub enum Command {
    /// Start the server (MCP on stdio, and HTTP).
    Serve {
        /// Directory of the database and the models.
        data_dir: String,
        /// Directories to watch for file changes.
        watch_dirs: Vec<String>,
        /// Number of embedding threads.
        embedding_threads: usize,
        /// Port of the HTTP server.
        port: u16,
        /// Whether to log at debug level.
        debug: bool,
    },
    /// Index a repository on demand.
    Index {
        /// Path of the repository.
        path: String,
    },
}

/// Server configuration.
#[derive(Debug, Clone)]
pub struct Config {
    pub data_dir: String,
    pub watch_dirs: Vec<String>,
    pub embedding_threads: usize,
    pub port: u16,
    pub log_level: String,
}

/// `rel` appended to `base` as a path component: an absolute `rel` replaces
/// `base`; otherwise a `/` separates the two unless `base` is empty or
/// already ends with one.
pub open spec fn spec_join(base: Seq<char>, rel: Seq<char>) -> Seq<char> {
    if rel.len() > 0 && rel[0] == '/' {
        rel
    } else if base.len() == 0 || base.last() == '/' {
        base + rel
    } else {
        base + seq!['/'] + rel
    }
}

/// Joins a path component to a base path, as `Path::join` does on Unix.
pub fn join_path(base: &str, rel: &str) -> (r: String)
    ensures
        r@ == spec_join(base@, rel@),
{
    let b = chars_of(base);
    let c = chars_of(rel);
    if c.len() > 0 && c[0] == '/' {
        return String::from_str(rel);
    }
    if b.len() == 0 || b[b.len() - 1] == '/' {
        concat_str(base, rel)
    } else {
        let with_sep = concat_str(base, "/");
        proof {
            reveal_strlit("/");
        }
        let r = concat_str(with_sep.as_str(), rel);
        assert(r@ == base@ + seq!['/'] + rel@);
        r
    }
}

/// The directory under the home directory where data is kept by default.
pub open spec fn default_data_dir(home: Option<Seq<char>>) -> Seq<char> {
    spec_join(
        match home {
            Some(h) => h,
            None => seq!['.'],
        },
        seq!['.', 'a', 'm', 'p', '-', 'r', 's'],
    )
}

impl Config {
    /// The default configuration for a user whose home directory is `home`
    /// (the current directory where it is not known): data under
    /// `.amp-rs` in it, no watched directories, two embedding threads, port
    /// 8080 and the `info` log level.
    pub fn default_for_home(home: Option<String>) -> (r: Config)
        ensures
            r.data_dir@ == default_data_dir(match home {
                Some(h) => Some(h@),
                None => None,
            }),
            r.watch_dirs@.len() == 0,
            r.embedding_threads == 2,
            r.port == 8080,
            r.log_level@ == seq!['i', 'n', 'f', 'o'],
    {
        let base = match home {
            Some(h) => h,
            None => String::from_str("."),
        };
        let data_dir = join_path(base.as_str(), ".amp-rs");
        let log_level = String::from_str("info");
        proof {
            reveal_strlit(".");
            reveal_strlit(".amp-rs");
            reveal_strlit("info");
        }
        Config {
            data_dir,
            watch_dirs: Vec::new(),
            embedding_threads: 2,
            port: 8080,
            log_level,
        }
    }
}

} // verus!
