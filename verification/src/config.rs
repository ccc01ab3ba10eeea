//! The server's fixed configuration as plain data. Reading and parsing a
//! configuration file happen outside the library; the library only models
//! the values and the fallback used when no file can be read.

use vstd::prelude::*;
use crate::paths::{join_rel, join_spec};

verus! {

/// The configuration: an optional editor command, the notes directory,
/// and the port to serve on.
pub struct Config {
    pub editor: Option<String>,
    pub notes_dir: String,
    pub port: u16,
}

impl Config {
    /// The fallback configuration rooted under the given home directory:
    /// no editor preference, notes under `notes`, the default port.
    pub fn default_for_home(home: &str) -> (c: Config)
        ensures
            c.editor is None,
            c.notes_dir@ == join_spec(home@, "notes"@),
            c.port == 8080,
    {
        Config { editor: None, notes_dir: join_rel(home, "notes"), port: 8080 }
    }
}

} // verus!
