//! The CLI surface as plain data: the action a user asked for, and the
//! naming rule for new notes.

use vstd::prelude::*;
use vstd::string::*;

verus! {

/// One subcommand of the CLI.
pub enum Action {
    New { name: Option<String> },
    List,
    Find,
    View { name: Option<String> },
    Remove { name: Option<String> },
    Interactive,
    Serve { port: Option<u16> },
}

/// The parsed command line: an action and an optional configuration path.
pub struct Args {
    pub action: Action,
    pub config: Option<String>,
}

/// Whether a file name already carries the notes extension.
pub open spec fn ends_with_md(s: Seq<char>) -> bool {
    s.len() >= 3 && s[s.len() - 3] == '.' && s[s.len() - 2] == 'm' && s[s.len() - 1] == 'd'
}

/// The file name of a new note: the given name, with the notes extension
/// appended when it is missing.
pub fn note_file_name(name: &str) -> (r: String)
    ensures
        r@ == if ends_with_md(name@) {
            name@
        } else {
            name@ + ".md"@
        },
        ends_with_md(r@),
{
    let n = name.unicode_len();
    let has = n >= 3 && name.get_char(n - 3) == '.' && name.get_char(n - 2) == 'm'
        && name.get_char(n - 1) == 'd';
    if has {
        name.to_owned()
    } else {
        let mut r = name.to_owned();
        r.append(".md");
        proof {
            reveal_strlit(".md");
            assert(r@.len() == name@.len() + 3);
            assert(r@[r@.len() - 3] == '.');
            assert(r@[r@.len() - 2] == 'm');
            assert(r@[r@.len() - 1] == 'd');
        }
        r
    }
}

} // verus!
