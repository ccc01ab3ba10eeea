//! The directory indexer's bookkeeping: a walk over a directory tree that
//! collects the relative path of every regular file it is shown.
//!
//! The walk itself performs no directory reads. A driver takes the next
//! pending directory with `next_dir`, lists it, and reports each entry back
//! through `record_entry`; the walk keeps the stack of directories still to
//! list and the relative file paths found so far. Every recorded path is the
//! reported name joined under the directory it was found in, so the index
//! holds one entry per reported regular file, in a deterministic order for
//! a given sequence of reports.

use vstd::prelude::*;
use crate::paths::{join_rel, join_spec};

verus! {

/// An in-progress walk of a directory tree.
pub struct IndexWalk {
    /// Directories still to be listed, relative to the root; the empty
    /// string is the root itself.
    pending: Vec<String>,
    /// Relative paths of the regular files found so far.
    files: Vec<String>,
}

impl IndexWalk {
    /// Directories still to be listed.
    pub closed spec fn pending_dirs(self) -> Seq<Seq<char>> {
        self.pending.deep_view()
    }

    /// Relative file paths found so far.
    pub closed spec fn found_files(self) -> Seq<Seq<char>> {
        self.files.deep_view()
    }

    /// A fresh walk: only the root is pending and no file was found yet.
    pub fn new() -> (w: IndexWalk)
        ensures
            w.pending_dirs() =~= seq![Seq::<char>::empty()],
            w.found_files() =~= Seq::<Seq<char>>::empty(),
    {
        let mut pending: Vec<String> = Vec::new();
        pending.push(String::new());
        let w = IndexWalk { pending, files: Vec::new() };
        proof {
            assert(w.pending_dirs() =~= seq![Seq::<char>::empty()]);
            assert(w.found_files() =~= Seq::<Seq<char>>::empty());
        }
        w
    }

    /// Take the next directory to list, if any is left.
    pub fn next_dir(&mut self) -> (r: Option<String>)
        ensures
            final(self).found_files() == old(self).found_files(),
            match r {
                None => old(self).pending_dirs().len() == 0 && final(self).pending_dirs()
                    == old(self).pending_dirs(),
                Some(d) => old(self).pending_dirs().len() > 0 && d@ == old(
                    self,
                ).pending_dirs().last() && final(self).pending_dirs() == old(
                    self,
                ).pending_dirs().drop_last(),
            },
    {
        let r = self.pending.pop();
        proof {
            if old(self).pending@.len() > 0 {
                assert(self.pending_dirs() =~= old(self).pending_dirs().drop_last());
            } else {
                assert(self.pending_dirs() =~= old(self).pending_dirs());
            }
            assert(self.found_files() =~= old(self).found_files());
        }
        r
    }

    /// Record one entry of directory `dir`: a subdirectory joins the pending
    /// stack, a regular file's relative path joins the index.
    pub fn record_entry(&mut self, dir: &str, name: &str, is_dir: bool)
        ensures
            is_dir ==> final(self).pending_dirs() == old(self).pending_dirs().push(
                join_spec(dir@, name@),
            ) && final(self).found_files() == old(self).found_files(),
            !is_dir ==> final(self).found_files() == old(self).found_files().push(
                join_spec(dir@, name@),
            ) && final(self).pending_dirs() == old(self).pending_dirs(),
    {
        let path = join_rel(dir, name);
        if is_dir {
            self.pending.push(path);
            proof {
                assert(self.pending_dirs() =~= old(self).pending_dirs().push(
                    join_spec(dir@, name@),
                ));
                assert(self.found_files() =~= old(self).found_files());
            }
        } else {
            self.files.push(path);
            proof {
                assert(self.found_files() =~= old(self).found_files().push(
                    join_spec(dir@, name@),
                ));
                assert(self.pending_dirs() =~= old(self).pending_dirs());
            }
        }
    }

    /// Whether every pending directory has been listed.
    pub fn done(&self) -> (b: bool)
        ensures
            b == (self.pending_dirs().len() == 0),
    {
        self.pending.len() == 0
    }

    /// The collected index: one relative path per reported regular file.
    pub fn into_files(self) -> (r: Vec<String>)
        ensures
            r.deep_view() == self.found_files(),
    {
        self.files
    }
}

} // verus!
