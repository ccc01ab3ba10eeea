//! Relative paths as sequences of `/`-separated components, and the
//! component-wise prefix match that routes a requested path to index entries.

use vstd::prelude::*;
use vstd::string::*;
use crate::text::{sep_pred, split_by, split_text};

verus! {

/// The `/`-separated components of a path, empty components dropped, so
/// leading, trailing and repeated separators do not count.
pub open spec fn components_of(s: Seq<char>) -> Seq<Seq<char>> {
    split_by(s, sep_pred(false))
}

/// The whitespace-separated tokens of a request line.
pub open spec fn tokens_of(s: Seq<char>) -> Seq<Seq<char>> {
    split_by(s, sep_pred(true))
}

/// A requested prefix matches a path when its components are a leading
/// run of the path's components; never a mid-component substring match.
pub open spec fn prefix_matches(prefix: Seq<char>, path: Seq<char>) -> bool {
    components_of(prefix).is_prefix_of(components_of(path))
}

/// The empty prefix has no components, so it matches every path.
pub proof fn lemma_empty_prefix_matches(prefix: Seq<char>, path: Seq<char>)
    requires
        prefix.len() == 0,
    ensures
        prefix_matches(prefix, path),
{
    assert(prefix =~= Seq::<char>::empty());
    assert(components_of(prefix) =~= Seq::<Seq<char>>::empty());
    assert(components_of(prefix).is_prefix_of(components_of(path))) by {
        assert(components_of(prefix) =~= components_of(path).subrange(0, 0));
    }
}

/// Split a path into its components.
pub fn split_components(s: &str) -> (r: Vec<String>)
    ensures
        r.deep_view() == components_of(s@),
{
    split_text(s, false)
}

/// Split a request line into its whitespace-separated tokens.
pub fn split_tokens(s: &str) -> (r: Vec<String>)
    ensures
        r.deep_view() == tokens_of(s@),
{
    split_text(s, true)
}

fn is_string_seq_prefix(a: &Vec<String>, b: &Vec<String>) -> (r: bool)
    ensures
        r == a.deep_view().is_prefix_of(b.deep_view()),
{
    if a.len() > b.len() {
        return false;
    }
    let mut i: usize = 0;
    while i < a.len()
        invariant
            i <= a.len() <= b.len(),
            forall|k: int| 0 <= k < i ==> a.deep_view()[k] == b.deep_view()[k],
        decreases a.len() - i,
    {
        if !(a[i] == b[i]) {
            assert(a.deep_view()[i as int] != b.deep_view()[i as int]);
            return false;
        }
        i = i + 1;
    }
    proof {
        assert(a.deep_view() =~= b.deep_view().subrange(0, a.deep_view().len() as int));
    }
    true
}

/// Whether pre-split prefix components are a leading run of pre-split path
/// components.
pub fn path_prefix_matches_split(prefix_comps: &Vec<String>, path_comps: &Vec<String>) -> (b:
    bool)
    ensures
        b == prefix_comps.deep_view().is_prefix_of(path_comps.deep_view()),
{
    is_string_seq_prefix(prefix_comps, path_comps)
}

/// Whether `prefix` is a component-wise prefix of `path`.
pub fn path_prefix_matches(prefix: &str, path: &str) -> (b: bool)
    ensures
        b == prefix_matches(prefix@, path@),
{
    let pc = split_components(prefix);
    let fc = split_components(path);
    is_string_seq_prefix(&pc, &fc)
}

/// `name` placed under directory `dir`; under the root (the empty string)
/// a name stands alone, with no leading separator.
pub open spec fn join_spec(dir: Seq<char>, name: Seq<char>) -> Seq<char> {
    if dir.len() == 0 {
        name
    } else {
        dir + "/"@ + name
    }
}

/// The index of the last separator of `r`, or -1 when none occurs.
pub open spec fn last_slash(r: Seq<char>) -> int
    decreases r.len(),
{
    if r.len() == 0 {
        -1
    } else if r.last() == '/' {
        r.len() - 1
    } else {
        last_slash(r.drop_last())
    }
}

/// Separator-free text after `x` does not move the last separator.
pub proof fn lemma_last_slash_skip_clean(x: Seq<char>, y: Seq<char>)
    requires
        forall|i: int| 0 <= i < y.len() ==> y[i] != '/',
    ensures
        last_slash(x + y) == last_slash(x),
    decreases y.len(),
{
    if y.len() == 0 {
        assert(x + y =~= x);
    } else {
        assert((x + y).last() == y.last());
        assert((x + y).drop_last() =~= x + y.drop_last());
        lemma_last_slash_skip_clean(x, y.drop_last());
    }
}

/// A joined path splits back at its last separator into the directory and
/// the name, for any proper entry name: nonempty and free of separators.
pub proof fn lemma_join_recover(d: Seq<char>, n: Seq<char>)
    requires
        n.len() > 0,
        forall|i: int| 0 <= i < n.len() ==> n[i] != '/',
    ensures
        ({
            let r = join_spec(d, n);
            &&& (d.len() == 0 ==> last_slash(r) == -1)
            &&& (d.len() > 0 ==> last_slash(r) == d.len())
            &&& r.subrange(last_slash(r) + 1, r.len() as int) == n
            &&& (d.len() > 0 ==> r.take(last_slash(r)) == d)
        }),
{
    let r = join_spec(d, n);
    if d.len() == 0 {
        assert(Seq::<char>::empty() + n =~= n);
        lemma_last_slash_skip_clean(Seq::<char>::empty(), n);
        assert(r.subrange(0, r.len() as int) =~= n);
    } else {
        reveal_strlit("/");
        assert(r =~= (d + "/"@) + n);
        lemma_last_slash_skip_clean(d + "/"@, n);
        assert((d + "/"@).last() == '/');
        assert(last_slash(d + "/"@) == d.len());
        assert(r.subrange(d.len() as int + 1, r.len() as int) =~= n);
        assert(r.take(d.len() as int) =~= d);
    }
}

/// Joining is injective for proper entry names: two distinct
/// directory/name reports always index distinct relative paths, so a walk
/// over distinct entries yields one index entry per file.
pub proof fn lemma_join_injective(d1: Seq<char>, n1: Seq<char>, d2: Seq<char>, n2: Seq<char>)
    requires
        n1.len() > 0,
        forall|i: int| 0 <= i < n1.len() ==> n1[i] != '/',
        n2.len() > 0,
        forall|i: int| 0 <= i < n2.len() ==> n2[i] != '/',
        join_spec(d1, n1) == join_spec(d2, n2),
    ensures
        d1 == d2,
        n1 == n2,
{
    lemma_join_recover(d1, n1);
    lemma_join_recover(d2, n2);
    if d1.len() == 0 && d2.len() == 0 {
        assert(d1 =~= d2);
    }
}

/// Join a directory path and an entry name into one relative path.
pub fn join_rel(dir: &str, name: &str) -> (r: String)
    ensures
        r@ == join_spec(dir@, name@),
{
    if dir.unicode_len() == 0 {
        name.to_owned()
    } else {
        let mut r = dir.to_owned();
        r.append("/");
        r.append(name);
        r
    }
}

} // verus!
