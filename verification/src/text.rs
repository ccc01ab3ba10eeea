//! Splitting text into pieces at separator characters, dropping empty pieces.
//!
//! This is the shared machinery behind tokenizing a request line at
//! whitespace and breaking a path into its `/`-separated components.

use vstd::prelude::*;
use vstd::string::*;

verus! {

/// The characters treated as whitespace when tokenizing a request line.
pub open spec fn is_space(c: char) -> bool {
    c == ' ' || c == '\t' || c == '\r' || c == '\n'
}

/// The separator predicate selected by `by_space`: whitespace for request
/// lines, the path separator for path components.
pub open spec fn sep_pred(by_space: bool) -> spec_fn(char) -> bool {
    if by_space {
        |c: char| is_space(c)
    } else {
        |c: char| c == '/'
    }
}

/// The pieces of `s` between separator characters, empty pieces dropped;
/// `cur` is the piece accumulated so far.
pub open spec fn split_acc(s: Seq<char>, sep: spec_fn(char) -> bool, cur: Seq<char>) -> Seq<
    Seq<char>,
>
    decreases s.len(),
{
    if s.len() == 0 {
        if cur.len() > 0 {
            seq![cur]
        } else {
            Seq::empty()
        }
    } else if sep(s[0]) {
        if cur.len() > 0 {
            seq![cur] + split_acc(s.drop_first(), sep, Seq::empty())
        } else {
            split_acc(s.drop_first(), sep, Seq::empty())
        }
    } else {
        split_acc(s.drop_first(), sep, cur.push(s[0]))
    }
}

/// The nonempty pieces of `s` between separator characters, in order.
pub open spec fn split_by(s: Seq<char>, sep: spec_fn(char) -> bool) -> Seq<Seq<char>> {
    split_acc(s, sep, Seq::empty())
}

/// Splitting walks over a run of non-separator characters by accumulating
/// them onto the current piece.
pub proof fn lemma_split_skip_word(
    word: Seq<char>,
    rest: Seq<char>,
    sep: spec_fn(char) -> bool,
    cur: Seq<char>,
)
    requires
        forall|i: int| 0 <= i < word.len() ==> !sep(word[i]),
    ensures
        split_acc(word + rest, sep, cur) == split_acc(rest, sep, cur + word),
    decreases word.len(),
{
    if word.len() == 0 {
        assert(word + rest =~= rest);
        assert(cur + word =~= cur);
    } else {
        assert((word + rest)[0] == word[0]);
        assert((word + rest).len() > 0);
        assert((word + rest).drop_first() =~= word.drop_first() + rest);
        lemma_split_skip_word(word.drop_first(), rest, sep, cur.push(word[0]));
        assert(cur.push(word[0]) + word.drop_first() =~= cur + word);
    }
}

/// A separator character closes the current piece: the piece joins the
/// result when it is nonempty and is dropped otherwise.
pub proof fn lemma_split_at_sep(
    c: char,
    rest: Seq<char>,
    sep: spec_fn(char) -> bool,
    cur: Seq<char>,
)
    requires
        sep(c),
    ensures
        split_acc(seq![c] + rest, sep, cur) == (if cur.len() > 0 {
            seq![cur]
        } else {
            Seq::<Seq<char>>::empty()
        }) + split_acc(rest, sep, Seq::<char>::empty()),
{
    assert((seq![c] + rest)[0] == c);
    assert((seq![c] + rest).len() > 0);
    assert((seq![c] + rest).drop_first() =~= rest);
    if cur.len() == 0 {
        assert(Seq::<Seq<char>>::empty() + split_acc(rest, sep, Seq::<char>::empty())
            =~= split_acc(rest, sep, Seq::<char>::empty()));
    }
}

fn is_sep_char(c: char, by_space: bool) -> (b: bool)
    ensures
        b == sep_pred(by_space)(c),
{
    if by_space {
        c == ' ' || c == '\t' || c == '\r' || c == '\n'
    } else {
        c == '/'
    }
}

/// Split `s` at the separator selected by `by_space`, dropping empty pieces.
pub fn split_text(s: &str, by_space: bool) -> (r: Vec<String>)
    ensures
        r.deep_view() == split_by(s@, sep_pred(by_space)),
{
    let ghost sep = sep_pred(by_space);
    let n = s.unicode_len();
    let mut parts: Vec<String> = Vec::new();
    let mut start: usize = 0;
    let mut i: usize = 0;
    proof {
        assert(s@.skip(0) =~= s@);
        assert(s@.subrange(0, 0) =~= Seq::<char>::empty());
        assert(parts.deep_view() =~= Seq::<Seq<char>>::empty());
        assert(Seq::<Seq<char>>::empty() + split_acc(s@, sep, Seq::<char>::empty()) =~= split_acc(
            s@,
            sep,
            Seq::<char>::empty(),
        ));
    }
    while i < n
        invariant
            sep == sep_pred(by_space),
            start <= i <= n,
            n == s@.len(),
            parts.deep_view() + split_acc(
                s@.skip(i as int),
                sep,
                s@.subrange(start as int, i as int),
            ) == split_by(s@, sep),
        decreases n - i,
    {
        let c = s.get_char(i);
        let ghost cur = s@.subrange(start as int, i as int);
        proof {
            assert(s@.skip(i as int).len() > 0);
            assert(s@.skip(i as int)[0] == s@[i as int]);
            assert(s@.skip(i as int).drop_first() =~= s@.skip(i as int + 1));
        }
        if is_sep_char(c, by_space) {
            proof {
                assert(sep(s@.skip(i as int)[0]));
                if cur.len() > 0 {
                    assert(split_acc(s@.skip(i as int), sep, cur) == seq![cur] + split_acc(
                        s@.skip(i as int + 1),
                        sep,
                        Seq::<char>::empty(),
                    ));
                } else {
                    assert(split_acc(s@.skip(i as int), sep, cur) == split_acc(
                        s@.skip(i as int + 1),
                        sep,
                        Seq::<char>::empty(),
                    ));
                }
            }
            if i > start {
                let ghost pdv = parts.deep_view();
                let piece = s.substring_char(start, i).to_owned();
                parts.push(piece);
                proof {
                    assert(parts.deep_view() =~= pdv.push(cur));
                    assert(pdv.push(cur) =~= pdv + seq![cur]);
                    assert((pdv + seq![cur]) + split_acc(
                        s@.skip(i as int + 1),
                        sep,
                        Seq::<char>::empty(),
                    ) =~= pdv + (seq![cur] + split_acc(
                        s@.skip(i as int + 1),
                        sep,
                        Seq::<char>::empty(),
                    )));
                }
            }
            start = i + 1;
            proof {
                assert(s@.subrange(start as int, start as int) =~= Seq::<char>::empty());
            }
        } else {
            proof {
                assert(!sep(s@.skip(i as int)[0]));
                assert(split_acc(s@.skip(i as int), sep, cur) == split_acc(
                    s@.skip(i as int + 1),
                    sep,
                    cur.push(s@[i as int]),
                ));
                assert(cur.push(s@[i as int]) =~= s@.subrange(start as int, i as int + 1));
            }
        }
        i = i + 1;
    }
    proof {
        assert(s@.skip(n as int) =~= Seq::<char>::empty());
    }
    if start < n {
        let ghost pdv = parts.deep_view();
        let ghost cur = s@.subrange(start as int, n as int);
        let piece = s.substring_char(start, n).to_owned();
        parts.push(piece);
        proof {
            assert(parts.deep_view() =~= pdv.push(cur));
            assert(pdv.push(cur) =~= pdv + seq![cur]);
        }
    } else {
        proof {
            assert(parts.deep_view() + Seq::<Seq<char>>::empty() =~= parts.deep_view());
        }
    }
    parts
}

} // verus!
