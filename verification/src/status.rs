//! The status line: the one line this design ever emits, its serialized
//! form, and a parser that reads the numeric code back out of a response.

use vstd::prelude::*;
use vstd::string::*;
use crate::paths::{split_tokens, tokens_of};
use crate::text::{sep_pred, split_acc};

verus! {

/// The status line of every response.
pub open spec fn status_line() -> Seq<char> {
    "HTTP/1.1 200 OK"@
}

/// The serialized status line.
pub fn status_line_text() -> (r: String)
    ensures
        r@ == status_line(),
{
    String::from_str("HTTP/1.1 200 OK")
}

/// A decimal digit.
pub open spec fn is_digit(c: char) -> bool {
    48 <= c as u32 <= 57
}

/// Whether every character of `s` is a decimal digit.
pub open spec fn all_digits(s: Seq<char>) -> bool {
    forall|i: int| 0 <= i < s.len() ==> is_digit(s[i])
}

/// The value of a sequence of decimal digits.
pub open spec fn dec_val(s: Seq<char>) -> int
    decreases s.len(),
{
    if s.len() == 0 {
        0
    } else {
        dec_val(s.drop_last()) * 10 + (s.last() as u32 - 48)
    }
}

/// A digit string's value is never negative.
pub proof fn lemma_dec_val_nonneg(s: Seq<char>)
    requires
        all_digits(s),
    ensures
        dec_val(s) >= 0,
    decreases s.len(),
{
    if s.len() > 0 {
        assert(all_digits(s.drop_last()));
        lemma_dec_val_nonneg(s.drop_last());
    }
}

/// A digit string's value only grows as digits are appended.
pub proof fn lemma_dec_val_take_le(s: Seq<char>, i: int)
    requires
        all_digits(s),
        0 <= i <= s.len(),
    ensures
        dec_val(s.take(i)) <= dec_val(s),
    decreases s.len() - i,
{
    if i == s.len() {
        assert(s.take(i) =~= s);
    } else {
        assert(s.take(i + 1).drop_last() =~= s.take(i));
        assert(all_digits(s.take(i)));
        lemma_dec_val_nonneg(s.take(i));
        assert(dec_val(s.take(i + 1)) == dec_val(s.take(i)) * 10 + (s[i] as u32 - 48));
        lemma_dec_val_take_le(s, i + 1);
    }
}

/// The status code of a status line: the value of its second token, when
/// that token is a digit string naming a code that fits.
pub open spec fn status_code_of(line: Seq<char>) -> Option<u16> {
    let toks = tokens_of(line);
    if toks.len() >= 2 && toks[1].len() > 0 && all_digits(toks[1]) && dec_val(toks[1]) <= 65535 {
        Some(dec_val(toks[1]) as u16)
    } else {
        None
    }
}

/// Parse the status code out of one status line.
pub fn parse_status_line(line: &str) -> (r: Option<u16>)
    ensures
        r == status_code_of(line@),
{
    let toks = split_tokens(line);
    if toks.len() < 2 {
        return None;
    }
    let t: &String = &toks[1];
    proof {
        assert(t@ == tokens_of(line@)[1]);
    }
    let n = t.as_str().unicode_len();
    if n == 0 {
        return None;
    }
    let mut val: u32 = 0;
    let mut i: usize = 0;
    while i < n
        invariant
            i <= n,
            n == t@.len(),
            t@ == tokens_of(line@)[1],
            tokens_of(line@).len() >= 2,
            all_digits(t@.take(i as int)),
            val == dec_val(t@.take(i as int)),
            val <= 65535,
        decreases n - i,
    {
        let c = t.as_str().get_char(i);
        let u = c as u32;
        proof {
            assert(t@.take(i as int + 1).drop_last() =~= t@.take(i as int));
            assert(t@.take(i as int + 1).last() == t@[i as int]);
        }
        if u < 48 || u > 57 {
            assert(!is_digit(t@[i as int]));
            assert(!all_digits(t@));
            return None;
        }
        let next: u32 = val * 10 + (u - 48);
        assert(next == dec_val(t@.take(i as int + 1)));
        if next > 65535 {
            proof {
                if all_digits(t@) {
                    lemma_dec_val_take_le(t@, i as int + 1);
                }
            }
            return None;
        }
        val = next;
        i = i + 1;
    }
    proof {
        assert(t@.take(n as int) =~= t@);
    }
    Some(val as u16)
}

/// A line-break character ends the first line of a response.
pub open spec fn is_line_break(c: char) -> bool {
    c == '\r' || c == '\n'
}

/// The index of the first line break at or after `i`, or the length when
/// none follows.
pub open spec fn line_end_from(s: Seq<char>, i: int) -> int
    decreases s.len() - i when 0 <= i <= s.len()
{
    if i >= s.len() {
        i
    } else if is_line_break(s[i]) {
        i
    } else {
        line_end_from(s, i + 1)
    }
}

/// The first line of a response: everything before the first line break.
pub open spec fn first_line_of(s: Seq<char>) -> Seq<char> {
    s.take(line_end_from(s, 0))
}

/// Where the first line break is known, the first line ends there.
pub proof fn lemma_line_end_value(s: Seq<char>, i: int, j: int)
    requires
        0 <= i <= j <= s.len(),
        forall|k: int| i <= k < j ==> !is_line_break(s[k]),
        j == s.len() || is_line_break(s[j]),
    ensures
        line_end_from(s, i) == j,
    decreases j - i,
{
    if i < j {
        lemma_line_end_value(s, i + 1, j);
    }
}

/// Extract the first line of a response.
pub fn first_line(s: &str) -> (r: String)
    ensures
        r@ == first_line_of(s@),
{
    let n = s.unicode_len();
    let mut i: usize = 0;
    loop
        invariant_except_break
            i <= n,
            n == s@.len(),
            line_end_from(s@, 0) == line_end_from(s@, i as int),
        ensures
            i <= n == s@.len() && i as int == line_end_from(s@, 0),
        decreases n - i,
    {
        if i == n {
            break ;
        }
        let c = s.get_char(i);
        if c == '\r' || c == '\n' {
            assert(line_end_from(s@, i as int) == i as int);
            break ;
        }
        assert(line_end_from(s@, i as int) == line_end_from(s@, i as int + 1));
        i = i + 1;
    }
    let r = s.substring_char(0, i).to_owned();
    proof {
        assert(s@.subrange(0, i as int) =~= s@.take(line_end_from(s@, 0)));
    }
    r
}

/// Parse the status code out of a whole response: re-read the code from
/// the response's first line.
pub fn parse_status_code(resp: &str) -> (r: Option<u16>)
    ensures
        r == status_code_of(first_line_of(resp@)),
{
    let line = first_line(resp);
    parse_status_line(line.as_str())
}

/// The fixed status line tokenizes as three words, the second of which
/// reads back as the code of a success response.
pub proof fn lemma_status_round_trip()
    ensures
        status_code_of(status_line()) == Some(200u16),
{
    reveal_strlit("HTTP/1.1 200 OK");
    reveal_strlit("HTTP/1.1");
    reveal_strlit("200");
    reveal_strlit("OK");
    let sep = sep_pred(true);
    let w1 = "HTTP/1.1"@;
    let w2 = "200"@;
    let w3 = "OK"@;
    let sp = seq![' '];
    assert(status_line() =~= w1 + (sp + (w2 + (sp + (w3 + Seq::<char>::empty())))));
    assert(forall|i: int| 0 <= i < w1.len() ==> !sep(w1[i]));
    assert(forall|i: int| 0 <= i < w2.len() ==> !sep(w2[i]));
    assert(forall|i: int| 0 <= i < w3.len() ==> !sep(w3[i]));
    crate::text::lemma_split_skip_word(w1, sp + (w2 + (sp + (w3 + Seq::<char>::empty()))), sep,
        Seq::<char>::empty());
    assert(Seq::<char>::empty() + w1 =~= w1);
    assert(sep(' '));
    crate::text::lemma_split_at_sep(' ', w2 + (sp + (w3 + Seq::<char>::empty())), sep, w1);
    crate::text::lemma_split_skip_word(w2, sp + (w3 + Seq::<char>::empty()), sep,
        Seq::<char>::empty());
    assert(Seq::<char>::empty() + w2 =~= w2);
    crate::text::lemma_split_at_sep(' ', w3 + Seq::<char>::empty(), sep, w2);
    crate::text::lemma_split_skip_word(w3, Seq::<char>::empty(), sep, Seq::<char>::empty());
    assert(Seq::<char>::empty() + w3 =~= w3);
    assert(split_acc(Seq::<char>::empty(), sep, w3) == seq![w3]);
    assert(tokens_of(status_line()) =~= seq![w1] + (seq![w2] + seq![w3]));
    assert(tokens_of(status_line()).len() == 3);
    assert(tokens_of(status_line())[1] == w2);
    assert(w2.len() == 3);
    assert(all_digits(w2));
    let d2 = w2.drop_last();
    let d1 = d2.drop_last();
    assert(d1.drop_last() =~= Seq::<char>::empty());
    assert(d1.last() == w2[0] && d1.len() == 1);
    assert(d2.last() == w2[1] && d2.len() == 2);
    assert(w2[0] == '2' && w2[1] == '0' && w2[2] == '0');
    assert(dec_val(Seq::<char>::empty()) == 0);
    assert(dec_val(d1) == dec_val(d1.drop_last()) * 10 + (d1.last() as u32 - 48));
    assert(dec_val(d1) == ('2' as u32 - 48));
    assert(dec_val(d2) == dec_val(d1) * 10 + ('0' as u32 - 48));
    assert(dec_val(w2) == dec_val(d2) * 10 + ('0' as u32 - 48));
    assert(dec_val(w2) == 200);
}

} // verus!
