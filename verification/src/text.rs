//! Character-level text helpers shared by the widgets: conversions
//! between `&str`/`String` and `Vec<char>`, trailing-whitespace
//! trimming, and repeated glyphs.  Widths throughout the crate are
//! measured in Unicode scalar values, not bytes.

use vstd::prelude::*;
use vstd::string::StrSliceExecFns;

verus! {

use vstd::string::StringExecFns;

/// Whether `c` has the Unicode `White_Space` property, a function of the
/// character alone.
pub uninterp spec fn is_whitespace_char(c: char) -> bool;

/// Relies on char::is_whitespace: true exactly when the character has
/// the Unicode `White_Space` property.
#[verifier::external_body]
pub fn char_is_whitespace(c: char) -> (r: bool)
    ensures
        r == is_whitespace_char(c),
{
    c.is_whitespace()
}

/// Relies on String::push: appends one character at the end.
#[verifier::external_body]
pub fn push_char(s: &mut String, c: char)
    ensures
        final(s)@ == old(s)@.push(c),
{
    s.push(c);
}

/// The characters of `s`, as a vector.
pub fn str_chars(s: &str) -> (r: Vec<char>)
    ensures
        r@ == s@,
{
    let n = s.unicode_len();
    let mut r: Vec<char> = Vec::new();
    let mut i: usize = 0;
    while i < n
        invariant
            i <= n,
            n == s@.len(),
            r@ == s@.take(i as int),
        decreases n - i,
    {
        r.push(s.get_char(i));
        proof {
            assert(s@.take(i + 1) =~= s@.take(i as int).push(s@[i as int]));
        }
        i = i + 1;
    }
    proof {
        assert(s@.take(n as int) =~= s@);
    }
    r
}

/// The characters of `v`, joined into a string.
pub fn chars_string(v: &Vec<char>) -> (r: String)
    ensures
        r@ == v@,
{
    let mut r = String::new();
    let mut i: usize = 0;
    while i < v.len()
        invariant
            i <= v@.len(),
            r@ == v@.take(i as int),
        decreases v@.len() - i,
    {
        push_char(&mut r, v[i]);
        proof {
            assert(v@.take(i + 1) =~= v@.take(i as int).push(v@[i as int]));
        }
        i = i + 1;
    }
    proof {
        assert(v@.take(v@.len() as int) =~= v@);
    }
    r
}

/// `s` with every trailing whitespace character removed.
pub open spec fn trim_end_spec(s: Seq<char>) -> Seq<char>
    decreases s.len(),
{
    if s.len() > 0 && is_whitespace_char(s.last()) {
        trim_end_spec(s.drop_last())
    } else {
        s
    }
}

/// Remove every trailing whitespace character of `v`.
pub fn trim_end_chars(v: Vec<char>) -> (r: Vec<char>)
    ensures
        r@ == trim_end_spec(v@),
{
    let mut v = v;
    let ghost full = v@;
    loop
        invariant
            v@.len() <= full.len(),
            v@ == full.take(v@.len() as int),
            trim_end_spec(full) == trim_end_spec(v@),
        ensures
            v@.len() == 0 || !is_whitespace_char(v@.last()),
            trim_end_spec(full) == trim_end_spec(v@),
        decreases v@.len(),
    {
        if v.len() == 0 {
            break;
        }
        let c = v[v.len() - 1];
        if !char_is_whitespace(c) {
            break;
        }
        proof {
            assert(v@.drop_last() =~= full.take((v@.len() - 1) as int));
        }
        v.pop();
    }
    proof {
        if v@.len() > 0 {
            assert(trim_end_spec(v@) == v@);
        }
    }
    v
}

/// `n` copies of `c`.
pub open spec fn repeat_char(c: char, n: nat) -> Seq<char> {
    Seq::new(n, |i| c)
}

/// A vector of `n` copies of `c`.
pub fn repeat_chars(c: char, n: usize) -> (r: Vec<char>)
    ensures
        r@ == repeat_char(c, n as nat),
{
    let mut r: Vec<char> = Vec::new();
    let mut i: usize = 0;
    while i < n
        invariant
            i <= n,
            r@ == repeat_char(c, i as nat),
        decreases n - i,
    {
        r.push(c);
        proof {
            assert(repeat_char(c, (i + 1) as nat) =~= repeat_char(c, i as nat).push(c));
        }
        i = i + 1;
    }
    r
}

/// Append the characters of `src` in `[from, to)` to `dst`.
pub fn push_range(dst: &mut Vec<char>, src: &Vec<char>, from: usize, to: usize)
    requires
        from <= to <= src@.len(),
    ensures
        final(dst)@ == old(dst)@ + src@.subrange(from as int, to as int),
{
    let mut p = from;
    while p < to
        invariant
            from <= p <= to <= src@.len(),
            dst@ == old(dst)@ + src@.subrange(from as int, p as int),
        decreases to - p,
    {
        dst.push(src[p]);
        proof {
            assert(src@.subrange(from as int, p + 1) =~= src@.subrange(from as int, p as int).push(
                src@[p as int],
            ));
            assert(dst@ =~= old(dst)@ + src@.subrange(from as int, p + 1));
        }
        p = p + 1;
    }
    proof {
        if from == to {
            assert(dst@ =~= old(dst)@ + src@.subrange(from as int, to as int));
        }
    }
}

/// Append `n` spaces to `dst`.
pub fn push_spaces(dst: &mut Vec<char>, n: usize)
    ensures
        final(dst)@ == old(dst)@ + repeat_char(' ', n as nat),
{
    let mut p: usize = 0;
    while p < n
        invariant
            p <= n,
            dst@ == old(dst)@ + repeat_char(' ', p as nat),
        decreases n - p,
    {
        dst.push(' ');
        proof {
            assert(dst@ =~= old(dst)@ + repeat_char(' ', (p + 1) as nat));
        }
        p = p + 1;
    }
    proof {
        if n == 0 {
            assert(dst@ =~= old(dst)@ + repeat_char(' ', 0));
        }
    }
}

/// A one-character string holding one space.
pub fn space_str() -> (r: String)
    ensures
        r@ == seq![' '],
{
    let r = String::from_str(" ");
    proof {
        reveal_strlit(" ");
        assert(r@ =~= seq![' ']);
    }
    r
}

/// A two-character string holding two spaces.
pub fn two_spaces_str() -> (r: String)
    ensures
        r@ == seq![' ', ' '],
{
    let r = String::from_str("  ");
    proof {
        reveal_strlit("  ");
        assert(r@ =~= seq![' ', ' ']);
    }
    r
}

} // verus!
