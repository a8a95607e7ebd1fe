//! Character-level helpers on source text.

use vstd::prelude::*;

verus! {

/// The characters of `s`, in order.
pub fn str_to_chars(s: &str) -> (v: Vec<char>)
    ensures
        v@ == s@,
{
    broadcast use vstd::string::axiom_spec_iter;
    let mut v: Vec<char> = Vec::new();
    for c in it: s.chars()
        invariant
            it.seq() == s@,
            v@ == s@.take(it.index() as int),
    {
        proof {
            assert(s@.take(it.index() as int + 1) =~= s@.take(it.index() as int).push(c));
        }
        v.push(c);
    }
    proof {
        assert(s@.take(s@.len() as int) =~= s@);
    }
    v
}

/// Appends one character, as `String::push` does.
#[verifier::external_body]
fn push_char(s: &mut String, c: char)
    ensures
        final(s)@ == old(s)@.push(c),
{
    s.push(c)
}

/// A `String` holding exactly the given characters.
pub fn chars_to_string(v: &[char]) -> (s: String)
    ensures
        s@ == v@,
{
    let mut s = String::new();
    let mut i: usize = 0;
    while i < v.len()
        invariant
            i <= v@.len(),
            s@ == v@.take(i as int),
        decreases v@.len() - i,
    {
        proof {
            assert(v@.take(i as int + 1) =~= v@.take(i as int).push(v@[i as int]));
        }
        push_char(&mut s, v[i]);
        i = i + 1;
    }
    proof {
        assert(v@.take(i as int) =~= v@);
    }
    s
}

/// True for an ASCII decimal digit.
pub open spec fn is_digit(c: char) -> bool {
    '0' <= c && c <= '9'
}

/// True for an ASCII letter.
pub open spec fn is_alpha(c: char) -> bool {
    ('a' <= c && c <= 'z') || ('A' <= c && c <= 'Z')
}

/// True for an ASCII letter or digit.
pub open spec fn is_alnum(c: char) -> bool {
    is_alpha(c) || is_digit(c)
}

pub fn is_digit_exec(c: char) -> (r: bool)
    ensures
        r == is_digit(c),
{
    '0' <= c && c <= '9'
}

pub fn is_alpha_exec(c: char) -> (r: bool)
    ensures
        r == is_alpha(c),
{
    ('a' <= c && c <= 'z') || ('A' <= c && c <= 'Z')
}

/// True when some literal of `list` equals `w`.
pub open spec fn in_list(w: Seq<char>, list: Seq<&str>) -> bool {
    exists|k: int| 0 <= k < list.len() && list[k]@ == w
}

/// Whether `s[a..b]` equals one of the literals in `list`.
pub fn seg_in_list(s: &Vec<char>, a: usize, b: usize, list: &[&str]) -> (r: bool)
    requires
        a <= b <= s@.len(),
    ensures
        r == in_list(s@.subrange(a as int, b as int), list@),
{
    let mut k: usize = 0;
    while k < list.len()
        invariant
            a <= b <= s@.len(),
            k <= list@.len(),
            forall|j: int| 0 <= j < k ==> list@[j]@ != s@.subrange(a as int, b as int),
        decreases list@.len() - k,
    {
        if crate::token::seg_eq_lit(s, a, b, list[k]) {
            return true;
        }
        k = k + 1;
    }
    false
}

} // verus!
