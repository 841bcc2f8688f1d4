//! Path arithmetic on plain strings. Paths are character sequences whose
//! components are separated by `/`; adapters that speak a `\`-separated
//! convention swap the separators explicitly.

use vstd::prelude::*;
use vstd::string::*;

verus! {

/// Index of the last occurrence of `ch` in `p` strictly before position `i`,
/// or `-1` when there is none.
pub open spec fn last_occurrence(p: Seq<char>, ch: char, i: int) -> int
    decreases i,
{
    if i <= 0 {
        -1
    } else if p[i - 1] == ch {
        i - 1
    } else {
        last_occurrence(p, ch, i - 1)
    }
}

/// Everything before the last `/`, the empty path when there is no `/`.
pub open spec fn spec_parent(p: Seq<char>) -> Seq<char> {
    let s = last_occurrence(p, '/', p.len() as int);
    if s < 0 {
        Seq::empty()
    } else {
        p.subrange(0, s)
    }
}

/// `a`, a separator, then `b`.
pub open spec fn spec_join(a: Seq<char>, b: Seq<char>) -> Seq<char> {
    a + seq!['/'] + b
}

/// `p` with every `from` replaced by `to`.
pub open spec fn spec_swap_chars(p: Seq<char>, from: char, to: char) -> Seq<char> {
    p.map_values(|c: char| if c == from { to } else { c })
}

/// `pre` is a prefix of `p`.
pub open spec fn spec_has_prefix(p: Seq<char>, pre: Seq<char>) -> bool {
    p.len() >= pre.len() && p.subrange(0, pre.len() as int) == pre
}

/// The final path component of `p` is exactly `c`.
pub open spec fn spec_final_component_is(p: Seq<char>, c: Seq<char>) -> bool {
    &&& p.len() >= c.len()
    &&& p.subrange(p.len() - c.len(), p.len() as int) == c
    &&& (p.len() == c.len() || p[p.len() - c.len() - 1] == '/')
}

/// The final component of `p` has the extension `e`: a `.` stands after the
/// last separator and not at the component's first position, and what
/// follows that `.` is exactly `e`.
pub open spec fn spec_extension_is(p: Seq<char>, e: Seq<char>) -> bool {
    let s = last_occurrence(p, '/', p.len() as int);
    let d = last_occurrence(p, '.', p.len() as int);
    d > s + 1 && p.subrange(d + 1, p.len() as int) == e
}

/// Position of the last occurrence of `ch` in `s`, scanning from the end.
pub fn find_last(s: &str, ch: char) -> (r: Option<usize>)
    ensures
        match r {
            Some(i) => i < s@.len() && last_occurrence(s@, ch, s@.len() as int) == i as int,
            None => last_occurrence(s@, ch, s@.len() as int) == -1,
        },
{
    let mut i: usize = s.unicode_len();
    loop
        invariant
            i <= s@.len(),
            last_occurrence(s@, ch, s@.len() as int) == last_occurrence(s@, ch, i as int),
        decreases i,
    {
        if i == 0 {
            return None;
        }
        i = i - 1;
        let c = s.get_char(i);
        if c == ch {
            return Some(i);
        }
    }
}

/// Everything before the last `/`, the empty string when there is no `/`.
pub fn parent_of(p: &String) -> (r: String)
    ensures
        r@ == spec_parent(p@),
{
    match find_last(p.as_str(), '/') {
        Some(i) => p.as_str().substring_char(0, i).to_owned(),
        None => String::new(),
    }
}

/// `a`, a `/`, then `b`.
pub fn join(a: &String, b: &str) -> (r: String)
    ensures
        r@ == spec_join(a@, b@),
{
    let mut r = a.clone();
    r.append("/");
    r.append(b);
    proof {
        reveal_strlit("/");
        assert(r@ =~= spec_join(a@, b@));
    }
    r
}

/// `s` with every `from` replaced by `to`; `to_str` spells `to` out as a
/// one-character string so the result can be assembled by appending.
pub(crate) fn swap_chars(s: &String, from: char, to: char, to_str: &str) -> (r: String)
    requires
        to_str@ == seq![to],
    ensures
        r@ == spec_swap_chars(s@, from, to),
{
    let n = s.as_str().unicode_len();
    let mut r = String::new();
    let mut i: usize = 0;
    while i < n
        invariant
            i <= n,
            n == s@.len(),
            to_str@ == seq![to],
            r@.len() == i,
            forall|j: int|
                0 <= j < i ==> r@[j] == (if s@[j] == from {
                    to
                } else {
                    s@[j]
                }),
        decreases n - i,
    {
        let c = s.as_str().get_char(i);
        if c == from {
            r.append(to_str);
        } else {
            let piece = s.as_str().substring_char(i, i + 1);
            r.append(piece);
        }
        i = i + 1;
    }
    proof {
        assert(r@ =~= spec_swap_chars(s@, from, to));
    }
    r
}

/// `pre` is a prefix of `p`.
pub fn has_prefix(p: &String, pre: &String) -> (r: bool)
    ensures
        r == spec_has_prefix(p@, pre@),
{
    let pl = p.as_str().unicode_len();
    let prel = pre.as_str().unicode_len();
    if pl < prel {
        return false;
    }
    let head = p.as_str().substring_char(0, prel).to_owned();
    head == *pre
}

/// The final path component of `p` is exactly `c`.
pub fn final_component_is(p: &String, c: &str) -> (r: bool)
    ensures
        r == spec_final_component_is(p@, c@),
{
    let pl = p.as_str().unicode_len();
    let cl = c.unicode_len();
    if pl < cl {
        return false;
    }
    let tail = p.as_str().substring_char(pl - cl, pl).to_owned();
    let pat = c.to_owned();
    if !(tail == pat) {
        return false;
    }
    if pl == cl {
        return true;
    }
    let before = p.as_str().get_char(pl - cl - 1);
    before == '/'
}

/// The final component of `p` has the extension `e`.
pub fn extension_is(p: &String, e: &str) -> (r: bool)
    ensures
        r == spec_extension_is(p@, e@),
{
    let pl = p.as_str().unicode_len();
    let sep = find_last(p.as_str(), '/');
    let dot = find_last(p.as_str(), '.');
    match dot {
        None => false,
        Some(d) => {
            let after_sep = match sep {
                None => d > 0,
                Some(s) => d > s + 1,
            };
            if !after_sep {
                return false;
            }
            let ext = p.as_str().substring_char(d + 1, pl).to_owned();
            let pat = e.to_owned();
            ext == pat
        },
    }
}

} // verus!
