use vstd::prelude::*;

use crate::text::chars_of;

verus! {

/// The first position at or after `i` that holds a brace, or the end of `s`.
pub open spec fn next_brace(s: Seq<char>, i: int) -> int
    decreases s.len() - i,
{
    if 0 <= i < s.len() && s[i] != '{' && s[i] != '}' {
        next_brace(s, i + 1)
    } else {
        i
    }
}

pub proof fn lemma_next_brace(s: Seq<char>, i: int)
    requires
        0 <= i <= s.len(),
    ensures
        i <= next_brace(s, i) <= s.len(),
        forall|j: int| i <= j < next_brace(s, i) ==> #[trigger] s[j] != '{' && s[j] != '}',
    decreases s.len() - i,
{
    if i < s.len() && s[i] != '{' && s[i] != '}' {
        lemma_next_brace(s, i + 1);
    }
}

/// Whether a reference `{name}` starts at `p`: a `{` whose next brace is a `}`.
pub open spec fn reference_at(s: Seq<char>, p: int) -> bool {
    0 <= p < s.len() && s[p] == '{' && next_brace(s, p + 1) < s.len() && s[next_brace(s, p + 1)]
        == '}'
}

/// Whether `s` holds a reference `{name}`, where the name holds no brace.
pub open spec fn has_reference(s: Seq<char>) -> bool {
    exists|p: int| reference_at(s, p)
}

/// The first position at or after `i` in `cs` that holds a brace, or the length.
pub fn next_brace_from(cs: &Vec<char>, i: usize) -> (j: usize)
    requires
        i <= cs@.len(),
    ensures
        j == next_brace(cs@, i as int),
        i <= j <= cs@.len(),
{
    proof {
        lemma_next_brace(cs@, i as int);
    }
    let mut j = i;
    while j < cs.len() && cs[j] != '{' && cs[j] != '}'
        invariant
            i <= j <= cs@.len(),
            next_brace(cs@, i as int) == next_brace(cs@, j as int),
        decreases cs@.len() - j,
    {
        j = j + 1;
    }
    j
}

/// Whether a reference starts at `p` in `cs`.
pub fn reference_starts_at(cs: &Vec<char>, p: usize) -> (r: bool)
    requires
        p < cs@.len(),
    ensures
        r == reference_at(cs@, p as int),
{
    let n = cs.len();
    if cs[p] != '{' || p >= n {
        return false;
    }
    let j = next_brace_from(cs, p + 1);
    j < cs.len() && cs[j] == '}'
}

/// Whether `s` holds a reference `{name}` to another token.
pub fn contains_reference(s: &str) -> (r: bool)
    ensures
        r == has_reference(s@),
{
    let cs = chars_of(s);
    let mut p: usize = 0;
    while p < cs.len()
        invariant
            p <= cs@.len(),
            cs@ == s@,
            forall|q: int| 0 <= q < p ==> !reference_at(s@, q),
        decreases cs@.len() - p,
    {
        if reference_starts_at(&cs, p) {
            return true;
        }
        p = p + 1;
    }
    assert forall|q: int| !reference_at(s@, q) by {
        if 0 <= q < p {
        }
    }
    false
}

} // verus!
