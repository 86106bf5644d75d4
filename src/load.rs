//! What the loader decides from plain values: how the input is laid out, and which sets a
//! theme keeps. Reading files and parsing JSON are left to the caller.
use vstd::prelude::*;

use crate::text::{chars_of, string_of_range, str_equals, push_char, push_str};
use crate::tokens::emit::texts;
use crate::tokens::store::{Theme, TokenSetStatus};

verus! {

/// The layout of the token input: one JSON file, or a directory of them.
#[derive(Debug, Clone, Copy, PartialEq, Eq, Structural)]
pub enum FileMode {
    SingleFile,
    MultiFile,
}

/// The index of the last `c` in `s`, or -1.
pub open spec fn last_index_of(s: Seq<char>, c: char) -> int
    decreases s.len(),
{
    if s.len() == 0 {
        -1
    } else if s.last() == c {
        s.len() - 1
    } else {
        last_index_of(s.drop_last(), c)
    }
}

proof fn lemma_last_index_of(s: Seq<char>, c: char)
    ensures
        -1 <= last_index_of(s, c) < s.len(),
        last_index_of(s, c) >= 0 ==> s[last_index_of(s, c)] == c,
    decreases s.len(),
{
    if s.len() > 0 {
        lemma_last_index_of(s.drop_last(), c);
    }
}

/// The length of `p` without its trailing slashes.
pub open spec fn kept_len(p: Seq<char>) -> int
    decreases p.len(),
{
    if p.len() > 0 && p.last() == '/' {
        kept_len(p.drop_last())
    } else {
        p.len() as int
    }
}

proof fn lemma_kept_len(p: Seq<char>)
    ensures
        0 <= kept_len(p) <= p.len(),
    decreases p.len(),
{
    if p.len() > 0 && p.last() == '/' {
        lemma_kept_len(p.drop_last());
    }
}

/// The last component of a path: what follows the last `/` once trailing slashes are
/// dropped; none when that is empty, `.` or `..`.
pub open spec fn file_name(p: Seq<char>) -> Option<Seq<char>> {
    let q = p.subrange(0, kept_len(p));
    let c = q.subrange(last_index_of(q, '/') + 1, q.len() as int);
    if c.len() == 0 || c == seq!['.'] || c == seq!['.', '.'] {
        None
    } else {
        Some(c)
    }
}

/// The extension of a path: what follows the last `.` of its file name; none when the file
/// name has no `.` or its only `.` is its first character.
pub open spec fn extension(p: Seq<char>) -> Option<Seq<char>> {
    match file_name(p) {
        None => None,
        Some(f) => if last_index_of(f, '.') <= 0 {
            None
        } else {
            Some(f.subrange(last_index_of(f, '.') + 1, f.len() as int))
        },
    }
}

fn last_index(cs: &Vec<char>, end: usize, c: char) -> (r: Option<usize>)
    requires
        end <= cs@.len(),
    ensures
        match r {
            Some(k) => last_index_of(cs@.subrange(0, end as int), c) == k as int && k < end,
            None => last_index_of(cs@.subrange(0, end as int), c) == -1,
        },
{
    let mut i = end;
    while i > 0 && cs[i - 1] != c
        invariant
            i <= end <= cs@.len(),
            last_index_of(cs@.subrange(0, end as int), c) == last_index_of(cs@.subrange(0, i as int), c),
        decreases i,
    {
        assert(cs@.subrange(0, i as int).drop_last() =~= cs@.subrange(0, i - 1));
        i = i - 1;
    }
    if i == 0 {
        assert(cs@.subrange(0, 0).len() == 0);
        None
    } else {
        Some(i - 1)
    }
}

/// The extension of `path`, as [`std::path::Path::extension`] reads it.
pub fn file_extension(path: &str) -> (r: Option<String>)
    ensures
        match r {
            Some(e) => extension(path@) == Some(e@),
            None => extension(path@) is None,
        },
{
    let cs = chars_of(path);
    let mut end = cs.len();
    assert(cs@.subrange(0, end as int) =~= cs@);
    while end > 0 && cs[end - 1] == '/'
        invariant
            end <= cs@.len(),
            kept_len(cs@) == kept_len(cs@.subrange(0, end as int)),
        decreases end,
    {
        assert(cs@.subrange(0, end as int).drop_last() =~= cs@.subrange(0, end - 1));
        end = end - 1;
    }
    let ghost q = cs@.subrange(0, end as int);
    assert(kept_len(q) == end);
    assert(q == path@.subrange(0, kept_len(path@)));
    let start = match last_index(&cs, end, '/') {
        Some(k) => k + 1,
        None => 0,
    };
    let name = string_of_range(&cs, start, end);
    assert(name@ =~= q.subrange(last_index_of(q, '/') + 1, q.len() as int));
    if end == start || str_equals(name.as_str(), ".") || str_equals(name.as_str(), "..") {
        proof {
            reveal_strlit(".");
            reveal_strlit("..");
            assert("."@ =~= seq!['.']);
            assert(".."@ =~= seq!['.', '.']);
        }
        return None;
    }
    proof {
        reveal_strlit(".");
        reveal_strlit("..");
        assert("."@ =~= seq!['.']);
        assert(".."@ =~= seq!['.', '.']);
    }
    let ncs = chars_of(name.as_str());
    assert(ncs@.subrange(0, ncs@.len() as int) =~= ncs@);
    match last_index(&ncs, ncs.len(), '.') {
        None => None,
        Some(d) => {
            if d == 0 {
                None
            } else {
                Some(string_of_range(&ncs, d + 1, ncs.len()))
            }
        },
    }
}

/// Whether `path` names an input the loader can read: a directory (no extension) or a
/// `.json` file.
pub open spec fn supported_entry(path: Seq<char>) -> bool {
    extension(path) is None || extension(path) == Some("json"@)
}

/// The layout of the input at `path`: one JSON file when it has the `json` extension, a
/// directory when it has none.
pub fn get_file_mode(path: &str) -> (r: FileMode)
    requires
        supported_entry(path@),
    ensures
        r == (if extension(path@) is None {
            FileMode::MultiFile
        } else {
            FileMode::SingleFile
        }),
{
    match file_extension(path) {
        Some(_) => FileMode::SingleFile,
        None => FileMode::MultiFile,
    }
}

/// The status a label of the input format names.
pub open spec fn status_of_label(s: Seq<char>) -> Option<TokenSetStatus> {
    if s == "source"@ {
        Some(TokenSetStatus::Source)
    } else if s == "enabled"@ {
        Some(TokenSetStatus::Enabled)
    } else if s == "disabled"@ {
        Some(TokenSetStatus::Disabled)
    } else {
        None
    }
}

impl TokenSetStatus {
    /// The status named `source`, `enabled` or `disabled`.
    pub fn from_label(s: &str) -> (r: Option<TokenSetStatus>)
        ensures
            r == status_of_label(s@),
    {
        if str_equals(s, "source") {
            Some(TokenSetStatus::Source)
        } else if str_equals(s, "enabled") {
            Some(TokenSetStatus::Enabled)
        } else if str_equals(s, "disabled") {
            Some(TokenSetStatus::Disabled)
        } else {
            None
        }
    }
}

/// The entries of `e` whose status is not disabled, in order.
pub open spec fn without_disabled(e: Seq<(String, TokenSetStatus)>) -> Seq<(String, TokenSetStatus)>
    decreases e.len(),
{
    if e.len() == 0 {
        seq![]
    } else {
        without_disabled(e.drop_last()) + if e.last().1 == TokenSetStatus::Disabled {
            seq![]
        } else {
            seq![e.last()]
        }
    }
}

impl Theme {
    /// A theme from the sets it selects: disabled sets are left out, the others keep their
    /// order and status.
    pub fn from_selection(selected: Vec<(String, TokenSetStatus)>) -> (r: Theme)
        ensures
            r.0@ == without_disabled(selected@),
    {
        let mut kept: Vec<(String, TokenSetStatus)> = Vec::new();
        let mut i: usize = 0;
        while i < selected.len()
            invariant
                i <= selected@.len(),
                kept@ == without_disabled(selected@.subrange(0, i as int)),
            decreases selected@.len() - i,
        {
            proof {
                assert(selected@.subrange(0, i + 1).drop_last() =~= selected@.subrange(0, i as int));
            }
            if selected[i].1 != TokenSetStatus::Disabled {
                kept.push((selected[i].0.clone(), selected[i].1));
            }
            proof {
                assert(kept@ =~= without_disabled(selected@.subrange(0, i + 1)));
            }
            i = i + 1;
        }
        assert(selected@.subrange(0, selected@.len() as int) =~= selected@);
        Theme(kept)
    }
}

/// A token set's name: its slug (a path within the input) with `/` replaced by `.`.
pub open spec fn set_name_of_slug(slug: Seq<char>) -> Seq<char> {
    slug.map_values(|c: char| if c == '/' { '.' } else { c })
}

/// The name of a token set, from its slug.
pub fn set_name_of(slug: &str) -> (r: String)
    ensures
        r@ == set_name_of_slug(slug@),
{
    let n = slug.unicode_len();
    let mut r = String::new();
    let mut i: usize = 0;
    while i < n
        invariant
            i <= n,
            n == slug@.len(),
            r@ == set_name_of_slug(slug@.subrange(0, i as int)),
        decreases n - i,
    {
        let c = slug.get_char(i);
        push_char(&mut r, if c == '/' { '.' } else { c });
        i = i + 1;
        assert(r@ =~= set_name_of_slug(slug@.subrange(0, i as int)));
    }
    assert(slug@.subrange(0, n as int) =~= slug@);
    r
}

/// The parts joined by `.`.
pub open spec fn join_dots(parts: Seq<Seq<char>>) -> Seq<char>
    decreases parts.len(),
{
    if parts.len() == 0 {
        seq![]
    } else if parts.len() == 1 {
        parts[0]
    } else {
        join_dots(parts.drop_last()) + "."@ + parts.last()
    }
}

/// A token's name: the keys that lead to it within its set, joined by `.`.
pub fn token_name(path: &Vec<String>) -> (r: String)
    ensures
        r@ == join_dots(texts(path@)),
{
    let mut r = String::new();
    let mut i: usize = 0;
    while i < path.len()
        invariant
            i <= path@.len(),
            r@ == join_dots(texts(path@.subrange(0, i as int))),
        decreases path@.len() - i,
    {
        let ghost before = r@;
        if i > 0 {
            push_str(&mut r, ".");
        }
        push_str(&mut r, path[i].as_str());
        proof {
            let pre = texts(path@.subrange(0, i + 1));
            assert(pre.drop_last() =~= texts(path@.subrange(0, i as int)));
            assert(pre.last() == path@[i as int]@);
            if i == 0 {
                assert(r@ =~= pre[0]);
            } else {
                assert(r@ =~= before + "."@ + pre.last());
            }
        }
        i = i + 1;
    }
    assert(path@.subrange(0, path@.len() as int) =~= path@);
    r
}

/// A token's id: its set's name, `.`, and its own name.
pub fn token_id(set_name: &str, name: &str) -> (r: String)
    ensures
        r@ == set_name@ + "."@ + name@,
{
    let mut r = set_name.to_owned();
    push_str(&mut r, ".");
    push_str(&mut r, name);
    r
}

} // verus!
