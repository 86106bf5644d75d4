use vstd::prelude::*;

use crate::text::str_equals;
use crate::tokens::definition::Token;

verus! {

/// The ids of the tokens of one set, in declaration order.
#[derive(Debug, Clone)]
pub struct TokenSet(pub Vec<String>);

impl TokenSet {
    pub fn new(tokens: Vec<String>) -> (r: Self)
        ensures
            r.0@ == tokens@,
    {
        TokenSet(tokens)
    }
}

/// How a theme uses one token set.
#[derive(Debug, Clone, Copy, PartialEq, Eq, Structural)]
pub enum TokenSetStatus {
    Source,
    Enabled,
    Disabled,
}

/// The token sets a theme selects, each with its status, in the order given.
#[derive(Debug, Clone)]
pub struct Theme(pub Vec<(String, TokenSetStatus)>);

/// All tokens, token sets and themes of one build: read only once constructed.
pub struct Figtok {
    pub output_path: String,
    /// Every token, in declaration order.
    pub tokens: Vec<Token>,
    /// Every token set with its name, in declaration order.
    pub token_sets: Vec<(String, TokenSet)>,
    /// Every theme with its name.
    pub themes: Vec<(String, Theme)>,
}

/// Whether no two tokens share an id, no two token sets a name, and no two themes a name.
pub open spec fn unique_parts(
    tokens: Seq<Token>,
    token_sets: Seq<(String, TokenSet)>,
    themes: Seq<(String, Theme)>,
) -> bool {
    &&& forall|i: int, j: int|
        #![trigger tokens[i], tokens[j]]
        0 <= i < j < tokens.len() ==> tokens[i].spec_id() != tokens[j].spec_id()
    &&& forall|i: int, j: int|
        #![trigger token_sets[i], token_sets[j]]
        0 <= i < j < token_sets.len() ==> token_sets[i].0@ != token_sets[j].0@
    &&& forall|i: int, j: int|
        #![trigger themes[i], themes[j]]
        0 <= i < j < themes.len() ==> themes[i].0@ != themes[j].0@
}

/// Whether the texts of `v` are pairwise different.
pub open spec fn distinct_texts(v: Seq<String>) -> bool {
    forall|i: int, j: int| #![trigger v[i], v[j]] 0 <= i < j < v.len() ==> v[i]@ != v[j]@
}

fn all_distinct(v: &Vec<String>) -> (r: bool)
    ensures
        r == distinct_texts(v@),
{
    let mut i: usize = 0;
    while i < v.len()
        invariant
            i <= v@.len(),
            forall|a: int, b: int| #![trigger v@[a], v@[b]] 0 <= a < i && a < b < v@.len() ==> v@[a]@ != v@[b]@,
        decreases v@.len() - i,
    {
        let mut j: usize = i + 1;
        while j < v.len()
            invariant
                i < v@.len(),
                i + 1 <= j <= v@.len(),
                forall|a: int, b: int| #![trigger v@[a], v@[b]] 0 <= a < i && a < b < v@.len() ==> v@[a]@ != v@[b]@,
                forall|b: int| i < b < j ==> v@[i as int]@ != (#[trigger] v@[b])@,
            decreases v@.len() - j,
        {
            if str_equals(v[i].as_str(), v[j].as_str()) {
                return false;
            }
            j = j + 1;
        }
        i = i + 1;
    }
    true
}

/// Whether no two tokens share an id, no two token sets a name and no two themes a name:
/// what [`Figtok::new`] asks of its parts.
pub fn parts_are_unique(
    tokens: &Vec<Token>,
    token_sets: &Vec<(String, TokenSet)>,
    themes: &Vec<(String, Theme)>,
) -> (r: bool)
    ensures
        r == unique_parts(tokens@, token_sets@, themes@),
{
    let mut ids: Vec<String> = Vec::new();
    let mut i: usize = 0;
    while i < tokens.len()
        invariant
            i <= tokens@.len(),
            ids@.len() == i,
            forall|k: int| 0 <= k < i ==> #[trigger] ids@[k]@ == tokens@[k].spec_id(),
        decreases tokens@.len() - i,
    {
        ids.push(tokens[i].id());
        i = i + 1;
    }
    let mut set_names: Vec<String> = Vec::new();
    let mut i: usize = 0;
    while i < token_sets.len()
        invariant
            i <= token_sets@.len(),
            set_names@.len() == i,
            forall|k: int| 0 <= k < i ==> #[trigger] set_names@[k]@ == token_sets@[k].0@,
        decreases token_sets@.len() - i,
    {
        set_names.push(token_sets[i].0.clone());
        i = i + 1;
    }
    let mut theme_names: Vec<String> = Vec::new();
    let mut i: usize = 0;
    while i < themes.len()
        invariant
            i <= themes@.len(),
            theme_names@.len() == i,
            forall|k: int| 0 <= k < i ==> #[trigger] theme_names@[k]@ == themes@[k].0@,
        decreases themes@.len() - i,
    {
        theme_names.push(themes[i].0.clone());
        i = i + 1;
    }
    let a = all_distinct(&ids);
    let b = all_distinct(&set_names);
    let c = all_distinct(&theme_names);
    proof {
        if a {
            assert forall|x: int, y: int| #![trigger tokens@[x], tokens@[y]]
                0 <= x < y < tokens@.len() implies tokens@[x].spec_id() != tokens@[y].spec_id() by {
                assert(ids@[x]@ != ids@[y]@);
            }
        } else {
            let (x, y) = choose|x: int, y: int| #![trigger ids@[x], ids@[y]] 0 <= x < y < ids@.len() && ids@[x]@ == ids@[y]@;
            assert(ids@[x]@ == tokens@[x].spec_id() && ids@[y]@ == tokens@[y].spec_id());
        }
        if b {
            assert forall|x: int, y: int| #![trigger token_sets@[x], token_sets@[y]]
                0 <= x < y < token_sets@.len() implies token_sets@[x].0@ != token_sets@[y].0@ by {
                assert(set_names@[x]@ != set_names@[y]@);
            }
        } else {
            let (x, y) = choose|x: int, y: int| #![trigger set_names@[x], set_names@[y]] 0 <= x < y < set_names@.len() && set_names@[x]@ == set_names@[y]@;
            assert(set_names@[x]@ == token_sets@[x].0@ && set_names@[y]@ == token_sets@[y].0@);
        }
        if c {
            assert forall|x: int, y: int| #![trigger themes@[x], themes@[y]]
                0 <= x < y < themes@.len() implies themes@[x].0@ != themes@[y].0@ by {
                assert(theme_names@[x]@ != theme_names@[y]@);
            }
        } else {
            let (x, y) = choose|x: int, y: int| #![trigger theme_names@[x], theme_names@[y]] 0 <= x < y < theme_names@.len() && theme_names@[x]@ == theme_names@[y]@;
            assert(theme_names@[x]@ == themes@[x].0@ && theme_names@[y]@ == themes@[y].0@);
        }
    }
    a && b && c
}

/// The index of the first element of `s` that satisfies `p`.
pub open spec fn first_where<A>(s: Seq<A>, p: spec_fn(A) -> bool) -> Option<int>
    decreases s.len(),
{
    if s.len() == 0 {
        None
    } else {
        match first_where(s.drop_last(), p) {
            Some(k) => Some(k),
            None => if p(s.last()) {
                Some(s.len() - 1)
            } else {
                None
            },
        }
    }
}

pub proof fn lemma_first_where<A>(s: Seq<A>, p: spec_fn(A) -> bool)
    ensures
        match first_where(s, p) {
            Some(k) => 0 <= k < s.len() && p(s[k]) && forall|j: int| 0 <= j < k ==> !p(#[trigger] s[j]),
            None => forall|j: int| 0 <= j < s.len() ==> !p(#[trigger] s[j]),
        },
    decreases s.len(),
{
    if s.len() > 0 {
        let d = s.drop_last();
        lemma_first_where(d, p);
        assert forall|j: int| 0 <= j < d.len() implies d[j] == s[j] by {}
    }
}

proof fn lemma_first_where_step<A>(s: Seq<A>, p: spec_fn(A) -> bool, i: int)
    requires
        0 <= i < s.len(),
        first_where(s.subrange(0, i), p) is None,
    ensures
        first_where(s.subrange(0, i + 1), p) == if p(s[i]) {
            Some(i)
        } else {
            None::<int>
        },
{
    assert(s.subrange(0, i + 1).drop_last() =~= s.subrange(0, i));
}

proof fn lemma_first_where_prefix<A>(s: Seq<A>, p: spec_fn(A) -> bool, i: int)
    requires
        0 <= i <= s.len(),
        first_where(s.subrange(0, i), p) is Some,
    ensures
        first_where(s, p) == first_where(s.subrange(0, i), p),
    decreases s.len() - i,
{
    if i == s.len() {
        assert(s.subrange(0, i) =~= s);
    } else {
        assert(s.subrange(0, i + 1).drop_last() =~= s.subrange(0, i));
        lemma_first_where_prefix(s, p, i + 1);
    }
}

proof fn lemma_first_where_none<A>(s: Seq<A>, p: spec_fn(A) -> bool)
    requires
        first_where(s.subrange(0, s.len() as int), p) is None,
    ensures
        first_where(s, p) is None,
{
    assert(s.subrange(0, s.len() as int) =~= s);
}

pub open spec fn id_is(id: Seq<char>) -> spec_fn(Token) -> bool {
    |t: Token| t.spec_id() == id
}

pub open spec fn set_named(name: Seq<char>) -> spec_fn((String, TokenSet)) -> bool {
    |e: (String, TokenSet)| e.0@ == name
}

pub open spec fn theme_named(name: Seq<char>) -> spec_fn((String, Theme)) -> bool {
    |e: (String, Theme)| e.0@ == name
}

/// The view of an optional theme name.
pub open spec fn opt_text(o: Option<String>) -> Option<Seq<char>> {
    match o {
        Some(s) => Some(s@),
        None => None,
    }
}

/// Whether the indices in `v` are those of `s`.
pub open spec fn same_indices(v: Seq<usize>, s: Seq<int>) -> bool {
    v.len() == s.len() && forall|i: int| 0 <= i < v.len() ==> v[i] as int == s[i]
}

/// The names of the entries of `e` with status `st`, in order.
pub open spec fn with_status(e: Seq<(String, TokenSetStatus)>, st: TokenSetStatus) -> Seq<String>
    decreases e.len(),
{
    if e.len() == 0 {
        seq![]
    } else {
        with_status(e.drop_last(), st) + if e.last().1 == st {
            seq![e.last().0]
        } else {
            seq![]
        }
    }
}

impl Figtok {
    /// The store's invariant: token ids, token set names and theme names are unique.
    pub open spec fn wf(&self) -> bool {
        unique_parts(self.tokens@, self.token_sets@, self.themes@)
    }

    /// The index of the first token with this id.
    pub open spec fn token_with_id(&self, id: Seq<char>) -> Option<int> {
        first_where(self.tokens@, id_is(id))
    }

    /// The indices of the tokens with these ids, in order; ids with no token are skipped.
    pub open spec fn members(&self, ids: Seq<String>) -> Seq<int>
        decreases ids.len(),
    {
        if ids.len() == 0 {
            seq![]
        } else {
            self.members(ids.drop_last()) + match self.token_with_id(ids.last()@) {
                Some(k) => seq![k],
                None => seq![],
            }
        }
    }

    /// The indices of the tokens of the first set with this name.
    pub open spec fn set_members(&self, name: Seq<char>) -> Seq<int> {
        match first_where(self.token_sets@, set_named(name)) {
            Some(j) => self.members(self.token_sets@[j].1.0@),
            None => seq![],
        }
    }

    /// The indices of the tokens of the sets with these names, set after set.
    pub open spec fn sets_members(&self, names: Seq<String>) -> Seq<int>
        decreases names.len(),
    {
        if names.len() == 0 {
            seq![]
        } else {
            self.sets_members(names.drop_last()) + self.set_members(names.last()@)
        }
    }

    /// The tokens that are active under a theme, by index: all tokens when there is none;
    /// otherwise the tokens of the theme's source sets, then those of its enabled sets. A
    /// theme name that names no theme activates nothing.
    pub open spec fn active(&self, theme: Option<Seq<char>>) -> Seq<int> {
        match theme {
            None => Seq::new(self.tokens@.len(), |i: int| i),
            Some(name) => match first_where(self.themes@, theme_named(name)) {
                Some(t) => {
                    let e = self.themes@[t].1.0@;
                    self.sets_members(
                        with_status(e, TokenSetStatus::Source) + with_status(e, TokenSetStatus::Enabled),
                    )
                },
                None => seq![],
            },
        }
    }

    pub open spec fn name_is(&self, name: Seq<char>) -> spec_fn(int) -> bool {
        |j: int| 0 <= j < self.tokens@.len() && self.tokens@[j].spec_name() == name
    }

    /// The first active token with this name, by index.
    pub open spec fn lookup(&self, name: Seq<char>, theme: Option<Seq<char>>) -> Option<int> {
        match first_where(self.active(theme), self.name_is(name)) {
            Some(k) => Some(self.active(theme)[k]),
            None => None,
        }
    }

    pub proof fn lemma_members_prefix(&self, ids: Seq<String>, k: int)
        requires
            0 <= k <= ids.len(),
        ensures
            self.members(ids.subrange(0, k)).len() <= self.members(ids).len(),
            forall|j: int|
                0 <= j < self.members(ids.subrange(0, k)).len() ==> #[trigger] self.members(ids)[j]
                    == self.members(ids.subrange(0, k))[j],
        decreases ids.len() - k,
    {
        if k == ids.len() {
            assert(ids.subrange(0, k) =~= ids);
        } else {
            let t = ids.drop_last();
            assert(t.subrange(0, k) =~= ids.subrange(0, k));
            self.lemma_members_prefix(t, k);
        }
    }

    pub proof fn lemma_sets_members_prefix(&self, names: Seq<String>, k: int)
        requires
            0 <= k <= names.len(),
        ensures
            self.sets_members(names.subrange(0, k)).len() <= self.sets_members(names).len(),
            forall|j: int|
                0 <= j < self.sets_members(names.subrange(0, k)).len() ==> #[trigger] self.sets_members(
                    names,
                )[j] == self.sets_members(names.subrange(0, k))[j],
        decreases names.len() - k,
    {
        if k == names.len() {
            assert(names.subrange(0, k) =~= names);
        } else {
            let t = names.drop_last();
            assert(t.subrange(0, k) =~= names.subrange(0, k));
            self.lemma_sets_members_prefix(t, k);
        }
    }

    pub fn new(
        tokens: Vec<Token>,
        token_sets: Vec<(String, TokenSet)>,
        themes: Vec<(String, Theme)>,
        output_path: &str,
    ) -> (r: Figtok)
        requires
            unique_parts(tokens@, token_sets@, themes@),
        ensures
            r.wf(),
            r.tokens@ == tokens@,
            r.token_sets@ == token_sets@,
            r.themes@ == themes@,
            r.output_path@ == output_path@,
    {
        Figtok { output_path: output_path.to_owned(), tokens, token_sets, themes }
    }

    /// The index of the first token with id `id`.
    pub fn find_token(&self, id: &str) -> (r: Option<usize>)
        ensures
            match r {
                Some(k) => self.token_with_id(id@) == Some(k as int) && k < self.tokens@.len(),
                None => self.token_with_id(id@) is None,
            },
    {
        let mut i: usize = 0;
        while i < self.tokens.len()
            invariant
                i <= self.tokens@.len(),
                first_where(self.tokens@.subrange(0, i as int), id_is(id@)) is None,
            decreases self.tokens@.len() - i,
        {
            proof {
                lemma_first_where_step(self.tokens@, id_is(id@), i as int);
            }
            let tid = self.tokens[i].id();
            if str_equals(tid.as_str(), id) {
                proof {
                    lemma_first_where_prefix(self.tokens@, id_is(id@), i + 1);
                }
                return Some(i);
            }
            i = i + 1;
        }
        proof {
            lemma_first_where_none(self.tokens@, id_is(id@));
        }
        None
    }

    /// The token with id `id`; `None` when there is none. Ids being unique, it is the only
    /// one.
    pub fn token(&self, id: &str) -> (r: Option<&Token>)
        ensures
            match self.token_with_id(id@) {
                Some(k) => r is Some && *r->Some_0 == self.tokens@[k],
                None => r is None,
            },
            self.wf() && r is Some ==> forall|j: int|
                0 <= j < self.tokens@.len() && self.tokens@[j].spec_id() == id@ ==> #[trigger] self.tokens@[j]
                    == *r->Some_0,
    {
        match self.find_token(id) {
            Some(k) => {
                proof {
                    lemma_first_where(self.tokens@, id_is(id@));
                    assert(id_is(id@)(self.tokens@[k as int]));
                    assert forall|j: int|
                        0 <= j < self.tokens@.len() && self.tokens@[j].spec_id() == id@ && self.wf()
                            implies #[trigger] self.tokens@[j] == self.tokens@[k as int] by {
                        if j < k {
                            assert(!id_is(id@)(self.tokens@[j]));
                        } else if j > k {
                            assert(self.tokens@[k as int].spec_id() != self.tokens@[j].spec_id());
                        }
                    }
                }
                Some(&self.tokens[k])
            },
            None => None,
        }
    }

    /// The index of the first token set named `name`.
    pub fn find_set(&self, name: &str) -> (r: Option<usize>)
        ensures
            match r {
                Some(k) => first_where(self.token_sets@, set_named(name@)) == Some(k as int) && k < self.token_sets@.len(),
                None => first_where(self.token_sets@, set_named(name@)) is None,
            },
    {
        let mut i: usize = 0;
        while i < self.token_sets.len()
            invariant
                i <= self.token_sets@.len(),
                first_where(self.token_sets@.subrange(0, i as int), set_named(name@)) is None,
            decreases self.token_sets@.len() - i,
        {
            proof {
                lemma_first_where_step(self.token_sets@, set_named(name@), i as int);
            }
            if str_equals(self.token_sets[i].0.as_str(), name) {
                proof {
                    lemma_first_where_prefix(self.token_sets@, set_named(name@), i + 1);
                }
                return Some(i);
            }
            i = i + 1;
        }
        proof {
            lemma_first_where_none(self.token_sets@, set_named(name@));
        }
        None
    }

    fn find_theme(&self, name: &str) -> (r: Option<usize>)
        ensures
            match r {
                Some(k) => first_where(self.themes@, theme_named(name@)) == Some(k as int) && k < self.themes@.len(),
                None => first_where(self.themes@, theme_named(name@)) is None,
            },
    {
        let mut i: usize = 0;
        while i < self.themes.len()
            invariant
                i <= self.themes@.len(),
                first_where(self.themes@.subrange(0, i as int), theme_named(name@)) is None,
            decreases self.themes@.len() - i,
        {
            proof {
                lemma_first_where_step(self.themes@, theme_named(name@), i as int);
            }
            if str_equals(self.themes[i].0.as_str(), name) {
                proof {
                    lemma_first_where_prefix(self.themes@, theme_named(name@), i + 1);
                }
                return Some(i);
            }
            i = i + 1;
        }
        proof {
            lemma_first_where_none(self.themes@, theme_named(name@));
        }
        None
    }

    /// Appends to `out` the indices of the tokens of the first set named `name`.
    fn push_set_members(&self, name: &String, out: &mut Vec<usize>, prev: Ghost<Seq<int>>)
        requires
            same_indices(old(out)@, prev@),
            forall|i: int| 0 <= i < old(out)@.len() ==> old(out)@[i] < self.tokens@.len(),
        ensures
            same_indices(final(out)@, prev@ + self.set_members(name@)),
            forall|i: int| 0 <= i < final(out)@.len() ==> final(out)@[i] < self.tokens@.len(),
    {
        match self.find_set(name.as_str()) {
            None => {
                assert(prev@ + self.set_members(name@) =~= prev@);
            },
            Some(j) => {
                let ids = &self.token_sets[j].1.0;
                assert(ids@.subrange(0, 0) =~= Seq::<String>::empty());
                assert(prev@ + self.members(ids@.subrange(0, 0)) =~= prev@);
                let mut k: usize = 0;
                while k < ids.len()
                    invariant
                        k <= ids@.len(),
                        ids@ == self.token_sets@[j as int].1.0@,
                        same_indices(out@, prev@ + self.members(ids@.subrange(0, k as int))),
                        forall|i: int| 0 <= i < out@.len() ==> out@[i] < self.tokens@.len(),
                    decreases ids@.len() - k,
                {
                    let ghost before = prev@ + self.members(ids@.subrange(0, k as int));
                    proof {
                        assert(ids@.subrange(0, k + 1).drop_last() =~= ids@.subrange(0, k as int));
                        assert(ids@.subrange(0, k + 1).last() == ids@[k as int]);
                    }
                    match self.find_token(ids[k].as_str()) {
                        Some(t) => {
                            out.push(t);
                            assert(self.members(ids@.subrange(0, k + 1)) == self.members(
                                ids@.subrange(0, k as int),
                            ) + seq![t as int]);
                            assert(prev@ + self.members(ids@.subrange(0, k + 1)) =~= before.push(
                                t as int,
                            ));
                        },
                        None => {
                            assert(prev@ + self.members(ids@.subrange(0, k + 1)) =~= before);
                        },
                    }
                    k = k + 1;
                }
                assert(ids@.subrange(0, ids@.len() as int) =~= ids@);
            },
        }
    }

    /// The indices of the tokens that are active under `theme`: all tokens when there is none;
    /// otherwise those of the theme's source sets, then those of its enabled sets.
    pub fn active_tokens(&self, theme: &Option<String>) -> (r: Vec<usize>)
        ensures
            same_indices(r@, self.active(opt_text(*theme))),
            forall|i: int| 0 <= i < r@.len() ==> r@[i] < self.tokens@.len(),
    {
        let mut out: Vec<usize> = Vec::new();
        match theme {
            None => {
                let mut i: usize = 0;
                while i < self.tokens.len()
                    invariant
                        i <= self.tokens@.len(),
                        out@.len() == i,
                        forall|j: int| 0 <= j < i ==> out@[j] == j,
                    decreases self.tokens@.len() - i,
                {
                    out.push(i);
                    i = i + 1;
                }
                assert(out@.len() == Seq::new(self.tokens@.len(), |i: int| i).len());
                assert forall|j: int| 0 <= j < out@.len() implies out@[j] as int == Seq::new(
                    self.tokens@.len(),
                    |i: int| i,
                )[j] by {}
                assert(same_indices(out@, Seq::new(self.tokens@.len(), |i: int| i)));
                out
            },
            Some(name) => {
                match self.find_theme(name.as_str()) {
                    None => out,
                    Some(t) => {
                        let entries = &self.themes[t].1.0;
                        let mut names: Vec<String> = Vec::new();
                        let mut pass: usize = 0;
                        while pass < 2
                            invariant
                                pass <= 2,
                                entries@ == self.themes@[t as int].1.0@,
                                names@ == if pass == 0 {
                                    seq![]
                                } else if pass == 1 {
                                    with_status(entries@, TokenSetStatus::Source)
                                } else {
                                    with_status(entries@, TokenSetStatus::Source) + with_status(
                                        entries@,
                                        TokenSetStatus::Enabled,
                                    )
                                },
                            decreases 2 - pass,
                        {
                            let st = if pass == 0 {
                                TokenSetStatus::Source
                            } else {
                                TokenSetStatus::Enabled
                            };
                            let ghost before = names@;
                            let mut k: usize = 0;
                            while k < entries.len()
                                invariant
                                    k <= entries@.len(),
                                    names@ == before + with_status(entries@.subrange(0, k as int), st),
                                decreases entries@.len() - k,
                            {
                                proof {
                                    assert(entries@.subrange(0, k + 1).drop_last() =~= entries@.subrange(
                                        0,
                                        k as int,
                                    ));
                                }
                                if entries[k].1 == st {
                                    names.push(entries[k].0.clone());
                                }
                                proof {
                                    assert(names@ =~= before + with_status(
                                        entries@.subrange(0, k + 1),
                                        st,
                                    ));
                                }
                                k = k + 1;
                            }
                            assert(entries@.subrange(0, entries@.len() as int) =~= entries@);
                            pass = pass + 1;
                        }
                        assert(names@.subrange(0, 0) =~= Seq::<String>::empty());
                        let mut i: usize = 0;
                        while i < names.len()
                            invariant
                                i <= names@.len(),
                                same_indices(out@, self.sets_members(names@.subrange(0, i as int))),
                                forall|j: int| 0 <= j < out@.len() ==> out@[j] < self.tokens@.len(),
                            decreases names@.len() - i,
                        {
                            proof {
                                assert(names@.subrange(0, i + 1).drop_last() =~= names@.subrange(
                                    0,
                                    i as int,
                                ));
                            }
                            self.push_set_members(
                                &names[i],
                                &mut out,
                                Ghost(self.sets_members(names@.subrange(0, i as int))),
                            );
                            i = i + 1;
                        }
                        assert(names@.subrange(0, names@.len() as int) =~= names@);
                        out
                    },
                }
            },
        }
    }

    /// The index of the first token active under `theme` whose name is `name`.
    pub fn lookup_name(&self, name: &str, theme: &Option<String>) -> (r: Option<usize>)
        ensures
            match r {
                Some(k) => self.lookup(name@, opt_text(*theme)) == Some(k as int) && k < self.tokens@.len(),
                None => self.lookup(name@, opt_text(*theme)) is None,
            },
    {
        let active = self.active_tokens(theme);
        let ghost s = self.active(opt_text(*theme));
        let mut i: usize = 0;
        while i < active.len()
            invariant
                i <= active@.len(),
                s == self.active(opt_text(*theme)),
                same_indices(active@, s),
                forall|j: int| 0 <= j < active@.len() ==> active@[j] < self.tokens@.len(),
                first_where(s.subrange(0, i as int), self.name_is(name@)) is None,
            decreases active@.len() - i,
        {
            proof {
                lemma_first_where_step(s, self.name_is(name@), i as int);
            }
            let k = active[i];
            let tname = self.tokens[k].name();
            if str_equals(tname.as_str(), name) {
                proof {
                    lemma_first_where_prefix(s, self.name_is(name@), i + 1);
                }
                return Some(k);
            }
            i = i + 1;
        }
        proof {
            lemma_first_where_none(s, self.name_is(name@));
        }
        None
    }
}

} // verus!
