//! `PATH` with the tools whose directories Vite+ has put on it: prepending a
//! directory, and the environment a child process gets. Splitting and
//! joining `PATH` follow the platform's conventions (`path_list`); the
//! component view of a path defined here is the Unix one (`/` separates).
use vstd::prelude::*;

use crate::path_list::{
    entry_fits, join_path_entries, join_paths, lemma_same_path_refl, lemma_split_entries_fit,
    law_split_join_round_trip, same_path, same_path_exec, split_path_list, split_paths, Platform,
};
use crate::pm::strs;
use crate::text::{
    chars_eq, chars_to_string, first_index_of, joined, lemma_first_index_of, lemma_joined_push,
    lemma_text_le_total, lemma_text_le_trans, push_all, push_str, str_chars, sub_chars, text_le,
    text_le_exec,
};

verus! {

// ---------------------------------------------------------------------------
// Splitting and comparing paths.
// ---------------------------------------------------------------------------

/// The pieces of `s` between the occurrences of `c` (`str::split`): one
/// empty piece for an empty text.
pub open spec fn split_on(s: Seq<char>, c: char) -> Seq<Seq<char>>
    decreases s.len(),
{
    match first_index_of(s, c) {
        Some(i) => if 0 <= i < s.len() {
            seq![s.take(i)] + split_on(s.skip(i + 1), c)
        } else {
            seq![s]
        },
        None => seq![s],
    }
}

pub fn split_chars(s: &[char], c: char) -> (res: Vec<Vec<char>>)
    ensures
        crate::text::views(res@) == split_on(s@, c),
{
    let mut out: Vec<Vec<char>> = Vec::new();
    let mut start: usize = 0;
    let mut i: usize = 0;
    proof {
        assert(s@.skip(0) =~= s@);
        assert(crate::text::views(out@) + split_on(s@, c) =~= split_on(s@, c));
    }
    while i < s.len()
        invariant
            start <= i <= s@.len(),
            forall|j: int| start <= j < i ==> s@[j] != c,
            crate::text::views(out@) + split_on(s@.skip(start as int), c) == split_on(s@, c),
        decreases s@.len() - i,
    {
        if s[i] == c {
            let piece = sub_chars(s, start, i);
            let ghost rest = s@.skip(start as int);
            proof {
                assert forall|j: int| 0 <= j < i - start implies rest[j] != c by {
                    assert(rest[j] == s@[start + j]);
                }
                assert(rest[i - start] == c);
                crate::text::lemma_first_index_unique(rest, c, i - start);
                assert(rest.take(i - start) =~= piece@);
                assert(rest.skip(i - start + 1) =~= s@.skip(i + 1));
            }
            let ghost before = out@;
            out.push(piece);
            proof {
                assert(crate::text::views(out@) =~= crate::text::views(before).push(piece@));
                assert(crate::text::views(out@) + split_on(s@.skip(i + 1), c) =~= crate::text::views(
                    before,
                ) + split_on(rest, c));
            }
            start = i + 1;
        }
        i += 1;
    }
    let piece = sub_chars(s, start, s.len());
    let ghost rest = s@.skip(start as int);
    proof {
        assert forall|j: int| 0 <= j < rest.len() implies rest[j] != c by {
            assert(rest[j] == s@[start + j]);
        }
        lemma_first_index_of(rest, c);
        assert(piece@ =~= rest);
    }
    let ghost before = out@;
    out.push(piece);
    proof {
        assert(crate::text::views(out@) =~= crate::text::views(before).push(piece@));
        assert(crate::text::views(out@) =~= crate::text::views(before) + split_on(rest, c));
    }
    out
}

/// The normal components among the pieces of a path: no empty piece and no
/// `.`.
pub open spec fn normal_parts(ps: Seq<Seq<char>>) -> Seq<Seq<char>>
    decreases ps.len(),
{
    if ps.len() == 0 {
        seq![]
    } else {
        let rest = normal_parts(ps.drop_last());
        if ps.last().len() == 0 || ps.last() == "."@ {
            rest
        } else {
            rest.push(ps.last())
        }
    }
}

/// The components of a path (`Path::components`): the root (written `/`)
/// or a leading current directory (written `.`), then the normal
/// components; repeated separators, a trailing separator and inner `.` are
/// normalized away.
pub open spec fn components(s: Seq<char>) -> Seq<Seq<char>> {
    (if s.len() > 0 && s[0] == '/' {
        seq!["/"@]
    } else if s.len() > 0 && s[0] == '.' && (s.len() == 1 || s[1] == '/') {
        seq!["."@]
    } else {
        seq![]
    }) + normal_parts(split_on(s, '/'))
}

proof fn lemma_normal_parts_keeps(ps: Seq<Seq<char>>, i: int)
    requires
        0 <= i < ps.len(),
        ps[i].len() > 0,
        ps[i] != "."@,
    ensures
        normal_parts(ps).len() > 0,
    decreases ps.len(),
{
    if i < ps.len() - 1 {
        lemma_normal_parts_keeps(ps.drop_last(), i);
    }
}

/// A non-empty path that does not start with `/` has a component.
pub proof fn lemma_components_nonempty(s: Seq<char>)
    requires
        s.len() > 0,
        s[0] != '/',
    ensures
        components(s).len() > 0,
{
    reveal_strlit(".");
    let ps = split_on(s, '/');
    lemma_first_index_of(s, '/');
    let first = match first_index_of(s, '/') {
        Some(i) => s.take(i),
        None => s,
    };
    assert(ps[0] == first);
    assert(first.len() > 0);
    assert(first[0] == s[0]);
    if first == "."@ {
        assert(s[0] == '.');
        assert(s.len() == 1 || s[1] == '/');
    } else {
        lemma_normal_parts_keeps(ps, 0);
    }
}

/// Path equality: the same components.
pub open spec fn path_eq(a: Seq<char>, b: Seq<char>) -> bool {
    components(a) == components(b)
}

fn normal_parts_exec(ps: &Vec<Vec<char>>) -> (res: Vec<Vec<char>>)
    ensures
        crate::text::views(res@) == normal_parts(crate::text::views(ps@)),
{
    let mut out: Vec<Vec<char>> = Vec::new();
    let dot = str_chars(".");
    let mut i: usize = 0;
    while i < ps.len()
        invariant
            i <= ps@.len(),
            dot@ == "."@,
            crate::text::views(out@) == normal_parts(crate::text::views(ps@).take(i as int)),
        decreases ps@.len() - i,
    {
        proof {
            assert(crate::text::views(ps@).take(i + 1).drop_last() =~= crate::text::views(ps@).take(
                i as int,
            ));
        }
        if !(ps[i].len() == 0 || chars_eq(ps[i].as_slice(), dot.as_slice())) {
            let ghost before = out@;
            let mut copy: Vec<char> = Vec::new();
            push_all(&mut copy, ps[i].as_slice());
            out.push(copy);
            proof {
                assert(crate::text::views(out@) =~= crate::text::views(before).push(ps@[i as int]@));
            }
        }
        i += 1;
    }
    proof {
        assert(crate::text::views(ps@).take(ps@.len() as int) =~= crate::text::views(ps@));
    }
    out
}

pub(crate) fn components_exec(s: &[char]) -> (res: Vec<Vec<char>>)
    ensures
        crate::text::views(res@) == components(s@),
{
    let mut out: Vec<Vec<char>> = Vec::new();
    if s.len() > 0 && s[0] == '/' {
        out.push(str_chars("/"));
    } else if s.len() > 0 && s[0] == '.' && (s.len() == 1 || s[1] == '/') {
        out.push(str_chars("."));
    }
    let head = out;
    let pieces = split_chars(s, '/');
    let parts = normal_parts_exec(&pieces);
    let mut out = head;
    let ghost h = crate::text::views(out@);
    let mut k: usize = 0;
    while k < parts.len()
        invariant
            k <= parts@.len(),
            crate::text::views(out@) == h + crate::text::views(parts@).take(k as int),
        decreases parts@.len() - k,
    {
        let ghost before = out@;
        let mut copy: Vec<char> = Vec::new();
        push_all(&mut copy, parts[k].as_slice());
        out.push(copy);
        proof {
            assert(crate::text::views(out@) =~= crate::text::views(before).push(parts@[k as int]@));
            assert(crate::text::views(parts@).take(k + 1) =~= crate::text::views(parts@).take(
                k as int,
            ).push(parts@[k as int]@));
        }
        k += 1;
    }
    proof {
        assert(crate::text::views(parts@).take(parts@.len() as int) =~= crate::text::views(parts@));
        assert(crate::text::views(out@) =~= components(s@));
    }
    out
}

/// Whether two paths are equal as paths (`Path == Path`).
pub fn paths_equal(a: &[char], b: &[char]) -> (res: bool)
    ensures
        res == path_eq(a@, b@),
{
    let ca = components_exec(a);
    let cb = components_exec(b);
    if ca.len() != cb.len() {
        proof {
            assert(crate::text::views(ca@).len() != crate::text::views(cb@).len());
        }
        return false;
    }
    let mut i: usize = 0;
    while i < ca.len()
        invariant
            i <= ca@.len() == cb@.len(),
            crate::text::views(ca@) == components(a@),
            crate::text::views(cb@) == components(b@),
            forall|j: int| 0 <= j < i ==> ca@[j]@ == cb@[j]@,
        decreases ca@.len() - i,
    {
        if !chars_eq(ca[i].as_slice(), cb[i].as_slice()) {
            proof {
                assert(crate::text::views(ca@)[i as int] == ca@[i as int]@);
                assert(crate::text::views(cb@)[i as int] == cb@[i as int]@);
                assert(crate::text::views(ca@)[i as int] != crate::text::views(cb@)[i as int]);
            }
            return false;
        }
        i += 1;
    }
    proof {
        assert(crate::text::views(ca@) =~= crate::text::views(cb@));
    }
    true
}

// ---------------------------------------------------------------------------
// The injected tools.
// ---------------------------------------------------------------------------

/// Options of prepending a directory to `PATH`.
#[derive(Debug, Clone, Copy)]
pub struct PrependOptions {
    /// Keep an existing directory's position instead of moving it to the
    /// front.
    pub dedupe_anywhere: bool,
}

impl Default for PrependOptions {
    fn default() -> (res: Self)
        ensures
            !res.dedupe_anywhere,
    {
        PrependOptions { dedupe_anywhere: false }
    }
}

pub open spec fn text_lt(a: Seq<char>, b: Seq<char>) -> bool {
    text_le(a, b) && a != b
}

/// Increasing without repetition.
pub open spec fn strictly_sorted(s: Seq<Seq<char>>) -> bool {
    forall|i: int, j: int| 0 <= i < j < s.len() ==> text_lt(s[i], s[j])
}

pub proof fn lemma_text_le_antisym(a: Seq<char>, b: Seq<char>)
    requires
        text_le(a, b),
        text_le(b, a),
    ensures
        a == b,
    decreases a.len(),
{
    if a.len() > 0 && b.len() > 0 {
        lemma_text_le_antisym(a.drop_first(), b.drop_first());
        assert(a =~= seq![a[0]] + a.drop_first());
        assert(b =~= seq![b[0]] + b.drop_first());
    }
}

proof fn lemma_sorted_first_is_least(s: Seq<Seq<char>>, x: Seq<char>)
    requires
        strictly_sorted(s),
        s.len() > 0,
        s.contains(x),
    ensures
        text_le(s[0], x),
{
    let j = choose|j: int| 0 <= j < s.len() && s[j] == x;
    if j > 0 {
        assert(text_lt(s[0], s[j]));
    } else {
        lemma_text_le_total(x, x);
    }
}

/// The increasing list without repetition of the texts of a set (when
/// there is one: for a finite set).
pub open spec fn sorted_list(set: Set<Seq<char>>) -> Seq<Seq<char>> {
    choose|s: Seq<Seq<char>>| strictly_sorted(s) && s.to_set() == set
}

/// There is one increasing list without repetition of a given set of
/// texts, so the rendered tool list is determined by the set of tools.
pub proof fn law_sorted_list_unique(s1: Seq<Seq<char>>, s2: Seq<Seq<char>>)
    requires
        strictly_sorted(s1),
        strictly_sorted(s2),
        s1.to_set() == s2.to_set(),
    ensures
        s1 == s2,
    decreases s1.len(),
{
    if s1.len() == 0 {
        if s2.len() > 0 {
            assert(s2.to_set().contains(s2[0]));
        }
        assert(s2.len() == 0);
        assert(s1 =~= s2);
    } else {
        assert(s1.to_set().contains(s1[0]));
        assert(s2.len() > 0);
        assert(s2.to_set().contains(s2[0]));
        assert(s1.contains(s2[0]));
        assert(s2.contains(s1[0]));
        lemma_sorted_first_is_least(s1, s2[0]);
        lemma_sorted_first_is_least(s2, s1[0]);
        lemma_text_le_antisym(s1[0], s2[0]);
        let t1 = s1.drop_first();
        let t2 = s2.drop_first();
        assert(strictly_sorted(t1)) by {
            assert forall|i: int, j: int| 0 <= i < j < t1.len() implies text_lt(t1[i], t1[j]) by {
                assert(t1[i] == s1[i + 1] && t1[j] == s1[j + 1]);
            }
        }
        assert(strictly_sorted(t2)) by {
            assert forall|i: int, j: int| 0 <= i < j < t2.len() implies text_lt(t2[i], t2[j]) by {
                assert(t2[i] == s2[i + 1] && t2[j] == s2[j + 1]);
            }
        }
        assert forall|x: Seq<char>| t1.to_set().contains(x) <==> t2.to_set().contains(x) by {
            if t1.to_set().contains(x) {
                let i = choose|i: int| 0 <= i < t1.len() && t1[i] == x;
                assert(s1[i + 1] == x);
                assert(text_lt(s1[0], s1[i + 1]));
                assert(s1.contains(x));
                assert(s2.to_set().contains(x));
                let j = choose|j: int| 0 <= j < s2.len() && s2[j] == x;
                assert(j != 0);
                assert(t2[j - 1] == x);
            }
            if t2.to_set().contains(x) {
                let i = choose|i: int| 0 <= i < t2.len() && t2[i] == x;
                assert(s2[i + 1] == x);
                assert(text_lt(s2[0], s2[i + 1]));
                assert(s2.contains(x));
                assert(s1.to_set().contains(x));
                let j = choose|j: int| 0 <= j < s1.len() && s1[j] == x;
                assert(j != 0);
                assert(t1[j - 1] == x);
            }
        }
        assert(t1.to_set() =~= t2.to_set());
        law_sorted_list_unique(t1, t2);
        assert(s1 =~= seq![s1[0]] + t1);
        assert(s2 =~= seq![s2[0]] + t2);
    }
}

/// The non-empty pieces of a comma-separated list.
pub open spec fn listed_tools(s: Seq<char>) -> Set<Seq<char>> {
    split_on(s, ',').to_set().filter(|t: Seq<char>| t.len() > 0)
}

/// `PATH` and the tools whose directories Vite+ has injected into it.
#[derive(Debug)]
pub struct ToolPathEnv {
    path: String,
    tools: Vec<String>,
}

/// Why `PATH` could not be formed: an entry holds the separator.
#[derive(Debug, Clone, Copy, PartialEq, Eq)]
pub struct JoinPathsError;

impl ToolPathEnv {
    #[verifier::type_invariant]
    spec fn sorted_tools(&self) -> bool {
        strictly_sorted(strs(self.tools@))
    }

    /// A copy of the environment.
    pub fn duplicate(&self) -> (res: Self)
        ensures
            res.path_of() == self.path_of(),
            res.tools_of() == self.tools_of(),
    {
        proof {
            use_type_invariant(self);
        }
        ToolPathEnv { path: self.path.clone(), tools: clone_tools(&self.tools) }
    }

    /// The `PATH` value.
    pub closed spec fn path_of(&self) -> Seq<char> {
        self.path@
    }

    /// The injected tools.
    pub closed spec fn tools_of(&self) -> Set<Seq<char>> {
        strs(self.tools@).to_set()
    }

    /// An environment from a `PATH` value and a comma-separated tool list
    /// (empty entries ignored).
    pub fn new(path: String, tools: &str) -> (res: Self)
        ensures
            res.path_of() == path@,
            res.tools_of() == listed_tools(tools@),
    {
        let pieces = split_chars(str_chars(tools).as_slice(), ',');
        let mut set: Vec<String> = Vec::new();
        let mut i: usize = 0;
        while i < pieces.len()
            invariant
                i <= pieces@.len(),
                strictly_sorted(strs(set@)),
                strs(set@).to_set() == crate::text::views(pieces@).take(i as int).to_set().filter(
                    |t: Seq<char>| t.len() > 0,
                ),
            decreases pieces@.len() - i,
        {
            let ghost before = strs(set@).to_set();
            proof {
                assert(crate::text::views(pieces@).take(i + 1) =~= crate::text::views(pieces@).take(
                    i as int,
                ).push(pieces@[i as int]@));
                crate::text::views(pieces@).take(i as int).lemma_push_to_set_commute(pieces@[i as int]@);
            }
            if pieces[i].len() > 0 {
                insert_tool(&mut set, chars_to_string(pieces[i].as_slice()));
                proof {
                    assert(strs(set@).to_set() =~= crate::text::views(pieces@).take(i + 1).to_set().filter(
                        |t: Seq<char>| t.len() > 0,
                    ));
                }
            } else {
                proof {
                    assert(strs(set@).to_set() =~= crate::text::views(pieces@).take(i + 1).to_set().filter(
                        |t: Seq<char>| t.len() > 0,
                    ));
                }
            }
            i += 1;
        }
        proof {
            assert(crate::text::views(pieces@).take(pieces@.len() as int) =~= crate::text::views(
                pieces@,
            ));
        }
        ToolPathEnv { path, tools: set }
    }

    /// Whether the tool has been injected.
    pub fn contains(&self, tool: &str) -> (res: bool)
        ensures
            res == self.tools_of().contains(tool@),
    {
        let t = String::from_str(tool);
        let mut i: usize = 0;
        while i < self.tools.len()
            invariant
                i <= self.tools@.len(),
                t@ == tool@,
                forall|j: int| 0 <= j < i ==> (#[trigger] self.tools@[j])@ != tool@,
            decreases self.tools@.len() - i,
        {
            if self.tools[i] == t {
                proof {
                    assert(strs(self.tools@)[i as int] == tool@);
                }
                return true;
            }
            i += 1;
        }
        proof {
            if strs(self.tools@).to_set().contains(tool@) {
                let j = choose|j: int| 0 <= j < strs(self.tools@).len() && strs(self.tools@)[j] == tool@;
                assert(self.tools@[j]@ == tool@);
            }
        }
        false
    }

    /// Puts `dir` at the front of `PATH` (removing its other entries), unless
    /// `dedupe_anywhere` is set and it is already on `PATH`, and records the
    /// tools it supplies. `PATH` is split and joined by the conventions of
    /// `platform`; nothing changes when the new entries cannot be joined,
    /// which happens exactly when `dir` cannot be an entry.
    pub fn prepend(
        &mut self,
        dir: &str,
        tools: &[&str],
        options: PrependOptions,
        platform: Platform,
    ) -> (res: Result<(), JoinPathsError>)
        ensures
            ({
                let parts = split_paths(platform, old(self).path_of());
                let moves = !options.dedupe_anywhere || !exists|i: int|
                    0 <= i < parts.len() && same_path(platform, #[trigger] parts[i], dir@);
                let added = old(self).tools_of() + tools@.map_values(|t: &str| t@).to_set();
                if !moves {
                    &&& res is Ok
                    &&& final(self).path_of() == old(self).path_of()
                    &&& final(self).tools_of() == added
                } else {
                    &&& (res is Err <==> !entry_fits(platform, dir@))
                    &&& match join_paths(platform, seq![dir@] + kept_entries(platform, parts, dir@)) {
                        Some(t) => {
                            &&& res is Ok
                            &&& final(self).path_of() == t
                            &&& final(self).tools_of() == added
                            &&& (platform == Platform::Unix || dir@.len() > 0) ==> split_paths(platform, t)
                                == seq![dir@] + kept_entries(platform, parts, dir@)
                        },
                        None => {
                            &&& res is Err
                            &&& final(self).path_of() == old(self).path_of()
                            &&& final(self).tools_of() == old(self).tools_of()
                        },
                    }
                }
            }),
    {
        proof {
            use_type_invariant(&*self);
        }
        let d = str_chars(dir);
        let pieces = split_path_list(platform, str_chars(self.path.as_str()).as_slice());
        let mut present = false;
        let mut i: usize = 0;
        while i < pieces.len()
            invariant
                i <= pieces@.len(),
                d@ == dir@,
                present == exists|j: int|
                    0 <= j < i && same_path(platform, #[trigger] crate::text::views(pieces@)[j], dir@),
            decreases pieces@.len() - i,
        {
            proof {
                assert(crate::text::views(pieces@)[i as int] == pieces@[i as int]@);
            }
            if same_path_exec(platform, pieces[i].as_slice(), d.as_slice()) {
                present = true;
            }
            i += 1;
        }
        let moves = !options.dedupe_anywhere || !present;
        if moves {
            let kept = kept_paths(platform, &pieces, &d);
            let mut entries: Vec<Vec<char>> = Vec::new();
            entries.push(d);
            push_entries(&mut entries, &kept);
            proof {
                assert(crate::text::views(entries@) =~= seq![dir@] + crate::text::views(kept@));
                lemma_kept_fit(platform, self.path@, dir@);
                let es = seq![dir@] + crate::text::views(kept@);
                if entry_fits(platform, dir@) {
                    assert forall|k: int| 0 <= k < es.len() implies entry_fits(platform, #[trigger] es[k]) by {
                        if k > 0 {
                            assert(es[k] == kept_entries(platform, crate::text::views(pieces@), dir@)[k - 1]);
                        }
                    }
                } else {
                    assert(!entry_fits(platform, es[0]));
                }
            }
            proof {
                if entry_fits(platform, dir@) && (platform == Platform::Unix || dir@.len() > 0) {
                    lemma_prepended_entries(platform, self.path@, dir@);
                }
            }
            match join_path_entries(platform, &entries) {
                Some(t) => {
                    self.path = chars_to_string(t.as_slice());
                },
                None => {
                    return Err(JoinPathsError);
                },
            }
        }
        let mut set = clone_tools(&self.tools);
        let ghost start = strs(set@).to_set();
        let ghost path_now = self.path@;
        let mut k: usize = 0;
        while k < tools.len()
            invariant
                k <= tools@.len(),
                self.path@ == path_now,
                strictly_sorted(strs(set@)),
                strs(set@).to_set() == start + tools@.take(k as int).map_values(|t: &str| t@).to_set(),
            decreases tools@.len() - k,
        {
            insert_tool(&mut set, String::from_str(tools[k]));
            proof {
                assert(tools@.take(k + 1).map_values(|t: &str| t@) =~= tools@.take(k as int).map_values(
                    |t: &str| t@,
                ).push(tools@[k as int]@));
                tools@.take(k as int).map_values(|t: &str| t@).lemma_push_to_set_commute(tools@[k as int]@);
                assert(strs(set@).to_set() =~= start + tools@.take(k + 1).map_values(|t: &str| t@).to_set());
            }
            k += 1;
        }
        proof {
            assert(tools@.take(tools@.len() as int) =~= tools@);
        }
        self.tools = set;
        Ok(())
    }

    /// The environment variables for a child process: `PATH`, and
    /// `VP_PATH_INJECTED_TOOLS` with the tools in order, comma-separated.
    pub fn into_envs(self) -> (res: [(&'static str, String); 2])
        ensures
            res@[0].0@ == "PATH"@,
            res@[0].1@ == self.path_of(),
            res@[1].0@ == "VP_PATH_INJECTED_TOOLS"@,
            exists|s: Seq<Seq<char>>|
                strictly_sorted(s) && s.to_set() == self.tools_of() && res@[1].1@ == joined(
                    s,
                    ","@,
                ),
            res@[1].1@ == joined(sorted_list(self.tools_of()), ","@),
    {
        proof {
            use_type_invariant(&self);
            let w = strs(self.tools@);
            assert(strictly_sorted(w) && w.to_set() == self.tools_of());
            let c = sorted_list(self.tools_of());
            law_sorted_list_unique(c, w);
        }
        let mut out: Vec<char> = Vec::new();
        let mut i: usize = 0;
        while i < self.tools.len()
            invariant
                i <= self.tools@.len(),
                out@ == joined(strs(self.tools@).take(i as int), ","@),
            decreases self.tools@.len() - i,
        {
            proof {
                assert(strs(self.tools@).take(i + 1) =~= strs(self.tools@).take(i as int).push(
                    self.tools@[i as int]@,
                ));
                lemma_joined_push(strs(self.tools@).take(i as int), ","@, self.tools@[i as int]@);
            }
            if i > 0 {
                push_str(&mut out, ",");
            }
            push_str(&mut out, self.tools[i].as_str());
            i += 1;
        }
        proof {
            assert(strs(self.tools@).take(self.tools@.len() as int) =~= strs(self.tools@));
        }
        [("PATH", self.path), ("VP_PATH_INJECTED_TOOLS", chars_to_string(out.as_slice()))]
    }
}

/// The entries of `PATH` other than `dir`, in order.
pub open spec fn kept_entries(p: Platform, parts: Seq<Seq<char>>, dir: Seq<char>) -> Seq<Seq<char>>
    decreases parts.len(),
{
    if parts.len() == 0 {
        seq![]
    } else {
        let rest = kept_entries(p, parts.drop_last(), dir);
        if same_path(p, parts.last(), dir) {
            rest
        } else {
            rest.push(parts.last())
        }
    }
}

fn kept_paths(p: Platform, pieces: &Vec<Vec<char>>, dir: &Vec<char>) -> (res: Vec<Vec<char>>)
    ensures
        crate::text::views(res@) == kept_entries(p, crate::text::views(pieces@), dir@),
{
    let ghost v = crate::text::views(pieces@);
    let mut out: Vec<Vec<char>> = Vec::new();
    let mut i: usize = 0;
    while i < pieces.len()
        invariant
            i <= pieces@.len(),
            v == crate::text::views(pieces@),
            crate::text::views(out@) == kept_entries(p, v.take(i as int), dir@),
        decreases pieces@.len() - i,
    {
        proof {
            assert(v.take(i + 1).drop_last() =~= v.take(i as int));
            assert(v.take(i + 1).last() == pieces@[i as int]@);
        }
        if !same_path_exec(p, pieces[i].as_slice(), dir.as_slice()) {
            let ghost before = out@;
            let mut copy: Vec<char> = Vec::new();
            push_all(&mut copy, pieces[i].as_slice());
            out.push(copy);
            proof {
                assert(crate::text::views(out@) =~= crate::text::views(before).push(pieces@[i as int]@));
            }
        }
        i += 1;
    }
    proof {
        assert(v.take(pieces@.len() as int) =~= v);
    }
    out
}

fn push_entries(out: &mut Vec<Vec<char>>, more: &Vec<Vec<char>>)
    ensures
        crate::text::views(final(out)@) == crate::text::views(old(out)@) + crate::text::views(more@),
{
    let ghost start = crate::text::views(out@);
    let mut i: usize = 0;
    while i < more.len()
        invariant
            i <= more@.len(),
            crate::text::views(out@) == start + crate::text::views(more@).take(i as int),
        decreases more@.len() - i,
    {
        let ghost before = out@;
        let mut copy: Vec<char> = Vec::new();
        push_all(&mut copy, more[i].as_slice());
        out.push(copy);
        proof {
            assert(crate::text::views(out@) =~= crate::text::views(before).push(more@[i as int]@));
            assert(crate::text::views(more@).take(i + 1) =~= crate::text::views(more@).take(i as int).push(
                more@[i as int]@,
            ));
        }
        i += 1;
    }
    proof {
        assert(crate::text::views(more@).take(more@.len() as int) =~= crate::text::views(more@));
    }
}

fn clone_tools(v: &Vec<String>) -> (res: Vec<String>)
    ensures
        res@ == v@,
{
    let mut out: Vec<String> = Vec::new();
    let mut i: usize = 0;
    while i < v.len()
        invariant
            i <= v@.len(),
            out@ == v@.take(i as int),
        decreases v@.len() - i,
    {
        out.push(v[i].clone());
        proof {
            assert(v@.take(i + 1) =~= v@.take(i as int).push(v@[i as int]));
        }
        i += 1;
    }
    proof {
        assert(v@.take(v@.len() as int) =~= v@);
    }
    out
}

/// Adds a tool to an increasing list, keeping it increasing.
fn insert_tool(set: &mut Vec<String>, tool: String)
    requires
        strictly_sorted(strs(old(set)@)),
    ensures
        strictly_sorted(strs(final(set)@)),
        strs(final(set)@).to_set() == strs(old(set)@).to_set().insert(tool@),
{
    let t = str_chars(tool.as_str());
    let mut pos: usize = 0;
    while pos < set.len() && !text_le_exec(t.as_slice(), str_chars(set[pos].as_str()).as_slice())
        invariant
            pos <= set@.len(),
            t@ == tool@,
            strictly_sorted(strs(set@)),
            forall|j: int| 0 <= j < pos ==> text_lt(set@[j]@, tool@),
        decreases set@.len() - pos,
    {
        proof {
            lemma_text_le_total(tool@, set@[pos as int]@);
        }
        pos += 1;
    }
    if pos < set.len() && set[pos] == tool {
        proof {
            assert(strs(set@)[pos as int] == tool@);
            assert(strs(set@).to_set() =~= strs(set@).to_set().insert(tool@));
        }
        return;
    }
    let ghost before = set@;
    set.insert(pos, tool);
    proof {
        assert(strs(set@) =~= strs(before).insert(pos as int, tool@));
        vstd::seq_lib::to_multiset_insert(strs(before), pos as int, tool@);
        let sb = strs(before);
        let ss = strs(set@);
        assert forall|i: int, j: int| 0 <= i < j < ss.len() implies text_lt(ss[i], ss[j]) by {
            if i < pos && j == pos {
                assert(ss[i] == sb[i]);
                assert(text_lt(before[i]@, tool@));
            } else if i == pos && j > pos {
                assert(ss[j] == sb[j - 1]);
                assert(sb[pos as int] == before[pos as int]@);
                assert(text_le(tool@, sb[pos as int]));
                assert(sb[pos as int] != tool@);
                if j - 1 > pos {
                    assert(text_lt(sb[pos as int], sb[j - 1]));
                    lemma_text_le_trans(tool@, sb[pos as int], sb[j - 1]);
                    if tool@ == sb[j - 1] {
                        lemma_text_le_antisym(tool@, sb[pos as int]);
                    }
                }
            } else if i < pos && j > pos {
                assert(ss[i] == sb[i]);
                assert(ss[j] == sb[j - 1]);
                assert(text_lt(sb[i], sb[j - 1]));
            } else if j < pos {
                assert(ss[i] == sb[i]);
                assert(ss[j] == sb[j]);
                assert(text_lt(sb[i], sb[j]));
            } else {
                assert(ss[i] == sb[i - 1]);
                assert(ss[j] == sb[j - 1]);
                assert(text_lt(sb[i - 1], sb[j - 1]));
            }
        }
        assert forall|x: Seq<char>| strs(set@).to_set().contains(x) <==> strs(before).to_set().insert(
            tool@,
        ).contains(x) by {
            if strs(set@).to_set().contains(x) {
                let k = choose|k: int| 0 <= k < strs(set@).len() && strs(set@)[k] == x;
                if k < pos {
                    assert(strs(before)[k] == x);
                } else if k > pos {
                    assert(strs(before)[k - 1] == x);
                }
            }
            if strs(before).to_set().contains(x) {
                let k = choose|k: int| 0 <= k < strs(before).len() && strs(before)[k] == x;
                if k < pos {
                    assert(strs(set@)[k] == x);
                } else {
                    assert(strs(set@)[k + 1] == x);
                }
            }
            if x == tool@ {
                assert(strs(set@)[pos as int] == x);
            }
        }
        assert(strs(set@).to_set() =~= strs(before).to_set().insert(tool@));
    }
}

// ---------------------------------------------------------------------------
// Prepending a directory twice.
// ---------------------------------------------------------------------------

proof fn lemma_kept_are_other_entries(p: Platform, parts: Seq<Seq<char>>, dir: Seq<char>)
    ensures
        forall|k: int|
            0 <= k < kept_entries(p, parts, dir).len() ==> !same_path(
                p,
                #[trigger] kept_entries(p, parts, dir)[k],
                dir,
            ) && parts.contains(kept_entries(p, parts, dir)[k]),
    decreases parts.len(),
{
    if parts.len() > 0 {
        lemma_kept_are_other_entries(p, parts.drop_last(), dir);
        let rest = kept_entries(p, parts.drop_last(), dir);
        assert forall|k: int| 0 <= k < kept_entries(p, parts, dir).len() implies !same_path(
            p,
            #[trigger] kept_entries(p, parts, dir)[k],
            dir,
        ) && parts.contains(kept_entries(p, parts, dir)[k]) by {
            if k < rest.len() {
                assert(kept_entries(p, parts, dir)[k] == rest[k]);
                let j = choose|j: int| 0 <= j < parts.drop_last().len() && parts.drop_last()[j] == rest[k];
                assert(parts[j] == rest[k]);
            } else {
                assert(parts[parts.len() - 1] == parts.last());
            }
        }
    }
}

/// The entries that stay on `PATH` beside `dir` can all be joined.
proof fn lemma_kept_fit(p: Platform, path: Seq<char>, dir: Seq<char>)
    ensures
        forall|k: int|
            0 <= k < kept_entries(p, split_paths(p, path), dir).len() ==> entry_fits(
                p,
                #[trigger] kept_entries(p, split_paths(p, path), dir)[k],
            ),
{
    let parts = split_paths(p, path);
    lemma_split_entries_fit(p, path);
    lemma_kept_are_other_entries(p, parts, dir);
    assert forall|k: int| 0 <= k < kept_entries(p, parts, dir).len() implies entry_fits(
        p,
        #[trigger] kept_entries(p, parts, dir)[k],
    ) by {
        let j = choose|j: int| 0 <= j < parts.len() && parts[j] == kept_entries(p, parts, dir)[k];
        assert(entry_fits(p, parts[j]));
    }
}

proof fn lemma_kept_after_dir(p: Platform, q: Seq<Seq<char>>, dir: Seq<char>)
    requires
        forall|k: int| 0 <= k < q.len() ==> !same_path(p, #[trigger] q[k], dir),
    ensures
        kept_entries(p, seq![dir] + q, dir) == q,
    decreases q.len(),
{
    lemma_same_path_refl(p, dir);
    if q.len() == 0 {
        assert(seq![dir].drop_last() =~= Seq::<Seq<char>>::empty());
        assert(kept_entries(p, Seq::<Seq<char>>::empty(), dir) == Seq::<Seq<char>>::empty());
        assert((seq![dir] + q) =~= seq![dir]);
        assert(kept_entries(p, seq![dir], dir) == Seq::<Seq<char>>::empty());
    } else {
        lemma_kept_after_dir(p, q.drop_last(), dir);
        assert((seq![dir] + q).drop_last() =~= seq![dir] + q.drop_last());
        assert((seq![dir] + q).last() == q.last());
        assert(!same_path(p, q[q.len() - 1], dir));
        assert(q.drop_last().push(q.last()) =~= q);
    }
}

/// The `PATH` that prepending `dir` makes can be formed, and its entries
/// are `dir`, then the other entries in their order.
pub proof fn lemma_prepended_entries(p: Platform, path: Seq<char>, dir: Seq<char>)
    requires
        entry_fits(p, dir),
        p == Platform::Windows ==> dir.len() > 0,
    ensures
        join_paths(p, seq![dir] + kept_entries(p, split_paths(p, path), dir)) is Some,
        split_paths(p, join_paths(p, seq![dir] + kept_entries(p, split_paths(p, path), dir)).unwrap())
            == seq![dir] + kept_entries(p, split_paths(p, path), dir),
{
    let kept = kept_entries(p, split_paths(p, path), dir);
    let entries = seq![dir] + kept;
    lemma_kept_fit(p, path, dir);
    assert forall|k: int| 0 <= k < entries.len() implies entry_fits(p, #[trigger] entries[k]) by {
        if k > 0 {
            assert(entries[k] == kept[k - 1]);
        }
    }
    law_split_join_round_trip(p, entries);
}

/// Prepending the same directory a second time leaves `PATH` as the first
/// time made it: the directory stays in front, once, and the other entries
/// keep their order.
pub proof fn law_prepend_twice_is_prepend_once(p: Platform, path: Seq<char>, dir: Seq<char>)
    requires
        entry_fits(p, dir),
        p == Platform::Windows ==> dir.len() > 0,
    ensures
        ({
            let once = join_paths(p, seq![dir] + kept_entries(p, split_paths(p, path), dir));
            &&& once is Some
            &&& join_paths(p, seq![dir] + kept_entries(p, split_paths(p, once.unwrap()), dir)) == once
        }),
{
    let parts = split_paths(p, path);
    let kept = kept_entries(p, parts, dir);
    lemma_prepended_entries(p, path, dir);
    lemma_kept_are_other_entries(p, parts, dir);
    lemma_kept_after_dir(p, kept, dir);
}

} // verus!
