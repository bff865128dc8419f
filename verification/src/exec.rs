//! `vp exec` across workspace packages: the order in which the selected
//! packages run, and what the run decides around the processes it starts.
//! Packages are numbered; an edge `(a, b)` says that `a` depends on `b`.
use vstd::prelude::*;

use crate::path_list::{join_path_entries, join_paths, Platform};
use crate::pm::strs;
use crate::text::{chars_to_string, joined, lemma_joined_push, push_str, str_chars};

verus! {

// ---------------------------------------------------------------------------
// Dependency graphs.
// ---------------------------------------------------------------------------

/// Each step of `p` follows an edge.
pub open spec fn is_walk(edges: Seq<(u32, u32)>, p: Seq<u32>) -> bool {
    forall|k: int| 0 <= k < p.len() - 1 ==> edges.contains((#[trigger] p[k], p[k + 1]))
}

/// `b` can be reached from `a` (in zero or more steps).
pub open spec fn reaches(edges: Seq<(u32, u32)>, a: u32, b: u32) -> bool {
    exists|p: Seq<u32>| #[trigger] is_walk(edges, p) && p.len() >= 1 && p[0] == a && p.last() == b
}

/// `a` and `b` lie in one strongly connected component.
pub open spec fn mutually_reachable(edges: Seq<(u32, u32)>, a: u32, b: u32) -> bool {
    reaches(edges, a, b) && reaches(edges, b, a)
}

/// Some walk of at least one step comes back to where it started (a
/// self-loop counts).
pub open spec fn has_cycle(edges: Seq<(u32, u32)>) -> bool {
    exists|p: Seq<u32>| #[trigger] is_walk(edges, p) && p.len() >= 2 && p[0] == p.last()
}

/// `x` comes before `y` in `s`.
pub open spec fn precedes(s: Seq<u32>, x: u32, y: u32) -> bool {
    exists|i: int, j: int| 0 <= i < j < s.len() && #[trigger] s[i] == x && #[trigger] s[j] == y
}

/// `s` holds the nodes of `t`, each once.
pub open spec fn same_items(s: Seq<u32>, t: Seq<u32>) -> bool {
    &&& s.len() == t.len()
    &&& s.no_duplicates()
    &&& forall|x: u32| s.contains(x) <==> t.contains(x)
}

/// Distinct nodes, and edges between them.
pub open spec fn graph_ok(nodes: Seq<u32>, edges: Seq<(u32, u32)>) -> bool {
    &&& nodes.no_duplicates()
    &&& forall|k: int|
        0 <= k < edges.len() ==> nodes.contains(#[trigger] edges[k].0) && nodes.contains(edges[k].1)
}

pub open spec fn components(res: Seq<Vec<u32>>) -> Seq<Seq<u32>> {
    res.map_values(|c: Vec<u32>| c@)
}

/// `petgraph::algo::toposort` on the graph with these nodes and edges
/// (added in order to a `DiGraphMap`): per its documentation, all nodes,
/// each before its successors; `None` when the graph has a cycle.
#[verifier::external_body]
fn toposort(nodes: &[u32], edges: &[(u32, u32)]) -> (res: Option<Vec<u32>>)
    requires
        graph_ok(nodes@, edges@),
    ensures
        match res {
            Some(o) => same_items(o@, nodes@) && forall|k: int|
                0 <= k < edges@.len() ==> precedes(o@, #[trigger] edges@[k].0, edges@[k].1),
            None => has_cycle(edges@),
        },
{
    let mut graph = petgraph::graphmap::DiGraphMap::<u32, ()>::new();
    for n in nodes {
        graph.add_node(*n);
    }
    for (a, b) in edges {
        graph.add_edge(*a, *b, ());
    }
    petgraph::algo::toposort(&graph, None).ok()
}

/// `petgraph::algo::tarjan_scc` on the graph with these nodes and edges:
/// per its documentation, the strongly connected components (each node in
/// exactly one, none empty), in reverse topological order — an edge between
/// two components goes from a later one to an earlier one.
#[verifier::external_body]
fn strongly_connected_components(nodes: &[u32], edges: &[(u32, u32)]) -> (res: Vec<Vec<u32>>)
    requires
        graph_ok(nodes@, edges@),
    ensures
        same_items(components(res@).flatten(), nodes@),
        forall|i: int| 0 <= i < res@.len() ==> (#[trigger] res@[i])@.len() > 0,
        forall|i: int, x: u32, y: u32|
            0 <= i < res@.len() && #[trigger] res@[i]@.contains(x) && #[trigger] res@[i]@.contains(y)
                ==> mutually_reachable(edges@, x, y),
        forall|i: int, j: int, x: u32, y: u32|
            0 <= i < res@.len() && 0 <= j < res@.len() && i != j && #[trigger] res@[i]@.contains(x)
                && #[trigger] res@[j]@.contains(y) ==> !mutually_reachable(edges@, x, y),
        forall|k: int, i: int, j: int|
            0 <= k < edges@.len() && 0 <= i < res@.len() && 0 <= j < res@.len() && i != j
                && #[trigger] res@[i]@.contains(edges@[k].0) && #[trigger] res@[j]@.contains(
                edges@[k].1,
            ) ==> j < i,
{
    let mut graph = petgraph::graphmap::DiGraphMap::<u32, ()>::new();
    for n in nodes {
        graph.add_node(*n);
    }
    for (a, b) in edges {
        graph.add_edge(*a, *b, ());
    }
    petgraph::algo::tarjan_scc(&graph)
}

proof fn lemma_flatten_append(a: Seq<Seq<u32>>, b: Seq<Seq<u32>>)
    ensures
        (a + b).flatten() == a.flatten() + b.flatten(),
    decreases a.len(),
{
    if a.len() == 0 {
        assert(a + b =~= b);
        assert(a.flatten() + b.flatten() =~= b.flatten());
    } else {
        assert((a + b).drop_first() =~= a.drop_first() + b);
        lemma_flatten_append(a.drop_first(), b);
        assert((a + b).first() == a.first());
        assert(a.first() + (a.drop_first().flatten() + b.flatten()) =~= (a.first()
            + a.drop_first().flatten()) + b.flatten());
    }
}

/// The element at `p` of component `i` sits at `start(c, i) + p` of the
/// flattened sequence.
pub open spec fn start(c: Seq<Seq<u32>>, i: int) -> int {
    c.take(i).flatten().len() as int
}

proof fn lemma_flatten_at(c: Seq<Seq<u32>>, i: int, p: int)
    requires
        0 <= i < c.len(),
        0 <= p < c[i].len(),
    ensures
        start(c, i) + p < c.flatten().len(),
        c.flatten()[start(c, i) + p] == c[i][p],
{
    assert(c =~= c.take(i) + (seq![c[i]] + c.skip(i + 1)));
    lemma_flatten_append(c.take(i), seq![c[i]] + c.skip(i + 1));
    lemma_flatten_append(seq![c[i]], c.skip(i + 1));
    seq![c[i]].lemma_flatten_one_element();
}

proof fn lemma_start_monotone(c: Seq<Seq<u32>>, j: int, i: int)
    requires
        0 <= j < i <= c.len(),
    ensures
        start(c, j) + c[j].len() <= start(c, i),
{
    assert(c.take(i) =~= c.take(j) + (seq![c[j]] + c.take(i).skip(j + 1)));
    lemma_flatten_append(c.take(j), seq![c[j]] + c.take(i).skip(j + 1));
    lemma_flatten_append(seq![c[j]], c.take(i).skip(j + 1));
    seq![c[j]].lemma_flatten_one_element();
}

proof fn lemma_flatten_member(c: Seq<Seq<u32>>, x: u32)
    requires
        c.flatten().contains(x),
    ensures
        exists|i: int| 0 <= i < c.len() && #[trigger] c[i].contains(x),
    decreases c.len(),
{
    if c.len() > 0 {
        let f = c.flatten();
        let k = choose|k: int| 0 <= k < f.len() && f[k] == x;
        if k < c.first().len() {
            assert(c[0][k] == x);
            assert(c[0].contains(x));
        } else {
            assert(c.drop_first().flatten()[k - c.first().len()] == x);
            lemma_flatten_member(c.drop_first(), x);
            let i = choose|i: int| 0 <= i < c.drop_first().len() && #[trigger] c.drop_first()[i].contains(x);
            assert(c[i + 1] == c.drop_first()[i]);
        }
    }
}

fn reversed(v: &Vec<u32>) -> (res: Vec<u32>)
    ensures
        res@.len() == v@.len(),
        forall|i: int| 0 <= i < v@.len() ==> #[trigger] res@[i] == v@[v@.len() - 1 - i],
{
    let mut out: Vec<u32> = Vec::new();
    let mut k: usize = v.len();
    while k > 0
        invariant
            k <= v@.len(),
            out@.len() == v@.len() - k,
            forall|i: int| 0 <= i < out@.len() ==> #[trigger] out@[i] == v@[v@.len() - 1 - i],
        decreases k,
    {
        k -= 1;
        out.push(v[k]);
    }
    out
}

fn flattened(comps: &Vec<Vec<u32>>) -> (res: Vec<u32>)
    ensures
        res@ == components(comps@).flatten(),
{
    let mut out: Vec<u32> = Vec::new();
    let mut i: usize = 0;
    while i < comps.len()
        invariant
            i <= comps@.len(),
            out@ == components(comps@).take(i as int).flatten(),
        decreases comps@.len() - i,
    {
        let ghost before = components(comps@).take(i as int);
        let mut k: usize = 0;
        let ghost start = out@;
        while k < comps[i].len()
            invariant
                i < comps@.len(),
                k <= comps@[i as int]@.len(),
                out@ == start + comps@[i as int]@.take(k as int),
            decreases comps@[i as int]@.len() - k,
        {
            out.push(comps[i][k]);
            proof {
                assert(comps@[i as int]@.take(k + 1) =~= comps@[i as int]@.take(k as int).push(
                    comps@[i as int]@[k as int],
                ));
            }
            k += 1;
        }
        proof {
            assert(comps@[i as int]@.take(k as int) =~= comps@[i as int]@);
            assert(components(comps@).take(i + 1) =~= before.push(comps@[i as int]@));
            before.lemma_flatten_push(comps@[i as int]@);
        }
        i += 1;
    }
    proof {
        assert(components(comps@).take(comps@.len() as int) =~= components(comps@));
    }
    out
}

/// The selected packages in dependency order, dependencies first: the
/// reversed topological order, or, when there is a cycle, the strongly
/// connected components in reverse topological order (the order inside a
/// cycle is arbitrary).
pub fn topological_sort_packages(nodes: &[u32], edges: &[(u32, u32)]) -> (res: Vec<u32>)
    requires
        graph_ok(nodes@, edges@),
    ensures
        same_items(res@, nodes@),
        forall|k: int|
            0 <= k < edges@.len() && !mutually_reachable(edges@, #[trigger] edges@[k].0, edges@[k].1)
                ==> precedes(res@, edges@[k].1, edges@[k].0),
        !has_cycle(edges@) ==> forall|k: int|
            0 <= k < edges@.len() ==> precedes(res@, #[trigger] edges@[k].1, edges@[k].0),
{
    match toposort(nodes, edges) {
        Some(order) => {
            let res = reversed(&order);
            proof {
                let n = order@.len();
                assert forall|x: u32| res@.contains(x) <==> order@.contains(x) by {
                    if res@.contains(x) {
                        let i = choose|i: int| 0 <= i < res@.len() && res@[i] == x;
                        assert(order@[n - 1 - i] == x);
                    }
                    if order@.contains(x) {
                        let i = choose|i: int| 0 <= i < n && order@[i] == x;
                        assert(res@[n - 1 - i] == x);
                    }
                }
                assert forall|i: int, j: int| 0 <= i < res@.len() && 0 <= j < res@.len() && i != j
                    implies res@[i] != res@[j] by {
                    assert(res@[i] == order@[n - 1 - i]);
                    assert(res@[j] == order@[n - 1 - j]);
                }
                assert forall|k: int| 0 <= k < edges@.len() implies precedes(
                    res@,
                    #[trigger] edges@[k].1,
                    edges@[k].0,
                ) by {
                    assert(precedes(order@, edges@[k].0, edges@[k].1));
                    let (i, j) = choose|i: int, j: int|
                        0 <= i < j < order@.len() && #[trigger] order@[i] == edges@[k].0
                            && #[trigger] order@[j] == edges@[k].1;
                    assert(res@[n - 1 - j] == edges@[k].1);
                    assert(res@[n - 1 - i] == edges@[k].0);
                }
            }
            res
        },
        None => {
            let comps = strongly_connected_components(nodes, edges);
            let res = flattened(&comps);
            proof {
                let c = components(comps@);
                assert forall|k: int|
                    0 <= k < edges@.len() && !mutually_reachable(
                        edges@,
                        #[trigger] edges@[k].0,
                        edges@[k].1,
                    ) implies precedes(res@, edges@[k].1, edges@[k].0) by {
                    let a = edges@[k].0;
                    let b = edges@[k].1;
                    assert(nodes@.contains(a) && nodes@.contains(b));
                    lemma_flatten_member(c, a);
                    lemma_flatten_member(c, b);
                    let i = choose|i: int| 0 <= i < c.len() && #[trigger] c[i].contains(a);
                    let j = choose|j: int| 0 <= j < c.len() && #[trigger] c[j].contains(b);
                    assert(c[i] == comps@[i]@);
                    assert(c[j] == comps@[j]@);
                    if i == j {
                        assert(comps@[i]@.contains(a) && comps@[i]@.contains(b));
                    }
                    assert(comps@[i]@.contains(edges@[k].0));
                    assert(comps@[j]@.contains(edges@[k].1));
                    assert(j < i);
                    let q = choose|q: int| 0 <= q < c[i].len() && c[i][q] == a;
                    let p = choose|p: int| 0 <= p < c[j].len() && c[j][p] == b;
                    lemma_flatten_at(c, i, q);
                    lemma_flatten_at(c, j, p);
                    lemma_start_monotone(c, j, i);
                    assert(res@[start(c, j) + p] == b);
                    assert(res@[start(c, i) + q] == a);
                }
            }
            res
        },
    }
}

// ---------------------------------------------------------------------------
// Before the run.
// ---------------------------------------------------------------------------

/// `values` joined with `sep`.
pub fn join_with(values: &[String], sep: &str) -> (res: Vec<char>)
    ensures
        res@ == joined(strs(values@), sep@),
{
    let mut out: Vec<char> = Vec::new();
    let mut i: usize = 0;
    while i < values.len()
        invariant
            i <= values@.len(),
            out@ == joined(strs(values@).take(i as int), sep@),
        decreases values@.len() - i,
    {
        proof {
            assert(strs(values@).take(i + 1) =~= strs(values@).take(i as int).push(values@[i as int]@));
            lemma_joined_push(strs(values@).take(i as int), sep@, values@[i as int]@);
        }
        if i > 0 {
            push_str(&mut out, sep);
        }
        push_str(&mut out, values[i].as_str());
        i += 1;
    }
    proof {
        assert(strs(values@).take(values@.len() as int) =~= strs(values@));
    }
    out
}

pub open spec fn usage_text() -> Seq<char> {
    "'vp exec' requires a command to run\n\nUsage: vp exec [--] <command> [args...]\n\nExamples:\n  vp exec node --version\n  vp exec tsc --noEmit"@
}

/// The error of `vp exec` without a command (with its usage), if the
/// command is empty.
pub fn exec_usage_error(command: &[String]) -> (res: Option<&'static str>)
    ensures
        match res {
            Some(m) => command@.len() == 0 && m@ == usage_text(),
            None => command@.len() > 0,
        },
{
    if command.len() == 0 {
        Some(
            "'vp exec' requires a command to run\n\nUsage: vp exec [--] <command> [args...]\n\nExamples:\n  vp exec node --version\n  vp exec tsc --noEmit",
        )
    } else {
        None
    }
}

/// What the unmatched package filters lead to: an error (when a match is
/// required), or one warning per filter.
#[derive(Debug)]
pub enum FilterReport {
    Fail(String),
    Warn(Vec<String>),
}

pub open spec fn fail_text(unmatched: Seq<Seq<char>>) -> Seq<char> {
    "No packages matched the filter: "@ + joined(unmatched, ", "@)
}

pub open spec fn warn_text(selector: Seq<char>) -> Seq<char> {
    "No packages matched the filter '"@ + selector + "'"@
}

pub fn unmatched_filter_report(fail_if_no_match: bool, unmatched: &[String]) -> (res: FilterReport)
    ensures
        match res {
            FilterReport::Fail(m) => fail_if_no_match && unmatched@.len() > 0 && m@ == fail_text(
                strs(unmatched@),
            ),
            FilterReport::Warn(w) => !(fail_if_no_match && unmatched@.len() > 0) && strs(w@)
                == strs(unmatched@).map_values(|s: Seq<char>| warn_text(s)),
        },
{
    if fail_if_no_match && unmatched.len() > 0 {
        let mut m = str_chars("No packages matched the filter: ");
        let list = join_with(unmatched, ", ");
        let ghost head = m@;
        let mut k: usize = 0;
        while k < list.len()
            invariant
                k <= list@.len(),
                m@ == head + list@.take(k as int),
            decreases list@.len() - k,
        {
            m.push(list[k]);
            proof {
                assert(list@.take(k + 1) =~= list@.take(k as int).push(list@[k as int]));
            }
            k += 1;
        }
        proof {
            assert(list@.take(list@.len() as int) =~= list@);
        }
        return FilterReport::Fail(chars_to_string(m.as_slice()));
    }
    let mut w: Vec<String> = Vec::new();
    let mut i: usize = 0;
    while i < unmatched.len()
        invariant
            i <= unmatched@.len(),
            strs(w@) == strs(unmatched@).take(i as int).map_values(|s: Seq<char>| warn_text(s)),
        decreases unmatched@.len() - i,
    {
        let mut m = str_chars("No packages matched the filter '");
        push_str(&mut m, unmatched[i].as_str());
        push_str(&mut m, "'");
        let ghost before = w@;
        w.push(chars_to_string(m.as_slice()));
        proof {
            assert(strs(w@) =~= strs(before).push(warn_text(unmatched@[i as int]@)));
            assert(strs(unmatched@).take(i + 1) =~= strs(unmatched@).take(i as int).push(
                unmatched@[i as int]@,
            ));
            assert(strs(w@) =~= strs(unmatched@).take(i + 1).map_values(|s: Seq<char>| warn_text(s)));
        }
        i += 1;
    }
    proof {
        assert(strs(unmatched@).take(unmatched@.len() as int) =~= strs(unmatched@));
    }
    FilterReport::Warn(w)
}

/// A selected package: its number and name.
pub open spec fn named(s: Seq<(u32, String)>) -> Seq<(u32, Seq<char>)> {
    s.map_values(|p: (u32, String)| (p.0, p.1@))
}

/// The sorted selection, reversed for `--reverse`.
pub open spec fn run_order(sorted: Seq<(u32, Seq<char>)>, reverse: bool) -> Seq<(u32, Seq<char>)> {
    if reverse {
        sorted.reverse()
    } else {
        sorted
    }
}

/// How a `vp exec` run starts.
#[derive(Debug)]
pub enum ExecStart {
    /// Run the packages in this order; prefix each package's output when
    /// more than one runs; run in the caller's directory when no package
    /// flag was given.
    Run { order: Vec<(u32, String)>, show_prefix: bool, use_caller_cwd: bool },
    /// Nothing selected: a warning, and success.
    NothingSelected,
    /// The `--resume-from` package is not among the selected ones.
    Stop(String),
}

pub open spec fn not_found_text(name: Seq<char>) -> Seq<char> {
    "Package '"@ + name + "' not found in selected packages"@
}

fn reverse_named(sorted: Vec<(u32, String)>) -> (res: Vec<(u32, String)>)
    ensures
        named(res@) == named(sorted@).reverse(),
{
    let mut out: Vec<(u32, String)> = Vec::new();
    let mut k: usize = sorted.len();
    while k > 0
        invariant
            k <= sorted@.len(),
            named(out@) == named(sorted@).reverse().take(sorted@.len() - k),
        decreases k,
    {
        k -= 1;
        let ghost before = out@;
        out.push((sorted[k].0, sorted[k].1.clone()));
        proof {
            assert(named(out@) =~= named(before).push(named(sorted@)[k as int]));
            assert(named(sorted@).reverse().take(sorted@.len() - k) =~= named(sorted@).reverse().take(
                sorted@.len() - k - 1,
            ).push(named(sorted@)[k as int]));
        }
    }
    proof {
        assert(named(sorted@).reverse().take(sorted@.len() as int) =~= named(sorted@).reverse());
    }
    out
}

/// The first position of a package with this name.
fn position_named(order: &Vec<(u32, String)>, name: &str) -> (res: Option<usize>)
    ensures
        match res {
            Some(i) => i < order@.len() && named(order@)[i as int].1 == name@ && forall|j: int|
                0 <= j < i ==> (#[trigger] named(order@)[j]).1 != name@,
            None => forall|j: int| 0 <= j < order@.len() ==> (#[trigger] named(order@)[j]).1 != name@,
        },
{
    let target = String::from_str(name);
    let mut i: usize = 0;
    while i < order.len() && order[i].1 != target
        invariant
            i <= order@.len(),
            target@ == name@,
            forall|j: int| 0 <= j < i ==> (#[trigger] named(order@)[j]).1 != name@,
        decreases order@.len() - i,
    {
        proof {
            assert(named(order@)[i as int].1 == order@[i as int].1@);
        }
        i += 1;
    }
    if i < order.len() {
        proof {
            assert(named(order@)[i as int].1 == order@[i as int].1@);
        }
        Some(i)
    } else {
        None
    }
}

fn suffix_from(order: &Vec<(u32, String)>, from: usize) -> (res: Vec<(u32, String)>)
    requires
        from <= order@.len(),
    ensures
        named(res@) == named(order@).skip(from as int),
{
    let ghost o = named(order@);
    let mut rest: Vec<(u32, String)> = Vec::new();
    let mut k: usize = from;
    while k < order.len()
        invariant
            from <= k <= order@.len(),
            o == named(order@),
            named(rest@) == o.subrange(from as int, k as int),
        decreases order@.len() - k,
    {
        let ghost before = rest@;
        rest.push((order[k].0, order[k].1.clone()));
        proof {
            assert(named(rest@) =~= named(before).push(o[k as int]));
            assert(o.subrange(from as int, k + 1) =~= o.subrange(from as int, k as int).push(o[k as int]));
        }
        k += 1;
    }
    proof {
        assert(o.subrange(from as int, o.len() as int) =~= o.skip(from as int));
    }
    rest
}

/// Orders the selected packages (`--reverse`), starts at the first one
/// named by `--resume-from`, and decides the layout of the run.
pub fn plan_exec(sorted: Vec<(u32, String)>, reverse: bool, resume_from: Option<&str>, is_cwd_only: bool) -> (res:
    ExecStart)
    ensures
        ({
            let o = run_order(named(sorted@), reverse);
            match res {
                ExecStart::Stop(m) => resume_from matches Some(r) && m@ == not_found_text(r@) && forall|
                    j: int,
                | 0 <= j < o.len() ==> (#[trigger] o[j]).1 != r@,
                ExecStart::NothingSelected => exists|i: int|
                    0 <= i <= o.len() && o.skip(i).len() == 0 && match resume_from {
                        None => i == 0,
                        Some(r) => i < o.len() && o[i].1 == r@,
                    },
                ExecStart::Run { order, show_prefix, use_caller_cwd } => exists|i: int|
                    0 <= i < o.len() && named(order@) == o.skip(i) && match resume_from {
                        None => i == 0,
                        Some(r) => o[i].1 == r@ && forall|j: int| 0 <= j < i ==> (#[trigger] o[j]).1 != r@,
                    } && show_prefix == (order@.len() != 1) && use_caller_cwd == is_cwd_only,
            }
        }),
{
    let order = if reverse {
        reverse_named(sorted)
    } else {
        sorted
    };
    let ghost o = named(order@);
    proof {
        assert(o == run_order(named(sorted@), reverse));
    }
    let from: usize = match resume_from {
        None => 0,
        Some(r) => match position_named(&order, r) {
            Some(i) => i,
            None => {
                let mut m = str_chars("Package '");
                push_str(&mut m, r);
                push_str(&mut m, "' not found in selected packages");
                return ExecStart::Stop(chars_to_string(m.as_slice()));
            },
        },
    };
    let rest = suffix_from(&order, from);
    if rest.len() == 0 {
        proof {
            assert(o.skip(from as int).len() == 0);
            assert(0 <= from <= o.len() && o.skip(from as int).len() == 0 && match resume_from {
                None => from == 0,
                Some(r) => from < o.len() && o[from as int].1 == r@,
            });
        }
        return ExecStart::NothingSelected;
    }
    let n = rest.len();
    proof {
        assert(named(rest@).len() == rest@.len());
        assert(0 <= from < o.len() && named(rest@) == o.skip(from as int) && match resume_from {
            None => from == 0,
            Some(r) => o[from as int].1 == r@ && forall|j: int| 0 <= j < from ==> (#[trigger] o[j]).1 != r@,
        });
    }
    ExecStart::Run { order: rest, show_prefix: n != 1, use_caller_cwd: is_cwd_only }
}

/// The line printed before a package's output: `<name>$ <command>`.
pub fn prefix_line(name: &str, command: &[String]) -> (res: String)
    ensures
        res@ == name@ + "$ "@ + joined(strs(command@), " "@),
{
    let mut m = str_chars(name);
    push_str(&mut m, "$ ");
    let display = join_with(command, " ");
    let ghost head = m@;
    let mut k: usize = 0;
    while k < display.len()
        invariant
            k <= display@.len(),
            m@ == head + display@.take(k as int),
        decreases display@.len() - k,
    {
        m.push(display[k]);
        proof {
            assert(display@.take(k + 1) =~= display@.take(k as int).push(display@[k as int]));
        }
        k += 1;
    }
    proof {
        assert(display@.take(display@.len() as int) =~= display@);
    }
    chars_to_string(m.as_slice())
}

/// The message when the command of a single selected package is not
/// installed.
pub fn missing_command_message(command: &str) -> (res: String)
    ensures
        res@ == "Command '"@ + command@
            + "' not found in node_modules/.bin\n\nRun `vp install` to install dependencies, or use `vpx` for invoking remote commands."@,
{
    let mut m = str_chars("Command '");
    push_str(&mut m, command);
    push_str(
        &mut m,
        "' not found in node_modules/.bin\n\nRun `vp install` to install dependencies, or use `vpx` for invoking remote commands.",
    );
    chars_to_string(m.as_slice())
}

// ---------------------------------------------------------------------------
// `PATH` of a package's process.
// ---------------------------------------------------------------------------

/// Joins directories into a `PATH` value by the platform's conventions
/// (`env::join_paths`): `None` when one of them cannot be an entry.
pub fn join_path_list(dirs: &[String], platform: Platform) -> (res: Option<String>)
    ensures
        match res {
            Some(p) => join_paths(platform, strs(dirs@)) == Some(p@),
            None => join_paths(platform, strs(dirs@)) is None,
        },
{
    let mut entries: Vec<Vec<char>> = Vec::new();
    let mut i: usize = 0;
    while i < dirs.len()
        invariant
            i <= dirs@.len(),
            crate::text::views(entries@) == strs(dirs@).take(i as int),
        decreases dirs@.len() - i,
    {
        let ghost before = entries@;
        entries.push(str_chars(dirs[i].as_str()));
        proof {
            assert(crate::text::views(entries@) =~= crate::text::views(before).push(dirs@[i as int]@));
            assert(strs(dirs@).take(i + 1) =~= strs(dirs@).take(i as int).push(dirs@[i as int]@));
        }
        i += 1;
    }
    proof {
        assert(strs(dirs@).take(dirs@.len() as int) =~= strs(dirs@));
    }
    match join_path_entries(platform, &entries) {
        Some(t) => Some(chars_to_string(t.as_slice())),
        None => None,
    }
}

/// The directories every package's `PATH` starts from: the package
/// manager's bin directory and the workspace's `node_modules/.bin` (when
/// present), then the caller's `PATH` entries.
pub fn base_path_dirs(pm_bin: Option<String>, workspace_bin: Option<String>, path_entries: Vec<String>) -> (res:
    Vec<String>)
    ensures
        strs(res@) == (match pm_bin {
            Some(b) => seq![b@],
            None => seq![],
        }) + (match workspace_bin {
            Some(b) => seq![b@],
            None => seq![],
        }) + strs(path_entries@),
{
    let mut out: Vec<String> = Vec::new();
    match pm_bin {
        Some(b) => out.push(b),
        None => {},
    }
    match workspace_bin {
        Some(b) => out.push(b),
        None => {},
    }
    let ghost head = strs(out@);
    let mut k: usize = 0;
    while k < path_entries.len()
        invariant
            k <= path_entries@.len(),
            strs(out@) == head + strs(path_entries@).take(k as int),
        decreases path_entries@.len() - k,
    {
        let ghost before = out@;
        out.push(path_entries[k].clone());
        proof {
            assert(strs(out@) =~= strs(before).push(path_entries@[k as int]@));
            assert(strs(path_entries@).take(k + 1) =~= strs(path_entries@).take(k as int).push(
                path_entries@[k as int]@,
            ));
        }
        k += 1;
    }
    proof {
        assert(strs(path_entries@).take(path_entries@.len() as int) =~= strs(path_entries@));
    }
    out
}

/// A package's `PATH`: its own `node_modules/.bin` (when present) ahead of
/// the base directories, joined by the platform's conventions, or the base
/// `PATH` as it is; empty when the directories cannot be joined.
pub fn package_path_env(
    package_bin: Option<&str>,
    base_dirs: &[String],
    base_path: &str,
    platform: Platform,
) -> (res: String)
    ensures
        res@ == match package_bin {
            None => base_path@,
            Some(b) => match join_paths(platform, seq![b@] + strs(base_dirs@)) {
                Some(p) => p,
                None => seq![],
            },
        },
{
    match package_bin {
        None => String::from_str(base_path),
        Some(b) => {
            let mut dirs: Vec<String> = Vec::new();
            dirs.push(String::from_str(b));
            let mut k: usize = 0;
            while k < base_dirs.len()
                invariant
                    k <= base_dirs@.len(),
                    strs(dirs@) == seq![b@] + strs(base_dirs@).take(k as int),
                decreases base_dirs@.len() - k,
            {
                let ghost before = dirs@;
                dirs.push(base_dirs[k].clone());
                proof {
                    assert(strs(dirs@) =~= strs(before).push(base_dirs@[k as int]@));
                    assert(strs(base_dirs@).take(k + 1) =~= strs(base_dirs@).take(k as int).push(
                        base_dirs@[k as int]@,
                    ));
                }
                k += 1;
            }
            proof {
                assert(strs(base_dirs@).take(base_dirs@.len() as int) =~= strs(base_dirs@));
            }
            match join_path_list(dirs.as_slice(), platform) {
                Some(p) => p,
                None => String::new(),
            }
        },
    }
}

// ---------------------------------------------------------------------------
// Exit statuses.
// ---------------------------------------------------------------------------

/// A process's exit code as the run records it: the code's low byte, 1
/// when it has none (killed by a signal).
pub open spec fn exit_byte_spec(code: Option<i32>) -> u8 {
    match code {
        Some(c) => c as u8,
        None => 1,
    }
}

pub fn exit_byte(code: Option<i32>) -> (res: u8)
    ensures
        res == exit_byte_spec(code),
{
    match code {
        Some(c) => #[verifier::truncate] (c as u8),
        None => 1,
    }
}

/// The status of parallel runs: the largest recorded code (0 when none
/// ran).
pub open spec fn worst_exit_spec(codes: Seq<Option<i32>>) -> u8
    decreases codes.len(),
{
    if codes.len() == 0 {
        0
    } else {
        let rest = worst_exit_spec(codes.drop_last());
        let last = exit_byte_spec(codes.last());
        if last > rest {
            last
        } else {
            rest
        }
    }
}

pub fn worst_exit(codes: &[Option<i32>]) -> (res: u8)
    ensures
        res == worst_exit_spec(codes@),
{
    let mut worst: u8 = 0;
    let mut i: usize = 0;
    while i < codes.len()
        invariant
            i <= codes@.len(),
            worst == worst_exit_spec(codes@.take(i as int)),
        decreases codes@.len() - i,
    {
        proof {
            assert(codes@.take(i + 1).drop_last() =~= codes@.take(i as int));
        }
        let code = exit_byte(codes[i]);
        if code > worst {
            worst = code;
        }
        i += 1;
    }
    proof {
        assert(codes@.take(codes@.len() as int) =~= codes@);
    }
    worst
}

/// The worst status bounds every package's status and is one of them (or
/// 0).
pub proof fn law_worst_exit_is_the_largest(codes: Seq<Option<i32>>)
    ensures
        forall|i: int| 0 <= i < codes.len() ==> exit_byte_spec(#[trigger] codes[i]) <= worst_exit_spec(codes),
        worst_exit_spec(codes) == 0 || exists|i: int|
            0 <= i < codes.len() && exit_byte_spec(#[trigger] codes[i]) == worst_exit_spec(codes),
    decreases codes.len(),
{
    if codes.len() > 0 {
        let rest = codes.drop_last();
        law_worst_exit_is_the_largest(rest);
        assert forall|i: int| 0 <= i < codes.len() implies exit_byte_spec(#[trigger] codes[i])
            <= worst_exit_spec(codes) by {
            if i < codes.len() - 1 {
                assert(codes[i] == rest[i]);
            }
        }
        if worst_exit_spec(codes) != 0 && worst_exit_spec(codes) != exit_byte_spec(codes.last()) {
            let i = choose|i: int| 0 <= i < rest.len() && exit_byte_spec(#[trigger] rest[i]) == worst_exit_spec(rest);
            assert(codes[i] == rest[i]);
        }
    }
}

/// In a sequential run, the status that stops it after a package: its
/// recorded code when not 0.
pub fn sequential_stop(code: Option<i32>) -> (res: Option<u8>)
    ensures
        res == (if exit_byte_spec(code) != 0 {
            Some(exit_byte_spec(code))
        } else {
            None
        }),
{
    let b = exit_byte(code);
    if b != 0 {
        Some(b)
    } else {
        None
    }
}

/// A package's status in the run summary.
pub fn package_status(code: u8) -> (res: &'static str)
    ensures
        res@ == (if code == 0 {
            "passed"@
        } else {
            "failed"@
        }),
{
    if code == 0 {
        "passed"
    } else {
        "failed"
    }
}

} // verus!
