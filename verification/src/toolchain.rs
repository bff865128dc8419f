//! The Vite+ toolchain manifest: the packages, tools and engines that Vite+
//! ships and how they relate; its validation, filtering, and text output.
use vstd::prelude::*;

use crate::pm::{clone_strings, strs};
use crate::text::{chars_eq, chars_to_string, joined, lemma_joined_push, push_all, push_str, str_chars};

verus! {

/// The toolchain manifest.
#[derive(Clone, Debug, PartialEq, Eq)]
pub struct Manifest {
    pub schema_version: u32,
    pub nodes: Vec<Node>,
    pub edges: Vec<Edge>,
}

/// One package, tool or engine.
#[derive(Clone, Debug, PartialEq, Eq)]
pub struct Node {
    pub id: String,
    pub name: String,
    pub version: Option<String>,
    pub revision: Option<String>,
    pub built_at: Option<String>,
    pub kind: NodeKind,
    pub delivery: Vec<Delivery>,
    pub aliases: Vec<String>,
}

#[derive(Clone, Copy, Debug, PartialEq, Eq)]
pub enum NodeKind {
    Package,
    Tool,
    Engine,
}

#[derive(Clone, Copy, Debug, PartialEq, Eq)]
pub enum Delivery {
    Dependency,
    Bundled,
    Compiled,
}

/// A relationship between two nodes, named by their IDs.
#[derive(Clone, Debug, PartialEq, Eq)]
pub struct Edge {
    pub from: String,
    pub to: String,
    pub relationship: Relationship,
}

#[derive(Clone, Copy, Debug, PartialEq, Eq)]
pub enum Relationship {
    DependsOn,
    Bundles,
    Uses,
    Compiles,
}

pub open spec fn relationship_text(r: Relationship) -> Seq<char> {
    match r {
        Relationship::DependsOn => "depends on"@,
        Relationship::Bundles => "bundles"@,
        Relationship::Uses => "uses"@,
        Relationship::Compiles => "compiles"@,
    }
}

/// Relationships that filtering follows downstream, towards engines.
pub open spec fn is_downstream(r: Relationship) -> bool {
    r == Relationship::Uses || r == Relationship::Compiles
}

impl Relationship {
    pub fn display(self) -> (res: &'static str)
        ensures
            res@ == relationship_text(self),
    {
        match self {
            Relationship::DependsOn => "depends on",
            Relationship::Bundles => "bundles",
            Relationship::Uses => "uses",
            Relationship::Compiles => "compiles",
        }
    }

    pub fn is_downstream_engine_relationship(self) -> (res: bool)
        ensures
            res == is_downstream(self),
    {
        matches!(self, Relationship::Uses | Relationship::Compiles)
    }
}

/// Where a report was read.
#[derive(Clone, Copy, Debug, PartialEq, Eq)]
pub enum Scope {
    Local,
    Global,
}

impl Scope {
    pub fn display(self) -> (res: &'static str)
        ensures
            res@ == (match self {
                Scope::Local => "local"@,
                Scope::Global => "global"@,
            }),
    {
        match self {
            Scope::Local => "local",
            Scope::Global => "global",
        }
    }
}

/// The install a report describes.
#[derive(Clone, Debug, PartialEq, Eq)]
pub struct Source {
    pub scope: Scope,
    pub path: String,
    pub vite_plus_version: String,
}

/// A (filtered) manifest with its source.
#[derive(Clone, Debug, PartialEq, Eq)]
pub struct Report {
    pub schema_version: u32,
    pub source: Source,
    pub nodes: Vec<Node>,
    pub edges: Vec<Edge>,
}

/// The errors of manifest handling that concern its content.
#[derive(Clone, Debug, PartialEq, Eq)]
pub enum ToolchainError {
    UnsupportedSchema(u32),
    InvalidManifest(String),
    UnknownFilter(String),
}

/// What an error says, with its text as characters.
pub enum ErrorModel {
    UnsupportedSchema(u32),
    InvalidManifest(Seq<char>),
    UnknownFilter(Seq<char>),
}

impl View for ToolchainError {
    type V = ErrorModel;

    open spec fn view(&self) -> ErrorModel {
        match *self {
            ToolchainError::UnsupportedSchema(v) => ErrorModel::UnsupportedSchema(v),
            ToolchainError::InvalidManifest(m) => ErrorModel::InvalidManifest(m@),
            ToolchainError::UnknownFilter(f) => ErrorModel::UnknownFilter(f@),
        }
    }
}

impl ToolchainError {
    /// The text of the error.
    pub fn message(&self) -> (res: String)
        ensures
            res@ == (match *self {
                ToolchainError::UnsupportedSchema(v) => "unsupported toolchain manifest schema version "@
                    + crate::text::decimal(v as nat),
                ToolchainError::InvalidManifest(m) => "invalid toolchain manifest: "@ + m@,
                ToolchainError::UnknownFilter(f) => "`"@ + f@ + "` is not in the Vite+ toolchain"@,
            }),
    {
        match self {
            ToolchainError::UnsupportedSchema(v) => {
                let mut out = str_chars("unsupported toolchain manifest schema version ");
                push_all(&mut out, crate::text::format_decimal(*v as u128).as_slice());
                chars_to_string(out.as_slice())
            },
            ToolchainError::InvalidManifest(m) => {
                let mut out = str_chars("invalid toolchain manifest: ");
                push_all(&mut out, str_chars(m.as_str()).as_slice());
                chars_to_string(out.as_slice())
            },
            ToolchainError::UnknownFilter(f) => {
                let mut out = str_chars("`");
                push_all(&mut out, str_chars(f.as_str()).as_slice());
                push_all(&mut out, str_chars("` is not in the Vite+ toolchain").as_slice());
                chars_to_string(out.as_slice())
            },
        }
    }
}

// ---------------------------------------------------------------------------
// Labels and lookups.
// ---------------------------------------------------------------------------

/// The filter labels of a node: its ID, its name, then its aliases.
pub open spec fn labels(n: Node) -> Seq<Seq<char>> {
    seq![n.id@, n.name@] + strs(n.aliases@)
}

pub open spec fn has_label(n: Node, l: Seq<char>) -> bool {
    labels(n).contains(l)
}

/// The labels of a node, in order.
fn node_labels(node: &Node) -> (res: Vec<&String>)
    ensures
        res@.len() == labels(*node).len(),
        forall|k: int| 0 <= k < res@.len() ==> (#[trigger] res@[k])@ == labels(*node)[k],
{
    let mut out: Vec<&String> = Vec::new();
    out.push(&node.id);
    out.push(&node.name);
    let mut j: usize = 0;
    while j < node.aliases.len()
        invariant
            j <= node.aliases@.len(),
            out@.len() == j + 2,
            forall|k: int| 0 <= k < out@.len() ==> (#[trigger] out@[k])@ == labels(*node)[k],
        decreases node.aliases@.len() - j,
    {
        out.push(&node.aliases[j]);
        j += 1;
    }
    out
}

fn node_has_label(node: &Node, label: &[char]) -> (res: bool)
    ensures
        res == has_label(*node, label@),
{
    let ls = node_labels(node);
    let mut k: usize = 0;
    while k < ls.len()
        invariant
            k <= ls@.len() == labels(*node).len(),
            forall|q: int| 0 <= q < ls@.len() ==> (#[trigger] ls@[q])@ == labels(*node)[q],
            forall|j: int| 0 <= j < k ==> labels(*node)[j] != label@,
        decreases ls@.len() - k,
    {
        let l = str_chars(ls[k].as_str());
        if chars_eq(l.as_slice(), label) {
            return true;
        }
        k += 1;
    }
    false
}

/// The first node with this ID.
pub fn node_by_id<'a>(manifest: &'a Manifest, id: &str) -> (res: Option<&'a Node>)
    ensures
        match res {
            Some(n) => exists|i: int|
                0 <= i < manifest.nodes@.len() && manifest.nodes@[i] == *n && n.id@ == id@
                    && forall|j: int| 0 <= j < i ==> (#[trigger] manifest.nodes@[j]).id@ != id@,
            None => forall|j: int|
                0 <= j < manifest.nodes@.len() ==> (#[trigger] manifest.nodes@[j]).id@ != id@,
        },
{
    let target = str_chars(id);
    let mut i: usize = 0;
    while i < manifest.nodes.len()
        invariant
            i <= manifest.nodes@.len(),
            target@ == id@,
            forall|j: int| 0 <= j < i ==> (#[trigger] manifest.nodes@[j]).id@ != id@,
        decreases manifest.nodes@.len() - i,
    {
        let c = str_chars(manifest.nodes[i].id.as_str());
        if chars_eq(c.as_slice(), target.as_slice()) {
            return Some(&manifest.nodes[i]);
        }
        i += 1;
    }
    None
}

/// The first node with this label.
pub open spec fn first_with_label(nodes: Seq<Node>, label: Seq<char>) -> Option<int> {
    if exists|i: int| 0 <= i < nodes.len() && has_label(#[trigger] nodes[i], label) {
        Some(
            choose|i: int|
                0 <= i < nodes.len() && has_label(#[trigger] nodes[i], label) && forall|j: int|
                    0 <= j < i ==> !has_label(#[trigger] nodes[j], label),
        )
    } else {
        None
    }
}

fn node_index_by_label(nodes: &Vec<Node>, label: &[char]) -> (res: Option<usize>)
    ensures
        match res {
            Some(i) => i < nodes@.len() && has_label(nodes@[i as int], label@) && forall|j: int|
                0 <= j < i ==> !has_label(#[trigger] nodes@[j], label@),
            None => forall|j: int| 0 <= j < nodes@.len() ==> !has_label(#[trigger] nodes@[j], label@),
        },
{
    let mut i: usize = 0;
    while i < nodes.len()
        invariant
            i <= nodes@.len(),
            forall|j: int| 0 <= j < i ==> !has_label(#[trigger] nodes@[j], label@),
        decreases nodes@.len() - i,
    {
        if node_has_label(&nodes[i], label) {
            return Some(i);
        }
        i += 1;
    }
    None
}

/// `v` is the version of the first node with the ID `vite-plus` (`None`
/// when there is no such node or it has no version).
pub open spec fn is_root_version(nodes: Seq<Node>, v: Option<Seq<char>>) -> bool {
    match v {
        Some(v) => exists|i: int|
            0 <= i < nodes.len() && (#[trigger] nodes[i]).id@ == "vite-plus"@ && (forall|j: int|
                0 <= j < i ==> (#[trigger] nodes[j]).id@ != "vite-plus"@) && (nodes[i].version matches Some(
                w,
            ) && w@ == v),
        None => forall|i: int|
            0 <= i < nodes.len() && (#[trigger] nodes[i]).id@ == "vite-plus"@ && (forall|j: int|
                0 <= j < i ==> (#[trigger] nodes[j]).id@ != "vite-plus"@) ==> nodes[i].version is None,
    }
}

/// The version of the `vite-plus` node, if it has one.
pub fn root_version(manifest: &Manifest) -> (res: Option<String>)
    ensures
        is_root_version(
            manifest.nodes@,
            match res {
                Some(v) => Some(v@),
                None => None,
            },
        ),
{
    match node_by_id(manifest, "vite-plus") {
        Some(node) => match &node.version {
            Some(v) => Some(v.clone()),
            None => {
                proof {
                    let i = choose|i: int|
                        0 <= i < manifest.nodes@.len() && manifest.nodes@[i] == *node
                            && node.id@ == "vite-plus"@ && forall|j: int|
                            0 <= j < i ==> (#[trigger] manifest.nodes@[j]).id@ != "vite-plus"@;
                    assert forall|k: int|
                        0 <= k < manifest.nodes@.len() && (#[trigger] manifest.nodes@[k]).id@
                            == "vite-plus"@ && (forall|j: int|
                            0 <= j < k ==> (#[trigger] manifest.nodes@[j]).id@ != "vite-plus"@)
                        implies manifest.nodes@[k].version is None by {
                        if k < i {
                            assert(manifest.nodes@[k].id@ != "vite-plus"@);
                        } else if k > i {
                            assert(manifest.nodes@[i].id@ != "vite-plus"@);
                        }
                    }
                }
                None
            },
        },
        None => None,
    }
}

// ---------------------------------------------------------------------------
// Validation.
// ---------------------------------------------------------------------------

/// Whether a build time has the form `YYYY-MM-DDTHH:MM:SSZ` (20 ASCII
/// characters; digits except for the separators).
pub open spec fn is_utc_build_time_spec(v: Seq<char>) -> bool {
    &&& v.len() == 20
    &&& v[4] == '-' && v[7] == '-' && v[10] == 'T' && v[13] == ':' && v[16] == ':' && v[19] == 'Z'
    &&& forall|i: int|
        0 <= i < 20 && i != 4 && i != 7 && i != 10 && i != 13 && i != 16 && i != 19 ==> '0'
            <= #[trigger] v[i] <= '9'
}

pub fn is_utc_build_time(value: &str) -> (res: bool)
    ensures
        res == is_utc_build_time_spec(value@),
{
    let v = str_chars(value);
    if v.len() != 20 {
        return false;
    }
    if !(v[4] == '-' && v[7] == '-' && v[10] == 'T' && v[13] == ':' && v[16] == ':' && v[19]
        == 'Z') {
        return false;
    }
    let mut i: usize = 0;
    while i < 20
        invariant
            i <= 20,
            v@ == value@,
            v@.len() == 20,
            forall|k: int|
                0 <= k < i && k != 4 && k != 7 && k != 10 && k != 13 && k != 16 && k != 19 ==> '0'
                    <= #[trigger] v@[k] <= '9',
        decreases 20 - i,
    {
        if i != 4 && i != 7 && i != 10 && i != 13 && i != 16 && i != 19 && !('0' <= v[i] && v[i]
            <= '9') {
            return false;
        }
        i += 1;
    }
    true
}

pub open spec fn opt_empty(o: Option<String>) -> bool {
    o matches Some(s) && s@.len() == 0
}

pub open spec fn quoted_id(prefix: Seq<char>, id: Seq<char>, suffix: Seq<char>) -> Seq<char> {
    prefix + "`"@ + id + "`"@ + suffix
}

/// The first problem with a node's own fields, if any.
pub open spec fn node_field_error(n: Node) -> Option<Seq<char>> {
    if n.id@.len() == 0 || n.name@.len() == 0 {
        Some("node IDs and names must not be empty"@)
    } else if opt_empty(n.version) || opt_empty(n.revision) || opt_empty(n.built_at) {
        Some(quoted_id("node "@, n.id@, " has an empty version, revision, or build time"@))
    } else if n.built_at matches Some(b) && !is_utc_build_time_spec(b@) {
        Some(quoted_id("node "@, n.id@, " has an invalid UTC build time"@))
    } else if n.version is Some && n.built_at is Some {
        Some(quoted_id("node "@, n.id@, " must not have both a version and build time"@))
    } else if n.version is None && n.revision is None && n.built_at is None {
        Some(quoted_id("node "@, n.id@, " must have a version, revision, or build time"@))
    } else {
        None
    }
}

/// The ID of the first node before `i` that has `label`.
pub open spec fn label_owner(nodes: Seq<Node>, i: int, label: Seq<char>) -> Option<Seq<char>> {
    match first_with_label(nodes.take(i), label) {
        Some(j) => Some(nodes[j].id@),
        None => None,
    }
}

/// The first problem with the labels of node `i` from label `k` on: an empty
/// label, or a label that an earlier node with another ID has.
pub open spec fn label_error(nodes: Seq<Node>, i: int, k: int) -> Option<Seq<char>>
    decreases labels(nodes[i]).len() - k,
{
    let ls = labels(nodes[i]);
    if k < 0 || k >= ls.len() {
        None
    } else if ls[k].len() == 0 {
        Some(quoted_id("node "@, nodes[i].id@, " has an empty name or alias"@))
    } else {
        match label_owner(nodes, i, ls[k]) {
            Some(owner) => if owner != nodes[i].id@ {
                Some(
                    "filter label `"@ + ls[k] + "` is shared by `"@ + owner + "` and `"@
                        + nodes[i].id@ + "`"@,
                )
            } else {
                label_error(nodes, i, k + 1)
            },
            None => label_error(nodes, i, k + 1),
        }
    }
}

/// The first problem with node `i`, given the nodes before it.
pub open spec fn node_error(nodes: Seq<Node>, i: int) -> Option<Seq<char>> {
    match node_field_error(nodes[i]) {
        Some(e) => Some(e),
        None => if exists|j: int| 0 <= j < i && (#[trigger] nodes[j]).id@ == nodes[i].id@ {
            Some(quoted_id("duplicate node ID "@, nodes[i].id@, seq![]))
        } else {
            label_error(nodes, i, 0)
        },
    }
}

/// The first problem among the first `k` nodes.
pub open spec fn nodes_error(nodes: Seq<Node>, k: int) -> Option<Seq<char>>
    decreases k,
{
    if k <= 0 {
        None
    } else {
        match nodes_error(nodes, k - 1) {
            Some(e) => Some(e),
            None => node_error(nodes, k - 1),
        }
    }
}

pub open spec fn is_node_id(nodes: Seq<Node>, id: Seq<char>) -> bool {
    exists|j: int| 0 <= j < nodes.len() && (#[trigger] nodes[j]).id@ == id
}

/// The first of the first `k` edges that names an unknown node.
pub open spec fn edges_error(m: Manifest, k: int) -> Option<Seq<char>>
    decreases k,
{
    if k <= 0 {
        None
    } else {
        match edges_error(m, k - 1) {
            Some(e) => Some(e),
            None => {
                let e = m.edges@[k - 1];
                if !is_node_id(m.nodes@, e.from@) || !is_node_id(m.nodes@, e.to@) {
                    Some("edge references an unknown node: "@ + e.from@ + " -> "@ + e.to@)
                } else {
                    None
                }
            },
        }
    }
}

/// The verdict of validation: schema version 1, then the first node problem,
/// then the first edge problem.
pub open spec fn validate_spec(m: Manifest) -> Result<(), ErrorModel> {
    if m.schema_version != 1 {
        Err(ErrorModel::UnsupportedSchema(m.schema_version))
    } else {
        match nodes_error(m.nodes@, m.nodes@.len() as int) {
            Some(e) => Err(ErrorModel::InvalidManifest(e)),
            None => match edges_error(m, m.edges@.len() as int) {
                Some(e) => Err(ErrorModel::InvalidManifest(e)),
                None => Ok(()),
            },
        }
    }
}

pub open spec fn result_view<T>(r: Result<T, ToolchainError>) -> Result<T, ErrorModel> {
    match r {
        Ok(v) => Ok(v),
        Err(e) => Err(e@),
    }
}

fn opt_is_empty(o: &Option<String>) -> (res: bool)
    ensures
        res == opt_empty(*o),
{
    match o {
        Some(s) => str_chars(s.as_str()).len() == 0,
        None => false,
    }
}

fn message_with_id(prefix: &str, id: &String, suffix: &str) -> (res: String)
    ensures
        res@ == quoted_id(prefix@, id@, suffix@),
{
    let mut out = str_chars(prefix);
    push_all(&mut out, str_chars("`").as_slice());
    push_all(&mut out, str_chars(id.as_str()).as_slice());
    push_all(&mut out, str_chars("`").as_slice());
    push_all(&mut out, str_chars(suffix).as_slice());
    chars_to_string(out.as_slice())
}

fn check_node_fields(n: &Node) -> (res: Option<String>)
    ensures
        match res {
            Some(e) => node_field_error(*n) == Some(e@),
            None => node_field_error(*n) is None,
        },
{
    if str_chars(n.id.as_str()).len() == 0 || str_chars(n.name.as_str()).len() == 0 {
        return Some(String::from_str("node IDs and names must not be empty"));
    }
    if opt_is_empty(&n.version) || opt_is_empty(&n.revision) || opt_is_empty(&n.built_at) {
        return Some(
            message_with_id("node ", &n.id, " has an empty version, revision, or build time"),
        );
    }
    if let Some(b) = &n.built_at {
        if !is_utc_build_time(b.as_str()) {
            return Some(message_with_id("node ", &n.id, " has an invalid UTC build time"));
        }
    }
    if n.version.is_some() && n.built_at.is_some() {
        return Some(message_with_id("node ", &n.id, " must not have both a version and build time"));
    }
    if n.version.is_none() && n.revision.is_none() && n.built_at.is_none() {
        return Some(message_with_id("node ", &n.id, " must have a version, revision, or build time"));
    }
    None
}

fn label_owner_exec(nodes: &Vec<Node>, i: usize, label: &[char]) -> (res: Option<usize>)
    requires
        i <= nodes@.len(),
    ensures
        match res {
            Some(j) => j < i && label_owner(nodes@, i as int, label@) == Some(nodes@[j as int].id@),
            None => label_owner(nodes@, i as int, label@) is None,
        },
{
    let ghost prefix = nodes@.take(i as int);
    let mut j: usize = 0;
    while j < i
        invariant
            j <= i <= nodes@.len(),
            prefix == nodes@.take(i as int),
            forall|k: int| 0 <= k < j ==> !has_label(#[trigger] nodes@[k], label@),
        decreases i - j,
    {
        if node_has_label(&nodes[j], label) {
            proof {
                assert(has_label(prefix[j as int], label@));
                let c = choose|c: int|
                    0 <= c < prefix.len() && has_label(#[trigger] prefix[c], label@) && forall|
                        q: int,
                    | 0 <= q < c ==> !has_label(#[trigger] prefix[q], label@);
                if c < j {
                    assert(!has_label(nodes@[c], label@));
                }
                if c > j {
                    assert(!has_label(prefix[j as int], label@));
                }
            }
            return Some(j);
        }
        j += 1;
    }
    proof {
        assert forall|c: int| 0 <= c < prefix.len() implies !has_label(#[trigger] prefix[c], label@) by {
            assert(prefix[c] == nodes@[c]);
        }
    }
    None
}

fn check_labels(nodes: &Vec<Node>, i: usize) -> (res: Option<String>)
    requires
        i < nodes@.len(),
    ensures
        match res {
            Some(e) => label_error(nodes@, i as int, 0) == Some(e@),
            None => label_error(nodes@, i as int, 0) is None,
        },
{
    let node = &nodes[i];
    let ls = node_labels(node);
    let mut k: usize = 0;
    while k < ls.len()
        invariant
            k <= ls@.len() == labels(*node).len(),
            forall|q: int| 0 <= q < ls@.len() ==> (#[trigger] ls@[q])@ == labels(*node)[q],
            i < nodes@.len(),
            *node == nodes@[i as int],
            label_error(nodes@, i as int, k as int) == label_error(nodes@, i as int, 0),
        decreases ls@.len() - k,
    {
        let l = str_chars(ls[k].as_str());
        if l.len() == 0 {
            return Some(message_with_id("node ", &node.id, " has an empty name or alias"));
        }
        match label_owner_exec(nodes, i, l.as_slice()) {
            Some(j) => {
                let owner = str_chars(nodes[j].id.as_str());
                let own = str_chars(node.id.as_str());
                if !chars_eq(owner.as_slice(), own.as_slice()) {
                    let mut out = str_chars("filter label `");
                    push_all(&mut out, l.as_slice());
                    push_all(&mut out, str_chars("` is shared by `").as_slice());
                    push_all(&mut out, owner.as_slice());
                    push_all(&mut out, str_chars("` and `").as_slice());
                    push_all(&mut out, own.as_slice());
                    push_all(&mut out, str_chars("`").as_slice());
                    return Some(chars_to_string(out.as_slice()));
                }
            },
            None => {},
        }
        k += 1;
    }
    None
}

fn check_node(nodes: &Vec<Node>, i: usize) -> (res: Option<String>)
    requires
        i < nodes@.len(),
    ensures
        match res {
            Some(e) => node_error(nodes@, i as int) == Some(e@),
            None => node_error(nodes@, i as int) is None,
        },
{
    if let Some(e) = check_node_fields(&nodes[i]) {
        return Some(e);
    }
    let id = str_chars(nodes[i].id.as_str());
    let mut j: usize = 0;
    while j < i
        invariant
            j <= i < nodes@.len(),
            id@ == nodes@[i as int].id@,
            node_field_error(nodes@[i as int]) is None,
            forall|k: int| 0 <= k < j ==> (#[trigger] nodes@[k]).id@ != nodes@[i as int].id@,
        decreases i - j,
    {
        let other = str_chars(nodes[j].id.as_str());
        if chars_eq(other.as_slice(), id.as_slice()) {
            let mut out = str_chars("duplicate node ID ");
            push_all(&mut out, str_chars("`").as_slice());
            push_all(&mut out, id.as_slice());
            push_all(&mut out, str_chars("`").as_slice());
            proof {
                assert(nodes@[j as int].id@ == nodes@[i as int].id@);
                assert(node_field_error(nodes@[i as int]) is None);
                assert(out@ =~= quoted_id("duplicate node ID "@, nodes@[i as int].id@, seq![]));
            }
            return Some(chars_to_string(out.as_slice()));
        }
        j += 1;
    }
    check_labels(nodes, i)
}

fn is_node_id_exec(nodes: &Vec<Node>, id: &[char]) -> (res: bool)
    ensures
        res == is_node_id(nodes@, id@),
{
    let mut j: usize = 0;
    while j < nodes.len()
        invariant
            j <= nodes@.len(),
            forall|k: int| 0 <= k < j ==> (#[trigger] nodes@[k]).id@ != id@,
        decreases nodes@.len() - j,
    {
        let c = str_chars(nodes[j].id.as_str());
        if chars_eq(c.as_slice(), id) {
            return true;
        }
        j += 1;
    }
    false
}

/// Validate a manifest: the supported schema version; for each node in
/// order, non-empty ID and name, non-empty optional fields, a UTC build time,
/// not both a version and a build time, at least one of version, revision and
/// build time, a unique ID, non-empty labels not shared with another node;
/// then edges that name known nodes. The first problem is reported.
pub fn validate_manifest(manifest: &Manifest) -> (res: Result<(), ToolchainError>)
    ensures
        result_view(res) == validate_spec(*manifest),
{
    if manifest.schema_version != 1 {
        return Err(ToolchainError::UnsupportedSchema(manifest.schema_version));
    }
    let mut i: usize = 0;
    while i < manifest.nodes.len()
        invariant
            i <= manifest.nodes@.len(),
            manifest.schema_version == 1,
            nodes_error(manifest.nodes@, i as int) is None,
        decreases manifest.nodes@.len() - i,
    {
        if let Some(e) = check_node(&manifest.nodes, i) {
            proof {
                assert(nodes_error(manifest.nodes@, i as int + 1) == Some(e@));
                lemma_first_error_sticks(manifest.nodes@, i as int + 1, manifest.nodes@.len() as int);
            }
            return Err(ToolchainError::InvalidManifest(e));
        }
        i += 1;
    }
    let mut k: usize = 0;
    while k < manifest.edges.len()
        invariant
            k <= manifest.edges@.len(),
            nodes_error(manifest.nodes@, manifest.nodes@.len() as int) is None,
            edges_error(*manifest, k as int) is None,
            manifest.schema_version == 1,
        decreases manifest.edges@.len() - k,
    {
        let e = &manifest.edges[k];
        let from = str_chars(e.from.as_str());
        let to = str_chars(e.to.as_str());
        if !is_node_id_exec(&manifest.nodes, from.as_slice()) || !is_node_id_exec(
            &manifest.nodes,
            to.as_slice(),
        ) {
            let mut out = str_chars("edge references an unknown node: ");
            push_all(&mut out, from.as_slice());
            push_all(&mut out, str_chars(" -> ").as_slice());
            push_all(&mut out, to.as_slice());
            proof {
                lemma_first_edge_error_sticks(*manifest, k as int + 1, manifest.edges@.len() as int);
            }
            return Err(ToolchainError::InvalidManifest(chars_to_string(out.as_slice())));
        }
        k += 1;
    }
    Ok(())
}

proof fn lemma_first_error_sticks(nodes: Seq<Node>, k: int, n: int)
    requires
        1 <= k <= n,
        nodes_error(nodes, k) is Some,
    ensures
        nodes_error(nodes, n) == nodes_error(nodes, k),
    decreases n - k,
{
    if n > k {
        lemma_first_error_sticks(nodes, k, n - 1);
    }
}

proof fn lemma_first_edge_error_sticks(m: Manifest, k: int, n: int)
    requires
        1 <= k <= n,
        edges_error(m, k) is Some,
    ensures
        edges_error(m, n) == edges_error(m, k),
    decreases n - k,
{
    if n > k {
        lemma_first_edge_error_sticks(m, k, n - 1);
    }
}


// ---------------------------------------------------------------------------
// Views.
// ---------------------------------------------------------------------------

pub open spec fn opt_view(o: Option<String>) -> Option<Seq<char>> {
    match o {
        Some(s) => Some(s@),
        None => None,
    }
}

/// What a node holds, with its texts as characters.
#[verifier::ext_equal]
pub struct NodeModel {
    pub id: Seq<char>,
    pub name: Seq<char>,
    pub version: Option<Seq<char>>,
    pub revision: Option<Seq<char>>,
    pub built_at: Option<Seq<char>>,
    pub kind: NodeKind,
    pub delivery: Seq<Delivery>,
    pub aliases: Seq<Seq<char>>,
}

impl View for Node {
    type V = NodeModel;

    open spec fn view(&self) -> NodeModel {
        NodeModel {
            id: self.id@,
            name: self.name@,
            version: opt_view(self.version),
            revision: opt_view(self.revision),
            built_at: opt_view(self.built_at),
            kind: self.kind,
            delivery: self.delivery@,
            aliases: strs(self.aliases@),
        }
    }
}

/// What an edge holds, with node IDs as characters.
#[verifier::ext_equal]
pub struct EdgeModel {
    pub from: Seq<char>,
    pub to: Seq<char>,
    pub relationship: Relationship,
}

impl View for Edge {
    type V = EdgeModel;

    open spec fn view(&self) -> EdgeModel {
        EdgeModel { from: self.from@, to: self.to@, relationship: self.relationship }
    }
}

pub open spec fn node_views(s: Seq<Node>) -> Seq<NodeModel> {
    s.map_values(|n: Node| n@)
}

pub open spec fn edge_views(s: Seq<Edge>) -> Seq<EdgeModel> {
    s.map_values(|e: Edge| e@)
}

/// What a manifest holds.
#[verifier::ext_equal]
pub struct ManifestModel {
    pub schema_version: u32,
    pub nodes: Seq<NodeModel>,
    pub edges: Seq<EdgeModel>,
}

impl View for Manifest {
    type V = ManifestModel;

    open spec fn view(&self) -> ManifestModel {
        ManifestModel {
            schema_version: self.schema_version,
            nodes: node_views(self.nodes@),
            edges: edge_views(self.edges@),
        }
    }
}

fn clone_opt(o: &Option<String>) -> (res: Option<String>)
    ensures
        opt_view(res) == opt_view(*o),
{
    match o {
        Some(s) => Some(s.clone()),
        None => None,
    }
}

fn clone_node(n: &Node) -> (res: Node)
    ensures
        res@ == n@,
{
    let mut delivery: Vec<Delivery> = Vec::new();
    let mut k: usize = 0;
    while k < n.delivery.len()
        invariant
            k <= n.delivery@.len(),
            delivery@ == n.delivery@.take(k as int),
        decreases n.delivery@.len() - k,
    {
        delivery.push(n.delivery[k]);
        proof {
            assert(n.delivery@.take(k + 1) =~= n.delivery@.take(k as int).push(n.delivery@[k as int]));
        }
        k += 1;
    }
    proof {
        assert(n.delivery@.take(n.delivery@.len() as int) =~= n.delivery@);
    }
    Node {
        id: n.id.clone(),
        name: n.name.clone(),
        version: clone_opt(&n.version),
        revision: clone_opt(&n.revision),
        built_at: clone_opt(&n.built_at),
        kind: n.kind,
        delivery,
        aliases: clone_strings(n.aliases.as_slice()),
    }
}

fn clone_edge(e: &Edge) -> (res: Edge)
    ensures
        res@ == e@,
{
    Edge { from: e.from.clone(), to: e.to.clone(), relationship: e.relationship }
}

// ---------------------------------------------------------------------------
// Filtering.
// ---------------------------------------------------------------------------

/// The last node with this ID: the node an edge endpoint resolves to.
#[verifier::opaque]
pub open spec fn last_id_index(nodes: Seq<Node>, id: Seq<char>) -> Option<int> {
    if exists|i: int| 0 <= i < nodes.len() && (#[trigger] nodes[i]).id@ == id {
        Some(
            choose|i: int|
                0 <= i < nodes.len() && (#[trigger] nodes[i]).id@ == id && forall|j: int|
                    i < j < nodes.len() ==> (#[trigger] nodes[j]).id@ != id,
        )
    } else {
        None
    }
}

/// The last node with this label: the node a filter selects.
#[verifier::opaque]
pub open spec fn last_label_index(nodes: Seq<Node>, label: Seq<char>) -> Option<int> {
    if exists|i: int| 0 <= i < nodes.len() && has_label(#[trigger] nodes[i], label) {
        Some(
            choose|i: int|
                0 <= i < nodes.len() && has_label(#[trigger] nodes[i], label) && forall|j: int|
                    i < j < nodes.len() ==> !has_label(#[trigger] nodes[j], label),
        )
    } else {
        None
    }
}

/// Every edge names nodes of the manifest at both ends.
pub open spec fn edges_known(m: Manifest) -> bool {
    forall|e: int|
        0 <= e < m.edges@.len() ==> is_node_id(m.nodes@, (#[trigger] m.edges@[e]).from@)
            && is_node_id(m.nodes@, m.edges@[e].to@)
}

/// Every edge followed from a node that `s` reaches has a known node at its
/// other end (else the walk would stop at an unknown node).
pub open spec fn walk_ends_known(m: Manifest, upward: bool, s: int) -> bool {
    forall|e: int|
        0 <= e < m.edges@.len() && #[trigger] edge_reached(m, upward, s, e) ==> edge_target(
            m,
            upward,
            e,
        ) is Some
}

/// The walks of the filters up to the first one that names no node meet
/// only known nodes.
pub open spec fn filter_walks_known(m: Manifest, fs: Seq<Seq<char>>) -> bool {
    forall|k: int|
        0 <= k < fs.len() && (forall|j: int| 0 <= j < k ==> #[trigger] selected(m, fs, j) is Some)
            && #[trigger] selected(m, fs, k) is Some ==> walk_ends_known(
            m,
            true,
            selected(m, fs, k)->0,
        ) && walk_ends_known(m, false, selected(m, fs, k)->0)
}

/// Whether edge `e` is followed from node `x`: upward, every edge into `x`;
/// downward, the `uses` and `compiles` edges out of `x`.
pub open spec fn edge_follows(m: Manifest, upward: bool, x: int, e: int) -> bool {
    let edge = m.edges@[e];
    if upward {
        edge.to@ == m.nodes@[x].id@
    } else {
        edge.from@ == m.nodes@[x].id@ && is_downstream(edge.relationship)
    }
}

/// The node at the other end of a followed edge.
pub open spec fn edge_target(m: Manifest, upward: bool, e: int) -> Option<int> {
    let edge = m.edges@[e];
    last_id_index(m.nodes@, if upward { edge.from@ } else { edge.to@ })
}

#[verifier::opaque]
pub open spec fn step(m: Manifest, upward: bool, x: int, y: int) -> bool {
    exists|e: int|
        0 <= e < m.edges@.len() && #[trigger] edge_follows(m, upward, x, e) && edge_target(
            m,
            upward,
            e,
        ) == Some(y)
}

pub open spec fn step_at(m: Manifest, upward: bool, p: Seq<int>, i: int) -> bool {
    step(m, upward, p[i], p[i + 1])
}

/// A sequence of node indices, each a step from the one before.
pub open spec fn is_walk(m: Manifest, upward: bool, p: Seq<int>) -> bool {
    &&& p.len() >= 1
    &&& forall|i: int| 0 <= i < p.len() ==> 0 <= #[trigger] p[i] < m.nodes@.len()
    &&& forall|i: int| 0 <= i < p.len() - 1 ==> #[trigger] step_at(m, upward, p, i)
}

/// Whether node `b` is reached from node `a` (upward: its owners and their
/// owners; downward: the engines it uses or compiles, and theirs).
#[verifier::opaque]
pub open spec fn reaches(m: Manifest, upward: bool, a: int, b: int) -> bool {
    exists|p: Seq<int>| #[trigger] is_walk(m, upward, p) && p[0] == a && p.last() == b
}

/// Whether edge `e` is followed from a node reached from `a`.
pub open spec fn edge_reached(m: Manifest, upward: bool, a: int, e: int) -> bool {
    exists|x: int|
        0 <= x < m.nodes@.len() && reaches(m, upward, a, x) && #[trigger] edge_follows(
            m,
            upward,
            x,
            e,
        )
}

pub open spec fn filter_texts(filters: Seq<&str>) -> Seq<Seq<char>> {
    filters.map_values(|f: &str| f@)
}

/// The node selected by filter `k`.
pub open spec fn selected(m: Manifest, fs: Seq<Seq<char>>, k: int) -> Option<int> {
    last_label_index(m.nodes@, fs[k])
}

/// Whether node `i` is kept: some filter selects a node that reaches `i`
/// upward or downward.
pub open spec fn kept_node(m: Manifest, fs: Seq<Seq<char>>, i: int) -> bool {
    exists|k: int|
        0 <= k < fs.len() && (#[trigger] selected(m, fs, k) matches Some(s) && (reaches(
            m,
            true,
            s,
            i,
        ) || reaches(m, false, s, i)))
}

/// Whether edge `e` is kept: it is followed from a node that a selected node
/// reaches.
pub open spec fn kept_edge(m: Manifest, fs: Seq<Seq<char>>, e: int) -> bool {
    exists|k: int|
        0 <= k < fs.len() && (#[trigger] selected(m, fs, k) matches Some(s) && (edge_reached(
            m,
            true,
            s,
            e,
        ) || edge_reached(m, false, s, e)))
}

/// The first filter that matches no label.
pub open spec fn first_unknown(m: Manifest, fs: Seq<Seq<char>>) -> Option<int> {
    if exists|k: int| 0 <= k < fs.len() && #[trigger] selected(m, fs, k) is None {
        Some(
            choose|k: int|
                0 <= k < fs.len() && #[trigger] selected(m, fs, k) is None && forall|j: int|
                    0 <= j < k ==> #[trigger] selected(m, fs, j) is Some,
        )
    } else {
        None
    }
}

/// The items of `s` whose flag in `keep` is set, in order.
pub open spec fn select<T>(s: Seq<T>, keep: Seq<bool>) -> Seq<T>
    decreases s.len(),
{
    if s.len() == 0 {
        seq![]
    } else {
        let rest = select(s.drop_last(), keep.take(s.len() - 1));
        if keep[s.len() - 1] {
            rest.push(s.last())
        } else {
            rest
        }
    }
}

pub open spec fn node_flags(m: Manifest, fs: Seq<Seq<char>>) -> Seq<bool> {
    Seq::new(m.nodes@.len(), |i: int| kept_node(m, fs, i))
}

pub open spec fn edge_flags(m: Manifest, fs: Seq<Seq<char>>) -> Seq<bool> {
    Seq::new(m.edges@.len(), |e: int| kept_edge(m, fs, e))
}

/// The result of filtering by labels that all match.
pub open spec fn filtered(m: Manifest, fs: Seq<Seq<char>>) -> ManifestModel {
    ManifestModel {
        schema_version: m.schema_version,
        nodes: select(node_views(m.nodes@), node_flags(m, fs)),
        edges: select(edge_views(m.edges@), edge_flags(m, fs)),
    }
}

/// The index `last_id_index` gives is that of a node with the ID.
pub proof fn lemma_last_id_index(nodes: Seq<Node>, id: Seq<char>)
    ensures
        last_id_index(nodes, id) matches Some(i) ==> 0 <= i < nodes.len()
            && nodes[i].id@ == id,
        last_id_index(nodes, id) is None <==> !is_node_id(nodes, id),
{
    reveal(last_id_index);
    if is_node_id(nodes, id) {
        let w = choose|j: int| 0 <= j < nodes.len() && (#[trigger] nodes[j]).id@ == id;
        lemma_last_exists(nodes, id, w, nodes.len() - 1);
    }
}

proof fn lemma_last_exists(nodes: Seq<Node>, id: Seq<char>, w: int, k: int)
    requires
        0 <= w <= k < nodes.len(),
        nodes[w].id@ == id,
        forall|j: int| k < j < nodes.len() ==> (#[trigger] nodes[j]).id@ != id,
    ensures
        exists|i: int|
            0 <= i < nodes.len() && (#[trigger] nodes[i]).id@ == id && forall|j: int|
                i < j < nodes.len() ==> (#[trigger] nodes[j]).id@ != id,
    decreases k - w,
{
    if nodes[k].id@ == id {
        assert(0 <= k < nodes.len() && nodes[k].id@ == id);
    } else {
        lemma_last_exists(nodes, id, w, k - 1);
    }
}

/// The index `last_label_index` gives is that of a node with the label.
pub proof fn lemma_last_label_index(nodes: Seq<Node>, label: Seq<char>)
    ensures
        last_label_index(nodes, label) matches Some(i) ==> 0 <= i < nodes.len() && has_label(
            nodes[i],
            label,
        ),
{
    reveal(last_label_index);
    if exists|i: int| 0 <= i < nodes.len() && has_label(#[trigger] nodes[i], label) {
        let w = choose|i: int| 0 <= i < nodes.len() && has_label(#[trigger] nodes[i], label);
        lemma_last_label_exists(nodes, label, w, nodes.len() - 1);
    }
}

proof fn lemma_last_label_exists(nodes: Seq<Node>, label: Seq<char>, w: int, k: int)
    requires
        0 <= w <= k < nodes.len(),
        has_label(nodes[w], label),
        forall|j: int| k < j < nodes.len() ==> !has_label(#[trigger] nodes[j], label),
    ensures
        exists|i: int|
            0 <= i < nodes.len() && has_label(#[trigger] nodes[i], label) && forall|j: int|
                i < j < nodes.len() ==> !has_label(#[trigger] nodes[j], label),
    decreases k - w,
{
    if has_label(nodes[k], label) {
        assert(0 <= k < nodes.len() && has_label(nodes[k], label));
    } else {
        lemma_last_label_exists(nodes, label, w, k - 1);
    }
}

proof fn lemma_last_id_unique(nodes: Seq<Node>, id: Seq<char>, i: int)
    requires
        0 <= i < nodes.len(),
        nodes[i].id@ == id,
        forall|j: int| i < j < nodes.len() ==> (#[trigger] nodes[j]).id@ != id,
    ensures
        last_id_index(nodes, id) == Some(i),
{
    reveal(last_id_index);
    let c = choose|c: int|
        0 <= c < nodes.len() && (#[trigger] nodes[c]).id@ == id && forall|j: int|
            c < j < nodes.len() ==> (#[trigger] nodes[j]).id@ != id;
    if c < i {
        assert(nodes[i].id@ != id);
    } else if c > i {
        assert(nodes[c].id@ != id);
    }
}

proof fn lemma_last_label_unique(nodes: Seq<Node>, label: Seq<char>, i: int)
    requires
        0 <= i < nodes.len(),
        has_label(nodes[i], label),
        forall|j: int| i < j < nodes.len() ==> !has_label(#[trigger] nodes[j], label),
    ensures
        last_label_index(nodes, label) == Some(i),
{
    reveal(last_label_index);
    let c = choose|c: int|
        0 <= c < nodes.len() && has_label(#[trigger] nodes[c], label) && forall|j: int|
            c < j < nodes.len() ==> !has_label(#[trigger] nodes[j], label);
    if c < i {
        assert(!has_label(nodes[i], label));
    } else if c > i {
        assert(!has_label(nodes[c], label));
    }
}

fn last_node_with_id(nodes: &Vec<Node>, id: &String) -> (res: Option<usize>)
    ensures
        match res {
            Some(i) => last_id_index(nodes@, id@) == Some(i as int) && i < nodes@.len(),
            None => last_id_index(nodes@, id@) is None,
        },
{
    let mut i: usize = nodes.len();
    while i > 0
        invariant
            i <= nodes@.len(),
            forall|j: int| i <= j < nodes@.len() ==> (#[trigger] nodes@[j]).id@ != id@,
        decreases i,
    {
        i -= 1;
        if nodes[i].id == *id {
            proof {
                lemma_last_id_unique(nodes@, id@, i as int);
            }
            return Some(i);
        }
    }
    proof {
        reveal(last_id_index);
    }
    None
}

fn last_node_with_label(nodes: &Vec<Node>, label: &[char]) -> (res: Option<usize>)
    ensures
        match res {
            Some(i) => last_label_index(nodes@, label@) == Some(i as int) && i < nodes@.len(),
            None => last_label_index(nodes@, label@) is None,
        },
{
    let mut i: usize = nodes.len();
    while i > 0
        invariant
            i <= nodes@.len(),
            forall|j: int| i <= j < nodes@.len() ==> !has_label(#[trigger] nodes@[j], label@),
        decreases i,
    {
        i -= 1;
        if node_has_label(&nodes[i], label) {
            proof {
                lemma_last_label_unique(nodes@, label@, i as int);
            }
            return Some(i);
        }
    }
    proof {
        reveal(last_label_index);
    }
    None
}

fn follows_exec(m: &Manifest, upward: bool, x: usize, e: usize) -> (res: bool)
    requires
        x < m.nodes@.len(),
        e < m.edges@.len(),
    ensures
        res == edge_follows(*m, upward, x as int, e as int),
{
    let edge = &m.edges[e];
    if upward {
        edge.to == m.nodes[x].id
    } else {
        edge.from == m.nodes[x].id && edge.relationship.is_downstream_engine_relationship()
    }
}

pub open spec fn count_true(s: Seq<bool>) -> nat
    decreases s.len(),
{
    if s.len() == 0 {
        0
    } else {
        count_true(s.drop_last()) + (if s.last() {
            1nat
        } else {
            0nat
        })
    }
}

proof fn lemma_count_bound(s: Seq<bool>)
    ensures
        count_true(s) <= s.len(),
    decreases s.len(),
{
    if s.len() > 0 {
        lemma_count_bound(s.drop_last());
    }
}

proof fn lemma_count_set(s: Seq<bool>, i: int)
    requires
        0 <= i < s.len(),
        !s[i],
    ensures
        count_true(s.update(i, true)) == count_true(s) + 1,
    decreases s.len(),
{
    if i == s.len() - 1 {
        assert(s.update(i, true).drop_last() =~= s.drop_last());
    } else {
        assert(s.update(i, true).drop_last() =~= s.drop_last().update(i, true));
        lemma_count_set(s.drop_last(), i);
    }
}

/// Node `x` has been handled: each edge it follows is kept and leads to a
/// visited node.
#[verifier::opaque]
pub open spec fn handled(m: Manifest, upward: bool, keep: Seq<bool>, vis: Seq<bool>, x: int) -> bool {
    forall|e: int|
        0 <= e < m.edges@.len() && #[trigger] edge_follows(m, upward, x, e) ==> keep[e] && (match edge_target(
            m,
            upward,
            e,
        ) {
            Some(y) => 0 <= y < vis.len() && vis[y],
            None => true,
        })
}

proof fn lemma_reaches_self(m: Manifest, upward: bool, a: int)
    requires
        0 <= a < m.nodes@.len(),
    ensures
        reaches(m, upward, a, a),
{
    reveal(reaches);
    let p = seq![a];
    assert(is_walk(m, upward, p));
}

proof fn lemma_reaches_step(m: Manifest, upward: bool, a: int, x: int, y: int)
    requires
        reaches(m, upward, a, x),
        step(m, upward, x, y),
        0 <= y < m.nodes@.len(),
    ensures
        reaches(m, upward, a, y),
{
    reveal(reaches);
    let p = choose|p: Seq<int>| #[trigger] is_walk(m, upward, p) && p[0] == a && p.last() == x;
    let q = p.push(y);
    assert forall|i: int| 0 <= i < q.len() - 1 implies #[trigger] step_at(m, upward, q, i) by {
        if i < p.len() - 1 {
            assert(step_at(m, upward, p, i));
        }
    }
    assert(is_walk(m, upward, q));
}

proof fn lemma_walk_visited(
    m: Manifest,
    upward: bool,
    keep: Seq<bool>,
    vis: Seq<bool>,
    p: Seq<int>,
    k: int,
)
    requires
        is_walk(m, upward, p),
        vis.len() == m.nodes@.len(),
        vis[p[0]],
        forall|x: int|
            0 <= x < m.nodes@.len() && vis[x] ==> #[trigger] handled(m, upward, keep, vis, x),
        0 <= k < p.len(),
    ensures
        vis[p[k]],
    decreases k,
{
    if k > 0 {
        lemma_walk_visited(m, upward, keep, vis, p, k - 1);
        assert(step_at(m, upward, p, k - 1));
        assert(handled(m, upward, keep, vis, p[k - 1]));
        lemma_handled_step(m, upward, keep, vis, p[k - 1], p[k]);
    }
}

proof fn lemma_handled_step(m: Manifest, upward: bool, keep: Seq<bool>, vis: Seq<bool>, x: int, y: int)
    requires
        handled(m, upward, keep, vis, x),
        step(m, upward, x, y),
    ensures
        vis[y],
{
    reveal(handled);
    reveal(step);
    let e = choose|e: int|
        0 <= e < m.edges@.len() && #[trigger] edge_follows(m, upward, x, e) && edge_target(
            m,
            upward,
            e,
        ) == Some(y);
}

proof fn lemma_walk_of(m: Manifest, upward: bool, a: int, b: int) -> (p: Seq<int>)
    requires
        reaches(m, upward, a, b),
    ensures
        is_walk(m, upward, p),
        p[0] == a,
        p.last() == b,
{
    reveal(reaches);
    choose|p: Seq<int>| #[trigger] is_walk(m, upward, p) && p[0] == a && p.last() == b
}

fn find_pending(visited: &Vec<bool>, done: &Vec<bool>) -> (res: Option<usize>)
    requires
        visited@.len() == done@.len(),
    ensures
        match res {
            Some(x) => x < visited@.len() && visited@[x as int] && !done@[x as int],
            None => forall|i: int| 0 <= i < visited@.len() && visited@[i] ==> done@[i],
        },
{
    let mut i: usize = 0;
    while i < visited.len()
        invariant
            i <= visited@.len() == done@.len(),
            forall|j: int| 0 <= j < i && visited@[j] ==> done@[j],
        decreases visited@.len() - i,
    {
        if visited[i] && !done[i] {
            return Some(i);
        }
        i += 1;
    }
    None
}

fn false_flags(n: usize) -> (res: Vec<bool>)
    ensures
        res@.len() == n,
        forall|i: int| 0 <= i < n ==> !res@[i],
{
    let mut v: Vec<bool> = Vec::new();
    let mut k: usize = 0;
    while k < n
        invariant
            k <= n,
            v@.len() == k,
            forall|i: int| 0 <= i < k ==> !v@[i],
        decreases n - k,
    {
        v.push(false);
        k += 1;
    }
    v
}

/// Mark every node reached from `start` in one direction, and every edge
/// followed on the way.
fn traverse(
    m: &Manifest,
    start: usize,
    upward: bool,
    keep_nodes: &mut Vec<bool>,
    keep_edges: &mut Vec<bool>,
)
    requires
        start < m.nodes@.len(),
        old(keep_nodes)@.len() == m.nodes@.len(),
        old(keep_edges)@.len() == m.edges@.len(),
        walk_ends_known(*m, upward, start as int),
    ensures
        final(keep_nodes)@.len() == m.nodes@.len(),
        final(keep_edges)@.len() == m.edges@.len(),
        forall|i: int|
            0 <= i < m.nodes@.len() ==> #[trigger] final(keep_nodes)@[i] == (old(keep_nodes)@[i]
                || reaches(*m, upward, start as int, i)),
        forall|e: int|
            0 <= e < m.edges@.len() ==> #[trigger] final(keep_edges)@[e] == (old(keep_edges)@[e]
                || edge_reached(*m, upward, start as int, e)),
{
    let ghost nodes0 = keep_nodes@;
    let ghost edges0 = keep_edges@;
    let n = m.nodes.len();
    let mut visited = false_flags(n);
    let mut done = false_flags(n);
    visited.set(start, true);
    keep_nodes.set(start, true);
    proof {
        lemma_reaches_self(*m, upward, start as int);
        lemma_count_bound(visited@);
        lemma_count_bound(done@);
    }
    let mut pending = find_pending(&visited, &done);
    while pending.is_some()
        invariant
            n == m.nodes@.len(),
            start < n,
            walk_ends_known(*m, upward, start as int),
            visited@.len() == n,
            done@.len() == n,
            keep_nodes@.len() == n,
            keep_edges@.len() == m.edges@.len(),
            count_true(visited@) <= n,
            count_true(done@) <= n,
            visited@[start as int],
            forall|i: int| 0 <= i < n && #[trigger] visited@[i] ==> reaches(*m, upward, start as int, i),
            forall|i: int| 0 <= i < n ==> #[trigger] keep_nodes@[i] == (nodes0[i] || visited@[i]),
            forall|e: int|
                0 <= e < m.edges@.len() ==> (#[trigger] keep_edges@[e] ==> edges0[e] || edge_reached(
                    *m,
                    upward,
                    start as int,
                    e,
                )),
            forall|e: int| 0 <= e < m.edges@.len() && #[trigger] edges0[e] ==> keep_edges@[e],
            forall|i: int|
                0 <= i < n && #[trigger] done@[i] ==> visited@[i] && handled(
                    *m,
                    upward,
                    keep_edges@,
                    visited@,
                    i,
                ),
            match pending {
                Some(x) => x < n && visited@[x as int] && !done@[x as int],
                None => forall|i: int| 0 <= i < n && visited@[i] ==> done@[i],
            },
        decreases 2 * n - count_true(visited@) - count_true(done@),
    {
        let x = match pending {
            Some(x) => x,
            None => 0,
        };
        let ghost vis_before = visited@;
        let ghost keep_before = keep_edges@;
        let ghost count_before = count_true(visited@);
        let mut e: usize = 0;
        while e < m.edges.len()
            invariant
                n == m.nodes@.len(),
                start < n,
                x < n,
                walk_ends_known(*m, upward, start as int),
                visited@.len() == n,
                done@.len() == n,
                keep_nodes@.len() == n,
                keep_edges@.len() == m.edges@.len(),
                e <= m.edges@.len(),
                visited@[x as int],
                visited@[start as int],
                !done@[x as int],
                count_true(visited@) >= count_before,
                count_true(visited@) <= n,
                forall|i: int| 0 <= i < n && #[trigger] vis_before[i] ==> visited@[i],
                forall|q: int| 0 <= q < m.edges@.len() && #[trigger] keep_before[q] ==> keep_edges@[q],
                forall|i: int|
                    0 <= i < n && #[trigger] visited@[i] ==> reaches(*m, upward, start as int, i),
                forall|i: int| 0 <= i < n ==> #[trigger] keep_nodes@[i] == (nodes0[i] || visited@[i]),
                forall|q: int|
                    0 <= q < m.edges@.len() ==> (#[trigger] keep_edges@[q] ==> edges0[q]
                        || edge_reached(*m, upward, start as int, q)),
                forall|q: int| 0 <= q < m.edges@.len() && #[trigger] edges0[q] ==> keep_edges@[q],
                forall|i: int|
                    0 <= i < n && #[trigger] done@[i] ==> vis_before[i] && handled(
                        *m,
                        upward,
                        keep_before,
                        vis_before,
                        i,
                    ),
                forall|q: int|
                    0 <= q < e && #[trigger] edge_follows(*m, upward, x as int, q) ==> keep_edges@[q]
                        && (match edge_target(*m, upward, q) {
                        Some(y) => 0 <= y < visited@.len() && visited@[y],
                        None => true,
                    }),
            decreases m.edges@.len() - e,
        {
            if follows_exec(m, upward, x, e) {
                let edge = &m.edges[e];
                let target = if upward {
                    &edge.from
                } else {
                    &edge.to
                };
                proof {
                    assert(reaches(*m, upward, start as int, x as int));
                    assert(edge_follows(*m, upward, x as int, e as int));
                    assert(edge_reached(*m, upward, start as int, e as int));
                }
                match last_node_with_id(&m.nodes, target) {
                    Some(y) => {
                        keep_edges.set(e, true);
                        proof {
                            assert(step(*m, upward, x as int, y as int)) by {
                                reveal(step);
                                assert(edge_follows(*m, upward, x as int, e as int));
                            }
                            lemma_reaches_step(*m, upward, start as int, x as int, y as int);
                        }
                        if !visited[y] {
                            proof {
                                lemma_count_set(visited@, y as int);
                            }
                            visited.set(y, true);
                            proof {
                                lemma_count_bound(visited@);
                            }
                        }
                        keep_nodes.set(y, true);
                    },
                    None => {
                        proof {
                            assert(edge_target(*m, upward, e as int) is Some);
                        }
                    },
                }
            }
            e += 1;
        }
        proof {
            assert forall|i: int| 0 <= i < n && #[trigger] done@[i] implies handled(
                *m,
                upward,
                keep_edges@,
                visited@,
                i,
            ) by {
                reveal(handled);
                assert forall|q: int|
                    0 <= q < m.edges@.len() && #[trigger] edge_follows(*m, upward, i, q) implies keep_edges@[q]
                        && (match edge_target(*m, upward, q) {
                        Some(y) => 0 <= y < visited@.len() && visited@[y],
                        None => true,
                    }) by {
                    reveal(handled);
                    assert(keep_before[q]);
                    match edge_target(*m, upward, q) {
                        Some(y) => {
                            assert(vis_before[y]);
                        },
                        None => {},
                    }
                }
            }
            lemma_count_set(done@, x as int);
            assert(handled(*m, upward, keep_edges@, visited@, x as int)) by {
                reveal(handled);
            }
        }
        let ghost done_before = done@;
        done.set(x, true);
        proof {
            lemma_count_bound(done@);
            assert forall|i: int| 0 <= i < n && #[trigger] done@[i] implies visited@[i] && handled(
                *m,
                upward,
                keep_edges@,
                visited@,
                i,
            ) by {
                if i != x {
                    assert(done_before[i]);
                }
            }
        }
        pending = find_pending(&visited, &done);
    }
    proof {
        assert forall|x: int| 0 <= x < n && visited@[x] implies #[trigger] handled(
            *m,
            upward,
            keep_edges@,
            visited@,
            x,
        ) by {
            assert(done@[x]);
        }
        assert forall|i: int| 0 <= i < n implies #[trigger] keep_nodes@[i] == (nodes0[i] || reaches(
            *m,
            upward,
            start as int,
            i,
        )) by {
            if reaches(*m, upward, start as int, i) {
                let p = lemma_walk_of(*m, upward, start as int, i);
                lemma_walk_visited(*m, upward, keep_edges@, visited@, p, p.len() - 1);
            }
        }
        assert forall|q: int| 0 <= q < m.edges@.len() implies #[trigger] keep_edges@[q] == (edges0[q]
            || edge_reached(*m, upward, start as int, q)) by {
            if edge_reached(*m, upward, start as int, q) {
                let x = choose|x: int|
                    0 <= x < m.nodes@.len() && reaches(*m, upward, start as int, x)
                        && #[trigger] edge_follows(*m, upward, x, q);
                let p = lemma_walk_of(*m, upward, start as int, x);
                lemma_walk_visited(*m, upward, keep_edges@, visited@, p, p.len() - 1);
                assert(handled(*m, upward, keep_edges@, visited@, x));
                reveal(handled);
            }
        }
    }
}


proof fn lemma_select_step<T>(s: Seq<T>, keep: Seq<bool>, i: int)
    requires
        0 <= i < s.len(),
        s.len() == keep.len(),
    ensures
        select(s.take(i + 1), keep.take(i + 1)) == (if keep[i] {
            select(s.take(i), keep.take(i)).push(s[i])
        } else {
            select(s.take(i), keep.take(i))
        }),
{
    assert(s.take(i + 1).drop_last() =~= s.take(i));
    assert(keep.take(i + 1).take(i) =~= keep.take(i));
}

fn select_nodes(nodes: &Vec<Node>, keep: &Vec<bool>) -> (res: Vec<Node>)
    requires
        nodes@.len() == keep@.len(),
    ensures
        node_views(res@) == select(node_views(nodes@), keep@),
{
    let ghost views = node_views(nodes@);
    let mut out: Vec<Node> = Vec::new();
    let mut i: usize = 0;
    while i < nodes.len()
        invariant
            i <= nodes@.len() == keep@.len(),
            views == node_views(nodes@),
            node_views(out@) == select(views.take(i as int), keep@.take(i as int)),
        decreases nodes@.len() - i,
    {
        proof {
            lemma_select_step(views, keep@, i as int);
        }
        if keep[i] {
            let ghost before = out@;
            out.push(clone_node(&nodes[i]));
            proof {
                assert(node_views(out@) =~= node_views(before).push(nodes@[i as int]@));
            }
        }
        i += 1;
    }
    proof {
        assert(views.take(nodes@.len() as int) =~= views);
        assert(keep@.take(nodes@.len() as int) =~= keep@);
    }
    out
}

fn select_edges(edges: &Vec<Edge>, keep: &Vec<bool>) -> (res: Vec<Edge>)
    requires
        edges@.len() == keep@.len(),
    ensures
        edge_views(res@) == select(edge_views(edges@), keep@),
{
    let ghost views = edge_views(edges@);
    let mut out: Vec<Edge> = Vec::new();
    let mut i: usize = 0;
    while i < edges.len()
        invariant
            i <= edges@.len() == keep@.len(),
            views == edge_views(edges@),
            edge_views(out@) == select(views.take(i as int), keep@.take(i as int)),
        decreases edges@.len() - i,
    {
        proof {
            lemma_select_step(views, keep@, i as int);
        }
        if keep[i] {
            let ghost before = out@;
            out.push(clone_edge(&edges[i]));
            proof {
                assert(edge_views(out@) =~= edge_views(before).push(edges@[i as int]@));
            }
        }
        i += 1;
    }
    proof {
        assert(views.take(edges@.len() as int) =~= views);
        assert(keep@.take(edges@.len() as int) =~= keep@);
    }
    out
}

fn clone_manifest(m: &Manifest) -> (res: Manifest)
    ensures
        res@ == m@,
{
    let mut nodes: Vec<Node> = Vec::new();
    let mut i: usize = 0;
    while i < m.nodes.len()
        invariant
            i <= m.nodes@.len(),
            node_views(nodes@) == node_views(m.nodes@).take(i as int),
        decreases m.nodes@.len() - i,
    {
        let ghost before = nodes@;
        nodes.push(clone_node(&m.nodes[i]));
        proof {
            assert(node_views(nodes@) =~= node_views(before).push(m.nodes@[i as int]@));
            assert(node_views(m.nodes@).take(i + 1) =~= node_views(m.nodes@).take(i as int).push(
                m.nodes@[i as int]@,
            ));
        }
        i += 1;
    }
    let mut edges: Vec<Edge> = Vec::new();
    let mut j: usize = 0;
    while j < m.edges.len()
        invariant
            j <= m.edges@.len(),
            edge_views(edges@) == edge_views(m.edges@).take(j as int),
        decreases m.edges@.len() - j,
    {
        let ghost before = edges@;
        edges.push(clone_edge(&m.edges[j]));
        proof {
            assert(edge_views(edges@) =~= edge_views(before).push(m.edges@[j as int]@));
            assert(edge_views(m.edges@).take(j + 1) =~= edge_views(m.edges@).take(j as int).push(
                m.edges@[j as int]@,
            ));
        }
        j += 1;
    }
    proof {
        assert(node_views(m.nodes@).take(m.nodes@.len() as int) =~= node_views(m.nodes@));
        assert(edge_views(m.edges@).take(m.edges@.len() as int) =~= edge_views(m.edges@));
    }
    Manifest { schema_version: m.schema_version, nodes, edges }
}

proof fn lemma_kept_extend(m: Manifest, fs: Seq<Seq<char>>, k: int, s: int)
    requires
        0 <= k < fs.len(),
        selected(m, fs, k) == Some(s),
    ensures
        forall|i: int|
            #[trigger] kept_node(m, fs.take(k + 1), i) == (kept_node(m, fs.take(k), i) || reaches(
                m,
                true,
                s,
                i,
            ) || reaches(m, false, s, i)),
        forall|e: int|
            #[trigger] kept_edge(m, fs.take(k + 1), e) == (kept_edge(m, fs.take(k), e)
                || edge_reached(m, true, s, e) || edge_reached(m, false, s, e)),
{
    let a = fs.take(k + 1);
    let b = fs.take(k);
    assert forall|j: int| 0 <= j < k implies #[trigger] selected(m, a, j) == selected(m, b, j) by {
        assert(a[j] == b[j]);
    }
    assert(selected(m, a, k) == Some(s)) by {
        assert(a[k] == fs[k]);
    }
    assert forall|i: int|
        #[trigger] kept_node(m, a, i) == (kept_node(m, b, i) || reaches(m, true, s, i) || reaches(
            m,
            false,
            s,
            i,
        )) by {
        if kept_node(m, a, i) {
            let j = choose|j: int|
                0 <= j < a.len() && (#[trigger] selected(m, a, j) matches Some(t) && (reaches(
                    m,
                    true,
                    t,
                    i,
                ) || reaches(m, false, t, i)));
            if j < k {
                assert(selected(m, b, j) == selected(m, a, j));
            }
        }
        if kept_node(m, b, i) {
            let j = choose|j: int|
                0 <= j < b.len() && (#[trigger] selected(m, b, j) matches Some(t) && (reaches(
                    m,
                    true,
                    t,
                    i,
                ) || reaches(m, false, t, i)));
            assert(selected(m, a, j) == selected(m, b, j));
        }
        if reaches(m, true, s, i) || reaches(m, false, s, i) {
            assert(selected(m, a, k) == Some(s));
        }
    }
    assert forall|e: int|
        #[trigger] kept_edge(m, a, e) == (kept_edge(m, b, e) || edge_reached(m, true, s, e)
            || edge_reached(m, false, s, e)) by {
        if kept_edge(m, a, e) {
            let j = choose|j: int|
                0 <= j < a.len() && (#[trigger] selected(m, a, j) matches Some(t) && (edge_reached(
                    m,
                    true,
                    t,
                    e,
                ) || edge_reached(m, false, t, e)));
            if j < k {
                assert(selected(m, b, j) == selected(m, a, j));
            }
        }
        if kept_edge(m, b, e) {
            let j = choose|j: int|
                0 <= j < b.len() && (#[trigger] selected(m, b, j) matches Some(t) && (edge_reached(
                    m,
                    true,
                    t,
                    e,
                ) || edge_reached(m, false, t, e)));
            assert(selected(m, a, j) == selected(m, b, j));
        }
        if edge_reached(m, true, s, e) || edge_reached(m, false, s, e) {
            assert(selected(m, a, k) == Some(s));
        }
    }
}

/// Filter a manifest to the nodes that the filters name (by ID, name or
/// alias) together with their owners, upward, and the engines they use or
/// compile, downward, and the edges followed on the way. Nodes and edges
/// keep their order. No filters keep everything; a filter that names no
/// node is an error.
pub fn filter_manifest(manifest: &Manifest, filters: &[&str]) -> (res: Result<
    Manifest,
    ToolchainError,
>)
    requires
        filter_walks_known(*manifest, filter_texts(filters@)),
    ensures
        filters@.len() == 0 ==> (res matches Ok(r) && r@ == manifest@),
        filters@.len() > 0 ==> match first_unknown(*manifest, filter_texts(filters@)) {
            Some(k) => res matches Err(e) && e@ == ErrorModel::UnknownFilter(
                filter_texts(filters@)[k],
            ),
            None => res matches Ok(r) && r@ == filtered(*manifest, filter_texts(filters@)),
        },
{
    if filters.len() == 0 {
        return Ok(clone_manifest(manifest));
    }
    let ghost fs = filter_texts(filters@);
    let mut keep_nodes = false_flags(manifest.nodes.len());
    let mut keep_edges = false_flags(manifest.edges.len());
    let mut k: usize = 0;
    while k < filters.len()
        invariant
            k <= filters@.len(),
            fs == filter_texts(filters@),
            filter_walks_known(*manifest, fs),
            keep_nodes@.len() == manifest.nodes@.len(),
            keep_edges@.len() == manifest.edges@.len(),
            forall|j: int| 0 <= j < k ==> #[trigger] selected(*manifest, fs, j) is Some,
            forall|i: int|
                0 <= i < manifest.nodes@.len() ==> #[trigger] keep_nodes@[i] == kept_node(
                    *manifest,
                    fs.take(k as int),
                    i,
                ),
            forall|e: int|
                0 <= e < manifest.edges@.len() ==> #[trigger] keep_edges@[e] == kept_edge(
                    *manifest,
                    fs.take(k as int),
                    e,
                ),
        decreases filters@.len() - k,
    {
        let label = str_chars(filters[k]);
        proof {
            assert(fs[k as int] == filters@[k as int]@);
        }
        match last_node_with_label(&manifest.nodes, label.as_slice()) {
            None => {
                proof {
                    assert(selected(*manifest, fs, k as int) is None);
                    let c = choose|c: int|
                        0 <= c < fs.len() && #[trigger] selected(*manifest, fs, c) is None
                            && forall|j: int|
                            0 <= j < c ==> #[trigger] selected(*manifest, fs, j) is Some;
                    if c > k {
                        assert(selected(*manifest, fs, k as int) is Some);
                    }
                    if c < k {
                        assert(selected(*manifest, fs, c) is Some);
                    }
                }
                return Err(ToolchainError::UnknownFilter(String::from_str(filters[k])));
            },
            Some(s) => {
                proof {
                    assert(selected(*manifest, fs, k as int) == Some(s as int));
                    assert(walk_ends_known(*manifest, true, s as int));
                }
                let ghost before_nodes = keep_nodes@;
                keep_nodes.set(s, true);
                traverse(manifest, s, true, &mut keep_nodes, &mut keep_edges);
                traverse(manifest, s, false, &mut keep_nodes, &mut keep_edges);
                proof {
                    lemma_kept_extend(*manifest, fs, k as int, s as int);
                    lemma_reaches_self(*manifest, true, s as int);
                    assert forall|i: int| 0 <= i < manifest.nodes@.len() implies #[trigger] keep_nodes@[i]
                        == kept_node(*manifest, fs.take(k + 1), i) by {
                        assert(kept_node(*manifest, fs.take(k + 1), i) == (kept_node(
                            *manifest,
                            fs.take(k as int),
                            i,
                        ) || reaches(*manifest, true, s as int, i) || reaches(
                            *manifest,
                            false,
                            s as int,
                            i,
                        )));
                        if i != s {
                            assert(before_nodes[i] == kept_node(*manifest, fs.take(k as int), i));
                        }
                    }
                    assert forall|e: int| 0 <= e < manifest.edges@.len() implies #[trigger] keep_edges@[e]
                        == kept_edge(*manifest, fs.take(k + 1), e) by {
                        assert(kept_edge(*manifest, fs.take(k + 1), e) == (kept_edge(
                            *manifest,
                            fs.take(k as int),
                            e,
                        ) || edge_reached(*manifest, true, s as int, e) || edge_reached(
                            *manifest,
                            false,
                            s as int,
                            e,
                        )));
                    }
                }
            },
        }
        k += 1;
    }
    proof {
        assert(fs.take(fs.len() as int) =~= fs);
        assert(keep_nodes@ =~= node_flags(*manifest, fs));
        assert(keep_edges@ =~= edge_flags(*manifest, fs));
        if exists|j: int| 0 <= j < fs.len() && #[trigger] selected(*manifest, fs, j) is None {
            let j = choose|j: int| 0 <= j < fs.len() && #[trigger] selected(*manifest, fs, j) is None;
            assert(selected(*manifest, fs, j) is Some);
        }
    }
    let nodes = select_nodes(&manifest.nodes, &keep_nodes);
    let edges = select_edges(&manifest.edges, &keep_edges);
    Ok(Manifest { schema_version: manifest.schema_version, nodes, edges })
}


// ---------------------------------------------------------------------------
// Laws of filtering.
// ---------------------------------------------------------------------------

proof fn lemma_kept_subset(m: Manifest, fs1: Seq<Seq<char>>, fs2: Seq<Seq<char>>)
    requires
        forall|a: int| 0 <= a < fs1.len() ==> fs2.contains(#[trigger] fs1[a]),
    ensures
        forall|i: int| #[trigger] kept_node(m, fs1, i) ==> kept_node(m, fs2, i),
        forall|e: int| #[trigger] kept_edge(m, fs1, e) ==> kept_edge(m, fs2, e),
        first_unknown(m, fs2) is None ==> first_unknown(m, fs1) is None,
{
    assert forall|i: int| #[trigger] kept_node(m, fs1, i) implies kept_node(m, fs2, i) by {
        let a = choose|a: int|
            0 <= a < fs1.len() && (#[trigger] selected(m, fs1, a) matches Some(t) && (reaches(
                m,
                true,
                t,
                i,
            ) || reaches(m, false, t, i)));
        assert(fs2.contains(fs1[a]));
        let b = choose|b: int| 0 <= b < fs2.len() && fs2[b] == fs1[a];
        assert(selected(m, fs2, b) == selected(m, fs1, a));
    }
    assert forall|e: int| #[trigger] kept_edge(m, fs1, e) implies kept_edge(m, fs2, e) by {
        let a = choose|a: int|
            0 <= a < fs1.len() && (#[trigger] selected(m, fs1, a) matches Some(t) && (edge_reached(
                m,
                true,
                t,
                e,
            ) || edge_reached(m, false, t, e)));
        assert(fs2.contains(fs1[a]));
        let b = choose|b: int| 0 <= b < fs2.len() && fs2[b] == fs1[a];
        assert(selected(m, fs2, b) == selected(m, fs1, a));
    }
    if first_unknown(m, fs2) is None && first_unknown(m, fs1) is Some {
        let a = choose|a: int| 0 <= a < fs1.len() && #[trigger] selected(m, fs1, a) is None;
        assert(fs2.contains(fs1[a]));
        let b = choose|b: int| 0 <= b < fs2.len() && fs2[b] == fs1[a];
        assert(selected(m, fs2, b) is None);
    }
}

/// Filtering depends on the set of filters alone: two lists of filters with
/// the same members (in any order, with any repetition) fail together and
/// otherwise keep the same nodes and edges.
pub proof fn law_filter_order_independent(m: Manifest, fs1: Seq<Seq<char>>, fs2: Seq<Seq<char>>)
    requires
        forall|a: int| 0 <= a < fs1.len() ==> fs2.contains(#[trigger] fs1[a]),
        forall|b: int| 0 <= b < fs2.len() ==> fs1.contains(#[trigger] fs2[b]),
    ensures
        (first_unknown(m, fs1) is None) == (first_unknown(m, fs2) is None),
        filtered(m, fs1) == filtered(m, fs2),
{
    lemma_kept_subset(m, fs1, fs2);
    lemma_kept_subset(m, fs2, fs1);
    assert(node_flags(m, fs1) =~= node_flags(m, fs2));
    assert(edge_flags(m, fs1) =~= edge_flags(m, fs2));
}

/// Several filters keep the union of what each keeps alone.
pub proof fn law_filter_union(m: Manifest, fs1: Seq<Seq<char>>, fs2: Seq<Seq<char>>)
    ensures
        forall|i: int|
            #[trigger] kept_node(m, fs1 + fs2, i) == (kept_node(m, fs1, i) || kept_node(m, fs2, i)),
        forall|e: int|
            #[trigger] kept_edge(m, fs1 + fs2, e) == (kept_edge(m, fs1, e) || kept_edge(m, fs2, e)),
        (first_unknown(m, fs1 + fs2) is None) == (first_unknown(m, fs1) is None && first_unknown(
            m,
            fs2,
        ) is None),
{
    let u = fs1 + fs2;
    assert forall|a: int| 0 <= a < fs1.len() implies u.contains(#[trigger] fs1[a]) by {
        assert(u[a] == fs1[a]);
    }
    assert forall|a: int| 0 <= a < fs2.len() implies u.contains(#[trigger] fs2[a]) by {
        assert(u[fs1.len() + a] == fs2[a]);
    }
    lemma_kept_subset(m, fs1, u);
    lemma_kept_subset(m, fs2, u);
    assert forall|i: int| #[trigger] kept_node(m, u, i) implies kept_node(m, fs1, i) || kept_node(
        m,
        fs2,
        i,
    ) by {
        let a = choose|a: int|
            0 <= a < u.len() && (#[trigger] selected(m, u, a) matches Some(t) && (reaches(
                m,
                true,
                t,
                i,
            ) || reaches(m, false, t, i)));
        if a < fs1.len() {
            assert(selected(m, fs1, a) == selected(m, u, a));
        } else {
            assert(selected(m, fs2, a - fs1.len()) == selected(m, u, a));
        }
    }
    assert forall|e: int| #[trigger] kept_edge(m, u, e) implies kept_edge(m, fs1, e) || kept_edge(
        m,
        fs2,
        e,
    ) by {
        let a = choose|a: int|
            0 <= a < u.len() && (#[trigger] selected(m, u, a) matches Some(t) && (edge_reached(
                m,
                true,
                t,
                e,
            ) || edge_reached(m, false, t, e)));
        if a < fs1.len() {
            assert(selected(m, fs1, a) == selected(m, u, a));
        } else {
            assert(selected(m, fs2, a - fs1.len()) == selected(m, u, a));
        }
    }
    if first_unknown(m, u) is Some {
        let a = choose|a: int| 0 <= a < u.len() && #[trigger] selected(m, u, a) is None;
        if a < fs1.len() {
            assert(selected(m, fs1, a) is None);
        } else {
            assert(selected(m, fs2, a - fs1.len()) is None);
        }
    }
}

/// Several filters keep what some one of them keeps alone.
pub proof fn law_filter_union_of_singles(m: Manifest, fs: Seq<Seq<char>>)
    ensures
        forall|i: int|
            #[trigger] kept_node(m, fs, i) == exists|k: int|
                0 <= k < fs.len() && #[trigger] kept_node(m, seq![fs[k]], i),
        forall|e: int|
            #[trigger] kept_edge(m, fs, e) == exists|k: int|
                0 <= k < fs.len() && #[trigger] kept_edge(m, seq![fs[k]], e),
{
    assert forall|k: int| 0 <= k < fs.len() implies #[trigger] selected(m, seq![fs[k]], 0) == selected(
        m,
        fs,
        k,
    ) by {}
    assert forall|i: int| #[trigger] kept_node(m, fs, i) implies exists|k: int|
        0 <= k < fs.len() && #[trigger] kept_node(m, seq![fs[k]], i) by {
        let k = choose|k: int|
            0 <= k < fs.len() && (#[trigger] selected(m, fs, k) matches Some(t) && (reaches(
                m,
                true,
                t,
                i,
            ) || reaches(m, false, t, i)));
        assert(selected(m, seq![fs[k]], 0) == selected(m, fs, k));
        assert(kept_node(m, seq![fs[k]], i));
    }
    assert forall|i: int, k: int|
        0 <= k < fs.len() && #[trigger] kept_node(m, seq![fs[k]], i) implies kept_node(m, fs, i) by {
        let j = choose|j: int|
            0 <= j < 1 && (#[trigger] selected(m, seq![fs[k]], j) matches Some(t) && (reaches(
                m,
                true,
                t,
                i,
            ) || reaches(m, false, t, i)));
        assert(j == 0);
        assert(selected(m, seq![fs[k]], 0) == selected(m, fs, k));
    }
    assert forall|e: int| #[trigger] kept_edge(m, fs, e) implies exists|k: int|
        0 <= k < fs.len() && #[trigger] kept_edge(m, seq![fs[k]], e) by {
        let k = choose|k: int|
            0 <= k < fs.len() && (#[trigger] selected(m, fs, k) matches Some(t) && (edge_reached(
                m,
                true,
                t,
                e,
            ) || edge_reached(m, false, t, e)));
        assert(selected(m, seq![fs[k]], 0) == selected(m, fs, k));
        assert(kept_edge(m, seq![fs[k]], e));
    }
    assert forall|e: int, k: int|
        0 <= k < fs.len() && #[trigger] kept_edge(m, seq![fs[k]], e) implies kept_edge(m, fs, e) by {
        let j = choose|j: int|
            0 <= j < 1 && (#[trigger] selected(m, seq![fs[k]], j) matches Some(t) && (edge_reached(
                m,
                true,
                t,
                e,
            ) || edge_reached(m, false, t, e)));
        assert(j == 0);
        assert(selected(m, seq![fs[k]], 0) == selected(m, fs, k));
    }
}

/// The node a filter names is always kept.
pub proof fn law_selected_node_kept(m: Manifest, fs: Seq<Seq<char>>, k: int)
    requires
        0 <= k < fs.len(),
        selected(m, fs, k) is Some,
    ensures
        kept_node(m, fs, selected(m, fs, k)->0),
{
    lemma_last_label_index(m.nodes@, fs[k]);
    let s = selected(m, fs, k)->0;
    lemma_reaches_self(m, true, s);
}


// ---------------------------------------------------------------------------
// Text output.
// ---------------------------------------------------------------------------

/// How a node reads in human output: a build time replaces the version.
pub open spec fn display_text(n: Node) -> Seq<char> {
    match (n.version, n.built_at, n.revision) {
        (_, Some(b), Some(r)) => n.name@ + " (built "@ + b@ + ", revision "@ + r@ + ")"@,
        (_, Some(b), None) => n.name@ + " (built "@ + b@ + ")"@,
        (Some(v), None, Some(r)) => n.name@ + "@"@ + v@ + " ("@ + r@ + ")"@,
        (Some(v), None, None) => n.name@ + "@"@ + v@,
        (None, None, Some(r)) => n.name@ + " (revision "@ + r@ + ")"@,
        (None, None, None) => n.name@,
    }
}

fn display_chars(n: &Node, out: &mut Vec<char>)
    ensures
        final(out)@ == old(out)@ + display_text(*n),
{
    let ghost start = out@;
    push_str(out, n.name.as_str());
    match (&n.version, &n.built_at, &n.revision) {
        (_, Some(b), Some(r)) => {
            push_str(out, " (built ");
            push_str(out, b.as_str());
            push_str(out, ", revision ");
            push_str(out, r.as_str());
            push_str(out, ")");
        },
        (_, Some(b), None) => {
            push_str(out, " (built ");
            push_str(out, b.as_str());
            push_str(out, ")");
        },
        (Some(v), None, Some(r)) => {
            push_str(out, "@");
            push_str(out, v.as_str());
            push_str(out, " (");
            push_str(out, r.as_str());
            push_str(out, ")");
        },
        (Some(v), None, None) => {
            push_str(out, "@");
            push_str(out, v.as_str());
        },
        (None, None, Some(r)) => {
            push_str(out, " (revision ");
            push_str(out, r.as_str());
            push_str(out, ")");
        },
        (None, None, None) => {},
    }
    proof {
        assert(out@ =~= start + display_text(*n));
    }
}

/// A node as human output shows it: its name, then its version, build time
/// or revision.
pub fn display_node(node: &Node) -> (res: String)
    ensures
        res@ == display_text(*node),
{
    let mut out: Vec<char> = Vec::new();
    display_chars(node, &mut out);
    proof {
        assert(out@ =~= display_text(*node));
    }
    chars_to_string(out.as_slice())
}

/// The distinct nodes (by ID) that the queries name, in query order; each
/// query names the first node with that label.
pub open spec fn hint_nodes(nodes: Seq<Node>, qs: Seq<Seq<char>>) -> Seq<Node>
    decreases qs.len(),
{
    if qs.len() == 0 {
        seq![]
    } else {
        let prev = hint_nodes(nodes, qs.drop_last());
        match first_with_label(nodes, qs.last()) {
            Some(i) => if exists|j: int| 0 <= j < prev.len() && (#[trigger] prev[j]).id@ == nodes[i].id@ {
                prev
            } else {
                prev.push(nodes[i])
            },
            None => prev,
        }
    }
}

pub open spec fn hint_text(hn: Seq<Node>) -> Seq<char> {
    "Vite+ also provides "@ + joined(hn.map_values(|n: Node| display_text(n)), ", "@)
        + " through its toolchain.\nRun `vp toolchain "@ + joined(
        hn.map_values(|n: Node| n.name@),
        " "@,
    ) + "` to show these versions and relationships."@
}

proof fn lemma_first_label_unique(nodes: Seq<Node>, label: Seq<char>, i: int)
    requires
        0 <= i < nodes.len(),
        has_label(nodes[i], label),
        forall|j: int| 0 <= j < i ==> !has_label(#[trigger] nodes[j], label),
    ensures
        first_with_label(nodes, label) == Some(i),
{
    let c = choose|c: int|
        0 <= c < nodes.len() && has_label(#[trigger] nodes[c], label) && forall|j: int|
            0 <= j < c ==> !has_label(#[trigger] nodes[j], label);
    if c < i {
        assert(!has_label(nodes[c], label));
    } else if c > i {
        assert(!has_label(nodes[i], label));
    }
}

/// The hint shown after a failed lookup of a package that Vite+ itself
/// provides: which of the queried labels name toolchain nodes, and the
/// command that shows them.
pub fn why_hint(manifest: &Manifest, queries: &[&str]) -> (res: Option<String>)
    ensures
        ({
            let hn = hint_nodes(manifest.nodes@, filter_texts(queries@));
            match res {
                Some(t) => hn.len() > 0 && t@ == hint_text(hn),
                None => hn.len() == 0,
            }
        }),
{
    let ghost qs = filter_texts(queries@);
    let mut matched: Vec<usize> = Vec::new();
    let mut k: usize = 0;
    while k < queries.len()
        invariant
            k <= queries@.len(),
            qs == filter_texts(queries@),
            matched@.len() == hint_nodes(manifest.nodes@, qs.take(k as int)).len(),
            forall|j: int|
                0 <= j < matched@.len() ==> #[trigger] matched@[j] < manifest.nodes@.len()
                    && hint_nodes(manifest.nodes@, qs.take(k as int))[j] == manifest.nodes@[matched@[j] as int],
        decreases queries@.len() - k,
    {
        let ghost prev = hint_nodes(manifest.nodes@, qs.take(k as int));
        proof {
            assert(qs.take(k + 1).drop_last() =~= qs.take(k as int));
            assert(qs.take(k + 1).last() == queries@[k as int]@);
        }
        let label = str_chars(queries[k]);
        match node_index_by_label(&manifest.nodes, label.as_slice()) {
            Some(i) => {
                proof {
                    lemma_first_label_unique(manifest.nodes@, label@, i as int);
                }
                let mut seen = false;
                let mut j: usize = 0;
                while j < matched.len()
                    invariant
                        j <= matched@.len() == prev.len(),
                        i < manifest.nodes@.len(),
                        prev == hint_nodes(manifest.nodes@, qs.take(k as int)),
                        forall|q: int|
                            0 <= q < matched@.len() ==> #[trigger] matched@[q] < manifest.nodes@.len()
                                && prev[q] == manifest.nodes@[matched@[q] as int],
                        seen == exists|q: int|
                            0 <= q < j && (#[trigger] prev[q]).id@ == manifest.nodes@[i as int].id@,
                    decreases matched@.len() - j,
                {
                    let ghost q0 = j as int;
                    if manifest.nodes[matched[j]].id == manifest.nodes[i].id {
                        seen = true;
                        proof {
                            assert(prev[q0].id@ == manifest.nodes@[i as int].id@);
                        }
                    }
                    j += 1;
                }
                if !seen {
                    matched.push(i);
                }
            },
            None => {},
        }
        k += 1;
    }
    proof {
        assert(qs.take(queries@.len() as int) =~= qs);
    }
    if matched.len() == 0 {
        return None;
    }
    let ghost hn = hint_nodes(manifest.nodes@, qs);
    let mut provided: Vec<char> = Vec::new();
    let mut names: Vec<char> = Vec::new();
    let mut j: usize = 0;
    while j < matched.len()
        invariant
            j <= matched@.len() == hn.len(),
            hn.len() > 0,
            forall|q: int|
                0 <= q < matched@.len() ==> #[trigger] matched@[q] < manifest.nodes@.len() && hn[q]
                    == manifest.nodes@[matched@[q] as int],
            provided@ == joined(hn.take(j as int).map_values(|n: Node| display_text(n)), ", "@),
            names@ == joined(hn.take(j as int).map_values(|n: Node| n.name@), " "@),
        decreases matched@.len() - j,
    {
        let node = &manifest.nodes[matched[j]];
        proof {
            assert(hn.take(j + 1).map_values(|n: Node| display_text(n)) =~= hn.take(
                j as int,
            ).map_values(|n: Node| display_text(n)).push(display_text(hn[j as int])));
            assert(hn.take(j + 1).map_values(|n: Node| n.name@) =~= hn.take(j as int).map_values(
                |n: Node| n.name@,
            ).push(hn[j as int].name@));
            lemma_joined_push(
                hn.take(j as int).map_values(|n: Node| display_text(n)),
                ", "@,
                display_text(hn[j as int]),
            );
            lemma_joined_push(hn.take(j as int).map_values(|n: Node| n.name@), " "@, hn[j as int].name@);
        }
        if j > 0 {
            push_str(&mut provided, ", ");
            push_str(&mut names, " ");
        }
        display_chars(node, &mut provided);
        push_str(&mut names, node.name.as_str());
        j += 1;
    }
    proof {
        assert(hn.take(hn.len() as int) =~= hn);
    }
    let mut out = str_chars("Vite+ also provides ");
    push_all(&mut out, provided.as_slice());
    push_str(&mut out, " through its toolchain.\nRun `vp toolchain ");
    push_all(&mut out, names.as_slice());
    push_str(&mut out, "` to show these versions and relationships.");
    proof {
        assert(out@ =~= hint_text(hn));
    }
    Some(chars_to_string(out.as_slice()))
}


// ---------------------------------------------------------------------------
// Reports.
// ---------------------------------------------------------------------------

proof fn lemma_edges_known(m: Manifest, k: int)
    requires
        0 <= k <= m.edges@.len(),
        edges_error(m, k) is None,
    ensures
        forall|e: int|
            0 <= e < k ==> is_node_id(m.nodes@, (#[trigger] m.edges@[e]).from@) && is_node_id(
                m.nodes@,
                m.edges@[e].to@,
            ),
    decreases k,
{
    if k > 0 {
        lemma_edges_known(m, k - 1);
    }
}

proof fn lemma_known_edges_walk(m: Manifest, fs: Seq<Seq<char>>)
    requires
        edges_known(m),
    ensures
        filter_walks_known(m, fs),
{
    assert forall|upward: bool, e: int|
        0 <= e < m.edges@.len() implies #[trigger] edge_target(m, upward, e) is Some by {
        reveal(last_id_index);
        let id = if upward { m.edges@[e].from@ } else { m.edges@[e].to@ };
        assert(is_node_id(m.nodes@, m.edges@[e].from@));
        assert(is_node_id(m.nodes@, m.edges@[e].to@));
        let j = choose|j: int| 0 <= j < m.nodes@.len() && (#[trigger] m.nodes@[j]).id@ == id;
        lemma_last_index_exists(m.nodes@, id, j);
    }
}

/// A manifest that validates meets the precondition of `filter_manifest`
/// for every list of filters: the walks of its filters meet only known
/// nodes.
pub proof fn lemma_valid_filter_walks_known(m: Manifest, fs: Seq<Seq<char>>)
    requires
        validate_spec(m) is Ok,
    ensures
        filter_walks_known(m, fs),
{
    law_validation_accepts_exactly_valid(m);
    lemma_known_edges_walk(m, fs);
}

proof fn lemma_last_index_exists(nodes: Seq<Node>, id: Seq<char>, j: int)
    requires
        0 <= j < nodes.len(),
        nodes[j].id@ == id,
    ensures
        last_id_index(nodes, id) is Some,
{
    reveal(last_id_index);
    assert(exists|i: int| 0 <= i < nodes.len() && (#[trigger] nodes[i]).id@ == id);
}

/// Whether a report holds the source and, in the order given, the nodes and
/// edges of a manifest model.
pub open spec fn report_of(r: Report, mm: ManifestModel, source: Source) -> bool {
    &&& r.schema_version == mm.schema_version
    &&& r.source == source
    &&& node_views(r.nodes@) == mm.nodes
    &&& edge_views(r.edges@) == mm.edges
}

/// Validate the manifest, then filter it, and attach the source.
pub fn build_report(manifest: &Manifest, filters: &[&str], source: Source) -> (res: Result<
    Report,
    ToolchainError,
>)
    ensures
        match validate_spec(*manifest) {
            Err(e) => res matches Err(x) && x@ == e,
            Ok(()) => if filters@.len() == 0 {
                res matches Ok(r) && report_of(r, manifest@, source)
            } else {
                match first_unknown(*manifest, filter_texts(filters@)) {
                    Some(k) => res matches Err(x) && x@ == ErrorModel::UnknownFilter(
                        filter_texts(filters@)[k],
                    ),
                    None => res matches Ok(r) && report_of(
                        r,
                        filtered(*manifest, filter_texts(filters@)),
                        source,
                    ),
                }
            },
        },
{
    match validate_manifest(manifest) {
        Err(e) => Err(e),
        Ok(()) => {
            proof {
                lemma_edges_known(*manifest, manifest.edges@.len() as int);
                lemma_known_edges_walk(*manifest, filter_texts(filters@));
            }
            match filter_manifest(manifest, filters) {
                Err(e) => Err(e),
                Ok(filtered) => Ok(
                    Report {
                        schema_version: filtered.schema_version,
                        source,
                        nodes: filtered.nodes,
                        edges: filtered.edges,
                    },
                ),
            }
        },
    }
}


// ---------------------------------------------------------------------------
// The human tree.
// ---------------------------------------------------------------------------

/// The IDs of the nodes.
pub open spec fn id_set(nodes: Seq<Node>) -> Set<Seq<char>> {
    nodes.map_values(|n: Node| n.id@).to_set()
}

/// How many nodes may still be entered below a node whose path from the
/// root holds `path`.
pub open spec fn render_measure(nodes: Seq<Node>, path: Set<Seq<char>>) -> nat {
    id_set(nodes).difference(path).len()
}

/// No edge after `k` leaves the node `id`.
pub open spec fn is_last_child(edges: Seq<Edge>, id: Seq<char>, k: int) -> bool {
    forall|j: int| k < j < edges.len() ==> (#[trigger] edges[j]).from@ != id
}

pub proof fn lemma_render_measure(nodes: Seq<Node>, path: Set<Seq<char>>, t: int)
    requires
        0 <= t < nodes.len(),
        !path.contains(nodes[t].id@),
    ensures
        render_measure(nodes, path.insert(nodes[t].id@)) < render_measure(nodes, path),
{
    let ids = id_set(nodes);
    let x = nodes[t].id@;
    vstd::seq_lib::seq_to_set_is_finite(nodes.map_values(|n: Node| n.id@));
    vstd::set::axiom_set_difference_finite(ids, path);
    assert(nodes.map_values(|n: Node| n.id@)[t] == x);
    assert(ids.contains(x));
    assert(ids.difference(path.insert(x)) =~= ids.difference(path).remove(x));
    vstd::set::axiom_set_remove_len(ids.difference(path), x);
}

/// The lines below node `id` for the edges from index `k` on: each child
/// with its relationship, indented by `prefix`, then the child's own
/// children unless the child is already on the path from the root.
pub open spec fn render_from(
    nodes: Seq<Node>,
    edges: Seq<Edge>,
    id: Seq<char>,
    k: int,
    prefix: Seq<char>,
    path: Set<Seq<char>>,
) -> Seq<char>
    decreases render_measure(nodes, path), edges.len() - k,
{
    if k < 0 || k >= edges.len() {
        seq![]
    } else {
        let rest = render_from(nodes, edges, id, k + 1, prefix, path);
        let e = edges[k];
        if e.from@ != id {
            rest
        } else {
            match last_id_index(nodes, e.to@) {
                None => rest,
                Some(t) => {
                    let last = is_last_child(edges, id, k);
                    let line = prefix + (if last {
                        "`-- "@
                    } else {
                        "|-- "@
                    }) + relationship_text(e.relationship) + " "@ + display_text(nodes[t])
                        + "\n"@;
                    if path.contains(nodes[t].id@) {
                        line + rest
                    } else {
                        proof {
                            lemma_last_id_index(nodes, e.to@);
                            lemma_render_measure(nodes, path, t);
                        }
                        line + render_from(
                            nodes,
                            edges,
                            nodes[t].id@,
                            0,
                            prefix + (if last {
                                "    "@
                            } else {
                                "|   "@
                            }),
                            path.insert(nodes[t].id@),
                        ) + rest
                    }
                },
            }
        }
    }
}

/// Whether no edge leads to the node `id`.
pub open spec fn is_root(edges: Seq<Edge>, id: Seq<char>) -> bool {
    forall|e: int| 0 <= e < edges.len() ==> (#[trigger] edges[e]).to@ != id
}

/// The trees of the roots from node `k` on, separated by blank lines.
pub open spec fn render_roots(nodes: Seq<Node>, edges: Seq<Edge>, k: int, started: bool) -> Seq<
    char,
>
    decreases nodes.len() - k,
{
    if k < 0 || k >= nodes.len() {
        seq![]
    } else if is_root(edges, nodes[k].id@) {
        (if started {
            "\n"@
        } else {
            seq![]
        }) + display_text(nodes[k]) + "\n"@ + render_from(
            nodes,
            edges,
            nodes[k].id@,
            0,
            seq![],
            set![nodes[k].id@],
        ) + render_roots(nodes, edges, k + 1, true)
    } else {
        render_roots(nodes, edges, k + 1, started)
    }
}

pub open spec fn scope_text(s: Scope) -> Seq<char> {
    match s {
        Scope::Local => "local"@,
        Scope::Global => "global"@,
    }
}

/// The human output of a report.
pub open spec fn render_text(r: Report) -> Seq<char> {
    "Vite+ toolchain ("@ + scope_text(r.source.scope) + ")\n\n"@ + render_roots(
        r.nodes@,
        r.edges@,
        0,
        false,
    )
}

fn is_last_child_exec(edges: &Vec<Edge>, id: &String, k: usize) -> (res: bool)
    requires
        k < edges@.len(),
    ensures
        res == is_last_child(edges@, id@, k as int),
{
    let n = edges.len();
    let mut j: usize = k + 1;
    while j < n
        invariant
            k < j <= edges@.len(),
            n == edges@.len(),
            forall|q: int| k < q < j ==> (#[trigger] edges@[q]).from@ != id@,
        decreases edges@.len() - j,
    {
        if edges[j].from == *id {
            return false;
        }
        j += 1;
    }
    true
}

fn path_contains(path: &Vec<String>, id: &String) -> (res: bool)
    ensures
        res == strs(path@).to_set().contains(id@),
{
    let mut j: usize = 0;
    while j < path.len()
        invariant
            j <= path@.len(),
            forall|q: int| 0 <= q < j ==> (#[trigger] path@[q])@ != id@,
        decreases path@.len() - j,
    {
        if path[j] == *id {
            proof {
                assert(strs(path@)[j as int] == id@);
            }
            return true;
        }
        j += 1;
    }
    proof {
        if strs(path@).to_set().contains(id@) {
            let q = choose|q: int| 0 <= q < strs(path@).len() && strs(path@)[q] == id@;
            assert(path@[q]@ == id@);
        }
    }
    false
}

#[verifier::spinoff_prover]
#[verifier::rlimit(40)]
fn render_children(
    out: &mut Vec<char>,
    nodes: &Vec<Node>,
    edges: &Vec<Edge>,
    id: &String,
    prefix: &Vec<char>,
    path: &Vec<String>,
)
    ensures
        final(out)@ == old(out)@ + render_from(
            nodes@,
            edges@,
            id@,
            0,
            prefix@,
            strs(path@).to_set(),
        ),
    decreases render_measure(nodes@, strs(path@).to_set()),
{
    let ghost set = strs(path@).to_set();
    let ghost out0 = out@;
    let mut k: usize = 0;
    while k < edges.len()
        invariant
            k <= edges@.len(),
            set == strs(path@).to_set(),
            out@ + render_from(nodes@, edges@, id@, k as int, prefix@, set) == out0 + render_from(
                nodes@,
                edges@,
                id@,
                0,
                prefix@,
                set,
            ),
        decreases edges@.len() - k,
    {
        let ghost before = out@;
        let ghost rest = render_from(nodes@, edges@, id@, k + 1, prefix@, set);
        let edge = &edges[k];
        if edge.from == *id {
            match last_node_with_id(nodes, &edge.to) {
                Some(t) => {
                    proof {
                        lemma_last_id_index(nodes@, edge.to@);
                    }
                    let last = is_last_child_exec(edges, id, k);
                    push_all(out, prefix.as_slice());
                    if last {
                        push_str(out, "`-- ");
                    } else {
                        push_str(out, "|-- ");
                    }
                    push_str(out, edge.relationship.display());
                    push_str(out, " ");
                    display_chars(&nodes[t], out);
                    push_str(out, "\n");
                    let ghost line = out@.subrange(before.len() as int, out@.len() as int);
                    proof {
                        assert(out@ =~= before + line);
                    }
                    if !path_contains(path, &nodes[t].id) {
                        let mut child_prefix: Vec<char> = Vec::new();
                        push_all(&mut child_prefix, prefix.as_slice());
                        if last {
                            push_str(&mut child_prefix, "    ");
                        } else {
                            push_str(&mut child_prefix, "|   ");
                        }
                        let mut child_path = clone_strings(path.as_slice());
                        child_path.push(nodes[t].id.clone());
                        proof {
                            assert(strs(child_path@) =~= strs(path@).push(nodes@[t as int].id@));
                            strs(path@).lemma_push_to_set_commute(nodes@[t as int].id@);
                            lemma_render_measure(nodes@, set, t as int);
                        }
                        let ghost mid = out@;
                        render_children(out, nodes, edges, &nodes[t].id, &child_prefix, &child_path);
                        proof {
                            assert(out@ + rest =~= before + (line + render_from(
                                nodes@,
                                edges@,
                                nodes@[t as int].id@,
                                0,
                                child_prefix@,
                                set.insert(nodes@[t as int].id@),
                            ) + rest));
                        }
                    } else {
                        proof {
                            assert(out@ + rest =~= before + (line + rest));
                        }
                    }
                },
                None => {},
            }
        }
        k += 1;
    }
}

/// The human output of a report: a header with the scope, then a tree
/// under each node that no edge leads to. A node shared by several parents
/// appears under each; a cycle is cut where a node would repeat on its own
/// path.
pub fn render(report: &Report) -> (res: String)
    ensures
        res@ == render_text(*report),
{
    let mut out = str_chars("Vite+ toolchain (");
    push_str(&mut out, report.source.scope.display());
    push_str(&mut out, ")\n\n");
    let ghost header = out@;
    let nodes = &report.nodes;
    let edges = &report.edges;
    let mut started = false;
    let mut k: usize = 0;
    while k < nodes.len()
        invariant
            k <= nodes@.len(),
            header == "Vite+ toolchain ("@ + scope_text(report.source.scope) + ")\n\n"@,
            *nodes == report.nodes,
            *edges == report.edges,
            out@ + render_roots(nodes@, edges@, k as int, started) == render_text(*report),
        decreases nodes@.len() - k,
    {
        let ghost before = out@;
        let id = &nodes[k].id;
        let mut root = true;
        let mut e: usize = 0;
        while e < edges.len()
            invariant
                e <= edges@.len(),
                root == forall|q: int| 0 <= q < e ==> (#[trigger] edges@[q]).to@ != id@,
            decreases edges@.len() - e,
        {
            if edges[e].to == *id {
                root = false;
            }
            e += 1;
        }
        if root {
            if started {
                push_str(&mut out, "\n");
            }
            display_chars(&nodes[k], &mut out);
            push_str(&mut out, "\n");
            let mut path: Vec<String> = Vec::new();
            path.push(id.clone());
            let prefix: Vec<char> = Vec::new();
            proof {
                assert(strs(path@) =~= seq![id@]);
                assert(seq![id@].to_set() =~= set![id@]) by {
                    assert(seq![id@][0] == id@);
                }
            }
            let ghost mid = out@;
            render_children(&mut out, nodes, edges, id, &prefix, &path);
            proof {
                assert(prefix@ =~= Seq::<char>::empty());
                assert(out@ + render_roots(nodes@, edges@, k + 1, true) =~= before + render_roots(
                    nodes@,
                    edges@,
                    k as int,
                    started,
                ));
            }
            started = true;
        }
        k += 1;
    }
    proof {
        assert(out@ =~= render_text(*report));
    }
    chars_to_string(out.as_slice())
}

// ---------------------------------------------------------------------------
// `vp toolchain`.
// ---------------------------------------------------------------------------

/// A line the toolchain command prints to stderr: an error (with its
/// error styling) or plain text.
#[derive(Debug, Clone, PartialEq, Eq)]
pub enum OutputLine {
    Error(String),
    Raw(String),
}

pub enum LineModel {
    Error(Seq<char>),
    Raw(Seq<char>),
}

pub open spec fn line_view(l: OutputLine) -> LineModel {
    match l {
        OutputLine::Error(s) => LineModel::Error(s@),
        OutputLine::Raw(s) => LineModel::Raw(s@),
    }
}

pub open spec fn lines_view(ls: Seq<OutputLine>) -> Seq<LineModel> {
    ls.map_values(|l: OutputLine| line_view(l))
}

/// What `vp toolchain` does.
#[derive(Debug, Clone)]
pub enum ToolchainOutcome {
    /// Prints these lines and exits with status 1.
    Refused(Vec<OutputLine>),
    /// The manifest names no `vite-plus` version.
    MissingVitePlus,
    /// The manifest is invalid.
    Failed(ToolchainError),
    /// Shows the report: as JSON, or as this rendered tree.
    Show { report: Report, rendered: Option<String> },
}

/// The lines of an unknown filter: a bare error in JSON mode, else an
/// error and a hint to `vp why`.
pub open spec fn unknown_filter_lines(json: bool, filter: Seq<char>) -> Seq<LineModel> {
    let message = "`"@ + filter + "` is not in the Vite+ toolchain"@;
    if json {
        seq![LineModel::Raw("error: "@ + message)]
    } else {
        seq![
            LineModel::Error(message),
            LineModel::Raw("hint: run `vp why "@ + filter + "` to show project dependencies"@),
        ]
    }
}

/// The manifest model a toolchain report shows for the filters.
pub open spec fn shown_model(m: Manifest, filters: Seq<&str>) -> ManifestModel {
    if filters.len() == 0 {
        m@
    } else {
        filtered(m, filter_texts(filters))
    }
}

/// The lines printed for an unknown filter.
pub fn unknown_filter_output(json: bool, filter: &str) -> (res: Vec<OutputLine>)
    ensures
        lines_view(res@) == unknown_filter_lines(json, filter@),
{
    let mut message = str_chars("`");
    push_str(&mut message, filter);
    push_str(&mut message, "` is not in the Vite+ toolchain");
    let mut l: Vec<OutputLine> = Vec::new();
    if json {
        let mut line = str_chars("error: ");
        push_all(&mut line, message.as_slice());
        l.push(OutputLine::Raw(chars_to_string(line.as_slice())));
    } else {
        l.push(OutputLine::Error(chars_to_string(message.as_slice())));
        let mut hint = str_chars("hint: run `vp why ");
        push_str(&mut hint, filter);
        push_str(&mut hint, "` to show project dependencies");
        l.push(OutputLine::Raw(chars_to_string(hint.as_slice())));
    }
    proof {
        assert(lines_view(l@) =~= unknown_filter_lines(json, filter@));
    }
    l
}

/// What showing the report of the manifest for the filters gives, with
/// this source.
pub open spec fn report_outcome(json: bool, m: Manifest, tools: Seq<&str>, source: Source, res: ToolchainOutcome) -> bool {
    match res {
        ToolchainOutcome::Refused(l) => {
            &&& validate_spec(m) is Ok
            &&& tools.len() > 0
            &&& first_unknown(m, filter_texts(tools)) matches Some(k) && lines_view(l@)
                == unknown_filter_lines(json, filter_texts(tools)[k])
        },
        ToolchainOutcome::MissingVitePlus => false,
        ToolchainOutcome::Failed(e) => validate_spec(m) == Err::<(), ErrorModel>(e@),
        ToolchainOutcome::Show { report, rendered } => {
            &&& report.source == source
            &&& validate_spec(m) is Ok
            &&& (tools.len() > 0 ==> first_unknown(m, filter_texts(tools)) is None)
            &&& report_of(report, shown_model(m, tools), source)
            &&& (json ==> rendered is None)
            &&& (!json ==> (rendered matches Some(t) && t@ == render_text(report)))
        },
    }
}

fn show_report(json: bool, manifest: &Manifest, tools: &[&str], source: Source) -> (res: ToolchainOutcome)
    ensures
        report_outcome(json, *manifest, tools@, source, res),
{
    match build_report(manifest, tools, source) {
        Ok(report) => {
            let rendered = if json {
                None
            } else {
                Some(render(&report))
            };
            ToolchainOutcome::Show { report, rendered }
        },
        Err(ToolchainError::UnknownFilter(filter)) => ToolchainOutcome::Refused(
            unknown_filter_output(json, filter.as_str()),
        ),
        Err(e) => ToolchainOutcome::Failed(e),
    }
}

/// The outcome of `vp toolchain` with a loaded manifest: `--global` is
/// refused here; a manifest without a `vite-plus` version is an error;
/// otherwise the report of the (filtered) manifest for the package at
/// `package_path`, in the local scope, shown as JSON or as a tree.
pub fn toolchain_command(global: bool, json: bool, manifest: &Manifest, tools: &[&str], package_path: &str) -> (res:
    ToolchainOutcome)
    ensures
        global ==> (res matches ToolchainOutcome::Refused(l) && lines_view(l@) == seq![
            LineModel::Error("The `--global` option requires the global `vp` CLI"@),
        ]),
        !global ==> (res is MissingVitePlus <==> is_root_version(manifest.nodes@, None)),
        !global && !(res is MissingVitePlus) ==> exists|source: Source|
            #[trigger] is_root_version(manifest.nodes@, Some(source.vite_plus_version@)) && source.scope
                == Scope::Local && source.path@ == package_path@ && report_outcome(
                json,
                *manifest,
                tools@,
                source,
                res,
            ),
{
    if global {
        let mut l: Vec<OutputLine> = Vec::new();
        l.push(OutputLine::Error(String::from_str("The `--global` option requires the global `vp` CLI")));
        proof {
            assert(lines_view(l@) =~= seq![
                LineModel::Error("The `--global` option requires the global `vp` CLI"@),
            ]);
        }
        return ToolchainOutcome::Refused(l);
    }
    let version = match root_version(manifest) {
        Some(v) => v,
        None => return ToolchainOutcome::MissingVitePlus,
    };
    proof {
        lemma_root_version_unique(manifest.nodes@, version@);
    }
    let source = Source { scope: Scope::Local, path: String::from_str(package_path), vite_plus_version: version };
    let ghost s = source;
    let res = show_report(json, manifest, tools, source);
    proof {
        assert(is_root_version(manifest.nodes@, Some(s.vite_plus_version@)));
    }
    res
}

proof fn lemma_root_version_unique(nodes: Seq<Node>, v: Seq<char>)
    requires
        is_root_version(nodes, Some(v)),
    ensures
        !is_root_version(nodes, None),
{
    let i = choose|i: int|
        0 <= i < nodes.len() && (#[trigger] nodes[i]).id@ == "vite-plus"@ && (forall|j: int|
            0 <= j < i ==> (#[trigger] nodes[j]).id@ != "vite-plus"@) && (nodes[i].version matches Some(
            w,
        ) && w@ == v);
    assert(nodes[i].version is Some);
}

} // verus!

verus! {

// ---------------------------------------------------------------------------
// Filtering a filtered manifest again.
// ---------------------------------------------------------------------------

/// The position in the selection of the item at `j`.
pub open spec fn rank(keep: Seq<bool>, j: int) -> nat {
    count_true(keep.take(j))
}

proof fn lemma_select_len<T>(s: Seq<T>, keep: Seq<bool>)
    requires
        s.len() == keep.len(),
    ensures
        select(s, keep).len() == count_true(keep),
    decreases s.len(),
{
    if s.len() > 0 {
        lemma_select_len(s.drop_last(), keep.take(s.len() - 1));
        assert(keep.take(s.len() - 1) =~= keep.drop_last());
    }
}

proof fn lemma_select_at<T>(s: Seq<T>, keep: Seq<bool>, j: int)
    requires
        s.len() == keep.len(),
        0 <= j < s.len(),
        keep[j],
    ensures
        rank(keep, j) < select(s, keep).len(),
        select(s, keep)[rank(keep, j) as int] == s[j],
    decreases s.len(),
{
    let n = s.len() as int;
    lemma_select_len(s.drop_last(), keep.take(n - 1));
    if j == n - 1 {
        assert(keep.take(n - 1) =~= keep.take(j));
    } else {
        lemma_select_at(s.drop_last(), keep.take(n - 1), j);
        assert(keep.take(n - 1).take(j) =~= keep.take(j));
    }
}

proof fn lemma_select_onto<T>(s: Seq<T>, keep: Seq<bool>, i: int)
    requires
        s.len() == keep.len(),
        0 <= i < select(s, keep).len(),
    ensures
        exists|j: int| 0 <= j < s.len() && keep[j] && #[trigger] rank(keep, j) == i,
    decreases s.len(),
{
    let n = s.len() as int;
    lemma_select_len(s.drop_last(), keep.take(n - 1));
    let rest = select(s.drop_last(), keep.take(n - 1));
    if i < rest.len() {
        lemma_select_onto(s.drop_last(), keep.take(n - 1), i);
        let j = choose|j: int|
            0 <= j < n - 1 && keep.take(n - 1)[j] && #[trigger] rank(keep.take(n - 1), j) == i;
        assert(keep.take(n - 1).take(j) =~= keep.take(j));
        assert(keep[j] && rank(keep, j) == i);
    } else {
        assert(keep[n - 1]);
        assert(rank(keep, n - 1) == i);
    }
}

proof fn lemma_select_all<T>(s: Seq<T>, keep: Seq<bool>)
    requires
        s.len() == keep.len(),
        forall|i: int| 0 <= i < keep.len() ==> keep[i],
    ensures
        select(s, keep) == s,
    decreases s.len(),
{
    if s.len() > 0 {
        lemma_select_all(s.drop_last(), keep.take(s.len() - 1));
        assert(select(s.drop_last(), keep.take(s.len() - 1)).push(s.last()) =~= s);
    }
}

proof fn lemma_nodes_error_prefix(nodes: Seq<Node>, k: int, n: int)
    requires
        0 <= k < n,
        nodes_error(nodes, n) is None,
    ensures
        node_error(nodes, k) is None,
    decreases n - k,
{
    if n > k + 1 {
        if nodes_error(nodes, n - 1) is Some {
            lemma_first_error_sticks(nodes, n - 1, n);
        }
        lemma_nodes_error_prefix(nodes, k, n - 1);
    }
}

proof fn lemma_first_label_exists(nodes: Seq<Node>, label: Seq<char>, w: int, k: int)
    requires
        0 <= k <= w < nodes.len(),
        has_label(nodes[w], label),
        forall|j: int| 0 <= j < k ==> !has_label(#[trigger] nodes[j], label),
    ensures
        first_with_label(nodes, label) matches Some(c) && 0 <= c <= w && has_label(nodes[c], label),
    decreases w - k,
{
    if has_label(nodes[k], label) {
        lemma_first_label_unique(nodes, label, k);
    } else {
        lemma_first_label_exists(nodes, label, w, k + 1);
    }
}

proof fn lemma_label_error_none(nodes: Seq<Node>, i: int, t: int)
    requires
        0 <= i < nodes.len(),
        0 <= t < labels(nodes[i]).len(),
        label_error(nodes, i, 0) is None,
    ensures
        label_owner(nodes, i, labels(nodes[i])[t]) matches Some(o) ==> o == nodes[i].id@,
{
    lemma_label_error_from(nodes, i, 0, t);
}

proof fn lemma_label_error_from(nodes: Seq<Node>, i: int, k: int, t: int)
    requires
        0 <= i < nodes.len(),
        0 <= k <= t < labels(nodes[i]).len(),
        label_error(nodes, i, k) is None,
    ensures
        label_owner(nodes, i, labels(nodes[i])[t]) matches Some(o) ==> o == nodes[i].id@,
    decreases t - k,
{
    if k < t {
        lemma_label_error_from(nodes, i, k + 1, t);
    }
}

/// A valid manifest gives each node its own ID and its own labels.
proof fn lemma_valid_unique(m: Manifest)
    requires
        validate_spec(m) is Ok,
    ensures
        forall|i: int, j: int|
            0 <= i < m.nodes@.len() && 0 <= j < m.nodes@.len() && i != j ==> (#[trigger] m.nodes@[i]).id@
                != (#[trigger] m.nodes@[j]).id@,
        forall|i: int, j: int, l: Seq<char>|
            0 <= i < m.nodes@.len() && 0 <= j < m.nodes@.len() && i != j && #[trigger] has_label(
                m.nodes@[i],
                l,
            ) ==> !#[trigger] has_label(m.nodes@[j], l),
{
    let nodes = m.nodes@;
    let n = nodes.len() as int;
    assert forall|i: int, j: int| 0 <= i < j < n implies nodes[i].id@ != nodes[j].id@ by {
        lemma_nodes_error_prefix(nodes, j, n);
    }
    assert forall|i: int, j: int, l: Seq<char>|
        0 <= i < j < n && has_label(nodes[i], l) implies !has_label(nodes[j], l) by {
        if has_label(nodes[j], l) {
            lemma_nodes_error_prefix(nodes, j, n);
            assert(node_field_error(nodes[j]) is None);
            let t = choose|t: int| 0 <= t < labels(nodes[j]).len() && labels(nodes[j])[t] == l;
            lemma_label_error_none(nodes, j, t);
            let pre = nodes.take(j);
            assert(pre[i] == nodes[i]);
            lemma_first_label_exists(pre, l, i, 0);
            let c = first_with_label(pre, l)->0;
            assert(label_owner(nodes, j, l) == Some(nodes[c].id@));
            assert(nodes[c].id@ != nodes[j].id@);
        }
    }
    assert forall|i: int, j: int|
        0 <= i < n && 0 <= j < n && i != j implies (#[trigger] nodes[i]).id@ != (#[trigger] nodes[j]).id@ by {
        if i > j {
            assert(nodes[j].id@ != nodes[i].id@);
        }
    }
    assert forall|i: int, j: int, l: Seq<char>|
        0 <= i < n && 0 <= j < n && i != j && #[trigger] has_label(nodes[i], l) implies !#[trigger] has_label(
            nodes[j],
            l,
        ) by {
        if i > j && has_label(nodes[j], l) {
            assert(!has_label(nodes[i], l));
        }
    }
}

/// A node's own fields are valid: a non-empty ID and name, no empty
/// version, revision or build time, a build time in the form
/// `DDDD-DD-DDTDD:DD:DDZ`, not both a version and a build time, and at
/// least one of the three.
pub open spec fn node_fields_valid(n: Node) -> bool {
    &&& n.id@.len() > 0 && n.name@.len() > 0
    &&& !opt_empty(n.version) && !opt_empty(n.revision) && !opt_empty(n.built_at)
    &&& (n.built_at matches Some(b) ==> is_utc_build_time_spec(b@))
    &&& !(n.version is Some && n.built_at is Some)
    &&& (n.version is Some || n.revision is Some || n.built_at is Some)
}

/// A manifest as validation wants it: schema version 1; every node's own
/// fields valid; no ID twice; no empty label and no label on two nodes;
/// every edge names known nodes at both ends.
pub open spec fn manifest_valid(m: Manifest) -> bool {
    let nodes = m.nodes@;
    &&& m.schema_version == 1
    &&& forall|i: int| 0 <= i < nodes.len() ==> node_fields_valid(#[trigger] nodes[i])
    &&& forall|i: int, j: int|
        0 <= i < nodes.len() && 0 <= j < nodes.len() && i != j ==> (#[trigger] nodes[i]).id@
            != (#[trigger] nodes[j]).id@
    &&& forall|i: int, t: int|
        0 <= i < nodes.len() && 0 <= t < labels(nodes[i]).len() ==> (#[trigger] labels(nodes[i])[t]).len() > 0
    &&& forall|i: int, j: int, l: Seq<char>|
        0 <= i < nodes.len() && 0 <= j < nodes.len() && i != j && #[trigger] has_label(nodes[i], l)
            ==> !#[trigger] has_label(nodes[j], l)
    &&& edges_known(m)
}

proof fn lemma_nodes_error_none(nodes: Seq<Node>, k: int)
    requires
        0 <= k <= nodes.len(),
    ensures
        nodes_error(nodes, k) is None <==> forall|i: int| 0 <= i < k ==> #[trigger] node_error(nodes, i) is None,
    decreases k,
{
    if k > 0 {
        lemma_nodes_error_none(nodes, k - 1);
        if nodes_error(nodes, k) is None {
            assert(nodes_error(nodes, k - 1) is None);
            assert forall|i: int| 0 <= i < k implies #[trigger] node_error(nodes, i) is None by {
                if i < k - 1 {
                    assert(node_error(nodes, i) is None);
                }
            }
        }
    }
}

proof fn lemma_edges_error_none(m: Manifest, k: int)
    requires
        0 <= k <= m.edges@.len(),
    ensures
        edges_error(m, k) is None <==> forall|e: int|
            0 <= e < k ==> is_node_id(m.nodes@, (#[trigger] m.edges@[e]).from@) && is_node_id(
                m.nodes@,
                m.edges@[e].to@,
            ),
    decreases k,
{
    if k > 0 {
        lemma_edges_error_none(m, k - 1);
    }
}

proof fn lemma_label_error_free(nodes: Seq<Node>, i: int, k: int)
    requires
        0 <= i < nodes.len(),
        0 <= k,
        forall|t: int| 0 <= t < labels(nodes[i]).len() ==> (#[trigger] labels(nodes[i])[t]).len() > 0,
        forall|j: int, l: Seq<char>|
            0 <= j < i && #[trigger] has_label(nodes[j], l) ==> !has_label(nodes[i], l),
    ensures
        label_error(nodes, i, k) is None,
    decreases labels(nodes[i]).len() - k,
{
    let ls = labels(nodes[i]);
    if k < ls.len() {
        let l = ls[k];
        assert(has_label(nodes[i], l));
        let pre = nodes.take(i);
        if first_with_label(pre, l) is Some {
            let w = choose|w: int| 0 <= w < pre.len() && has_label(#[trigger] pre[w], l);
            lemma_first_label_exists(pre, l, w, 0);
            let c = first_with_label(pre, l)->0;
            assert(pre[c] == nodes[c]);
            assert(false);
        }
        lemma_label_error_free(nodes, i, k + 1);
    }
}

proof fn lemma_label_error_nonempty(nodes: Seq<Node>, i: int, k: int, t: int)
    requires
        0 <= i < nodes.len(),
        0 <= k <= t < labels(nodes[i]).len(),
        label_error(nodes, i, k) is None,
    ensures
        labels(nodes[i])[t].len() > 0,
    decreases t - k,
{
    if k < t {
        lemma_label_error_nonempty(nodes, i, k + 1, t);
    }
}

/// Validation accepts a manifest exactly when it is valid in the sense of
/// `manifest_valid`.
pub proof fn law_validation_accepts_exactly_valid(m: Manifest)
    ensures
        validate_spec(m) is Ok <==> manifest_valid(m),
{
    let nodes = m.nodes@;
    let n = nodes.len() as int;
    lemma_nodes_error_none(nodes, n);
    lemma_edges_error_none(m, m.edges@.len() as int);
    if validate_spec(m) is Ok {
        lemma_valid_unique(m);
        assert forall|i: int| 0 <= i < n implies node_fields_valid(#[trigger] nodes[i]) by {
            assert(node_error(nodes, i) is None);
        }
        assert forall|i: int, t: int| 0 <= i < n && 0 <= t < labels(nodes[i]).len() implies (#[trigger] labels(
            nodes[i],
        )[t]).len() > 0 by {
            assert(node_error(nodes, i) is None);
            lemma_label_error_nonempty(nodes, i, 0, t);
        }
    }
    if manifest_valid(m) {
        assert forall|i: int| 0 <= i < n implies #[trigger] node_error(nodes, i) is None by {
            assert(node_fields_valid(nodes[i]));
            assert(!exists|j: int| 0 <= j < i && (#[trigger] nodes[j]).id@ == nodes[i].id@);
            assert forall|j: int, l: Seq<char>| 0 <= j < i && #[trigger] has_label(nodes[j], l) implies !has_label(
                nodes[i],
                l,
            ) by {}
            assert forall|t: int| 0 <= t < labels(nodes[i]).len() implies (#[trigger] labels(
                nodes[i],
            )[t]).len() > 0 by {}
            lemma_label_error_free(nodes, i, 0);
        }
    }
}

/// `r` is what filtering `m` by `fs` gives.
pub open spec fn refiltered_setup(m: Manifest, fs: Seq<Seq<char>>, r: Manifest) -> bool {
    &&& validate_spec(m) is Ok
    &&& r@ == filtered(m, fs)
}

/// A kept node of `m` and its place in `r`.
proof fn lemma_map_node(m: Manifest, fs: Seq<Seq<char>>, r: Manifest, j: int)
    requires
        refiltered_setup(m, fs, r),
        0 <= j < m.nodes@.len(),
        kept_node(m, fs, j),
    ensures
        rank(node_flags(m, fs), j) < r.nodes@.len(),
        r.nodes@[rank(node_flags(m, fs), j) as int]@ == m.nodes@[j]@,
        r.nodes@[rank(node_flags(m, fs), j) as int].id@ == m.nodes@[j].id@,
        labels(r.nodes@[rank(node_flags(m, fs), j) as int]) == labels(m.nodes@[j]),
{
    let nf = node_flags(m, fs);
    lemma_select_at(node_views(m.nodes@), nf, j);
    let ri = rank(nf, j) as int;
    assert(node_views(r.nodes@)[ri] == r.nodes@[ri]@);
    let a = r.nodes@[ri];
    let b = m.nodes@[j];
    assert(labels(a) =~= labels(b));
}

/// Every node of `r` is the image of a kept node of `m`.
proof fn lemma_node_preimage(m: Manifest, fs: Seq<Seq<char>>, r: Manifest, i: int)
    requires
        refiltered_setup(m, fs, r),
        0 <= i < r.nodes@.len(),
    ensures
        exists|j: int|
            0 <= j < m.nodes@.len() && kept_node(m, fs, j) && #[trigger] rank(node_flags(m, fs), j) == i,
{
    lemma_select_onto(node_views(m.nodes@), node_flags(m, fs), i);
}

/// Nodes of `r` share an ID or a label only where they are one node.
proof fn lemma_refiltered_unique(m: Manifest, fs: Seq<Seq<char>>, r: Manifest, j: int)
    requires
        refiltered_setup(m, fs, r),
        0 <= j < m.nodes@.len(),
        kept_node(m, fs, j),
    ensures
        forall|i: int|
            0 <= i < r.nodes@.len() && i != rank(node_flags(m, fs), j) ==> (#[trigger] r.nodes@[i]).id@
                != m.nodes@[j].id@,
        forall|i: int, l: Seq<char>|
            0 <= i < r.nodes@.len() && i != rank(node_flags(m, fs), j) && has_label(m.nodes@[j], l)
                ==> !#[trigger] has_label(r.nodes@[i], l),
{
    lemma_valid_unique(m);
    let nf = node_flags(m, fs);
    assert forall|i: int|
        0 <= i < r.nodes@.len() && i != rank(nf, j) implies (#[trigger] r.nodes@[i]).id@ != m.nodes@[j].id@ by {
        lemma_node_preimage(m, fs, r, i);
        let j2 = choose|j2: int| 0 <= j2 < m.nodes@.len() && kept_node(m, fs, j2) && #[trigger] rank(nf, j2) == i;
        lemma_map_node(m, fs, r, j2);
        assert(j2 != j);
        assert(m.nodes@[j2].id@ != m.nodes@[j].id@);
    }
    assert forall|i: int, l: Seq<char>|
        0 <= i < r.nodes@.len() && i != rank(nf, j) && has_label(m.nodes@[j], l) implies !#[trigger] has_label(
            r.nodes@[i],
            l,
        ) by {
        lemma_node_preimage(m, fs, r, i);
        let j2 = choose|j2: int| 0 <= j2 < m.nodes@.len() && kept_node(m, fs, j2) && #[trigger] rank(nf, j2) == i;
        lemma_map_node(m, fs, r, j2);
        assert(j2 != j);
        assert(!has_label(m.nodes@[j2], l));
    }
}

/// A filter selects in `r` the image of the node it selects in `m`.
proof fn lemma_refiltered_selected(m: Manifest, fs: Seq<Seq<char>>, r: Manifest, k: int)
    requires
        refiltered_setup(m, fs, r),
        0 <= k < fs.len(),
        selected(m, fs, k) is Some,
    ensures
        kept_node(m, fs, selected(m, fs, k)->0),
        selected(r, fs, k) == Some(rank(node_flags(m, fs), selected(m, fs, k)->0) as int),
{
    let sm = selected(m, fs, k)->0;
    lemma_last_label_index(m.nodes@, fs[k]);
    law_selected_node_kept(m, fs, k);
    lemma_map_node(m, fs, r, sm);
    lemma_refiltered_unique(m, fs, r, sm);
    let rs = rank(node_flags(m, fs), sm) as int;
    assert(has_label(m.nodes@[sm], fs[k]));
    assert(has_label(r.nodes@[rs], fs[k]));
    assert forall|j: int| rs < j < r.nodes@.len() implies !has_label(#[trigger] r.nodes@[j], fs[k]) by {}
    lemma_last_label_unique(r.nodes@, fs[k], rs);
}

/// A step of a walk in `m` between kept nodes, reached from `s`, is a step
/// in `r` between their images.
proof fn lemma_refiltered_step(
    m: Manifest,
    fs: Seq<Seq<char>>,
    r: Manifest,
    k: int,
    upward: bool,
    x: int,
    y: int,
)
    requires
        refiltered_setup(m, fs, r),
        0 <= k < fs.len(),
        selected(m, fs, k) is Some,
        0 <= x < m.nodes@.len(),
        0 <= y < m.nodes@.len(),
        reaches(m, upward, selected(m, fs, k)->0, x),
        step(m, upward, x, y),
    ensures
        reaches(m, upward, selected(m, fs, k)->0, y),
        kept_node(m, fs, x),
        kept_node(m, fs, y),
        step(r, upward, rank(node_flags(m, fs), x) as int, rank(node_flags(m, fs), y) as int),
{
    let s0 = selected(m, fs, k)->0;
    lemma_reaches_step(m, upward, s0, x, y);
    assert(kept_node(m, fs, x));
    assert(kept_node(m, fs, y));
    reveal(step);
    let e = choose|e: int|
        0 <= e < m.edges@.len() && #[trigger] edge_follows(m, upward, x, e) && edge_target(
            m,
            upward,
            e,
        ) == Some(y);
    assert(edge_reached(m, upward, s0, e));
    assert(kept_edge(m, fs, e));
    let ef = edge_flags(m, fs);
    lemma_select_at(edge_views(m.edges@), ef, e);
    let re = rank(ef, e) as int;
    assert(edge_views(r.edges@)[re] == r.edges@[re]@);
    assert(r.edges@[re]@ == m.edges@[e]@);
    lemma_map_node(m, fs, r, x);
    lemma_map_node(m, fs, r, y);
    let rx = rank(node_flags(m, fs), x) as int;
    let ry = rank(node_flags(m, fs), y) as int;
    assert(edge_follows(r, upward, rx, re));
    let tid = if upward { m.edges@[e].from@ } else { m.edges@[e].to@ };
    lemma_last_id_index(m.nodes@, tid);
    assert(m.nodes@[y].id@ == tid);
    lemma_refiltered_unique(m, fs, r, y);
    assert forall|j: int| ry < j < r.nodes@.len() implies (#[trigger] r.nodes@[j]).id@ != tid by {}
    lemma_last_id_unique(r.nodes@, tid, ry);
    assert(edge_target(r, upward, re) == Some(ry));
}

/// What a filter's node reaches in `m`, its image reaches in `r`.
proof fn lemma_refiltered_reaches(
    m: Manifest,
    fs: Seq<Seq<char>>,
    r: Manifest,
    k: int,
    upward: bool,
    j: int,
)
    requires
        refiltered_setup(m, fs, r),
        0 <= k < fs.len(),
        selected(m, fs, k) is Some,
        reaches(m, upward, selected(m, fs, k)->0, j),
    ensures
        0 <= j < m.nodes@.len(),
        kept_node(m, fs, j),
        reaches(
            r,
            upward,
            rank(node_flags(m, fs), selected(m, fs, k)->0) as int,
            rank(node_flags(m, fs), j) as int,
        ),
{
    let s0 = selected(m, fs, k)->0;
    let p = lemma_walk_of(m, upward, s0, j);
    lemma_refiltered_selected(m, fs, r, k);
    lemma_walk_prefix(m, fs, r, k, upward, p, p.len() - 1);
}

proof fn lemma_walk_prefix(
    m: Manifest,
    fs: Seq<Seq<char>>,
    r: Manifest,
    k: int,
    upward: bool,
    p: Seq<int>,
    t: int,
)
    requires
        refiltered_setup(m, fs, r),
        0 <= k < fs.len(),
        selected(m, fs, k) is Some,
        is_walk(m, upward, p),
        p[0] == selected(m, fs, k)->0,
        0 <= t < p.len(),
    ensures
        reaches(m, upward, selected(m, fs, k)->0, p[t]),
        kept_node(m, fs, p[t]),
        reaches(
            r,
            upward,
            rank(node_flags(m, fs), selected(m, fs, k)->0) as int,
            rank(node_flags(m, fs), p[t]) as int,
        ),
    decreases t,
{
    let s0 = selected(m, fs, k)->0;
    if t == 0 {
        lemma_reaches_self(m, upward, s0);
        lemma_refiltered_selected(m, fs, r, k);
        lemma_map_node(m, fs, r, s0);
        lemma_reaches_self(r, upward, rank(node_flags(m, fs), s0) as int);
    } else {
        lemma_walk_prefix(m, fs, r, k, upward, p, t - 1);
        assert(step_at(m, upward, p, t - 1));
        lemma_refiltered_step(m, fs, r, k, upward, p[t - 1], p[t]);
        lemma_map_node(m, fs, r, p[t]);
        lemma_reaches_step(
            r,
            upward,
            rank(node_flags(m, fs), s0) as int,
            rank(node_flags(m, fs), p[t - 1]) as int,
            rank(node_flags(m, fs), p[t]) as int,
        );
    }
}

/// Whether node `i` has a path to node `s` along edges of any relationship
/// (`s` itself included): `i` owns `s`, directly or through others.
pub open spec fn in_ancestors(m: Manifest, s: int, i: int) -> bool {
    reaches(m, true, s, i)
}

/// Whether node `i` is reached from node `s` along `uses` and `compiles`
/// edges (`s` itself included).
pub open spec fn in_downstream(m: Manifest, s: int, i: int) -> bool {
    reaches(m, false, s, i)
}

/// The nodes that filtering keeps, in the manifest's order: those among
/// the ancestors or the downstream nodes of a node that a filter selects.
pub open spec fn ancestor_or_downstream_flags(m: Manifest, fs: Seq<Seq<char>>) -> Seq<bool> {
    Seq::new(
        m.nodes@.len(),
        |i: int|
            exists|k: int|
                0 <= k < fs.len() && (#[trigger] selected(m, fs, k) matches Some(s) && (in_ancestors(
                    m,
                    s,
                    i,
                ) || in_downstream(m, s, i))),
    )
}

/// The edges that filtering keeps, in the manifest's order: those that
/// lead into an ancestor of a selected node, and the `uses` and `compiles`
/// edges that leave one of its downstream nodes.
pub open spec fn ancestor_or_downstream_edge_flags(m: Manifest, fs: Seq<Seq<char>>) -> Seq<bool> {
    Seq::new(
        m.edges@.len(),
        |e: int|
            exists|k: int|
                0 <= k < fs.len() && (#[trigger] selected(m, fs, k) matches Some(s) && ((exists|x: int|
                    0 <= x < m.nodes@.len() && in_ancestors(m, s, x) && m.edges@[e].to@
                        == (#[trigger] m.nodes@[x]).id@) || (is_downstream(m.edges@[e].relationship)
                    && exists|x: int|
                    0 <= x < m.nodes@.len() && in_downstream(m, s, x) && m.edges@[e].from@
                        == (#[trigger] m.nodes@[x]).id@))),
    )
}

/// Filtering keeps the ancestors and the downstream nodes of the selected
/// nodes, and the edges into those ancestors and the `uses` and `compiles`
/// edges out of those downstream nodes, each in the manifest's order, under
/// the manifest's schema version.
pub proof fn law_filter_keeps_ancestors_and_downstream(m: Manifest, fs: Seq<Seq<char>>, r: Manifest)
    requires
        r@ == filtered(m, fs),
    ensures
        r@.schema_version == m.schema_version,
        r@.nodes == select(node_views(m.nodes@), ancestor_or_downstream_flags(m, fs)),
        r@.edges == select(edge_views(m.edges@), ancestor_or_downstream_edge_flags(m, fs)),
{
    assert(node_flags(m, fs) =~= ancestor_or_downstream_flags(m, fs));
    assert forall|e: int| 0 <= e < m.edges@.len() implies edge_flags(m, fs)[e]
        == ancestor_or_downstream_edge_flags(m, fs)[e] by {
        if kept_edge(m, fs, e) {
            let k = choose|k: int|
                0 <= k < fs.len() && (#[trigger] selected(m, fs, k) matches Some(s) && (edge_reached(
                    m,
                    true,
                    s,
                    e,
                ) || edge_reached(m, false, s, e)));
            let s = selected(m, fs, k)->0;
            if edge_reached(m, true, s, e) {
                let x = choose|x: int|
                    0 <= x < m.nodes@.len() && reaches(m, true, s, x) && #[trigger] edge_follows(m, true, x, e);
                assert(m.edges@[e].to@ == m.nodes@[x].id@);
            } else {
                let x = choose|x: int|
                    0 <= x < m.nodes@.len() && reaches(m, false, s, x) && #[trigger] edge_follows(m, false, x, e);
                assert(m.edges@[e].from@ == m.nodes@[x].id@);
            }
        }
        if ancestor_or_downstream_edge_flags(m, fs)[e] {
            let k = choose|k: int|
                0 <= k < fs.len() && (#[trigger] selected(m, fs, k) matches Some(s) && ((exists|x: int|
                    0 <= x < m.nodes@.len() && in_ancestors(m, s, x) && m.edges@[e].to@
                        == (#[trigger] m.nodes@[x]).id@) || (is_downstream(m.edges@[e].relationship)
                    && exists|x: int|
                    0 <= x < m.nodes@.len() && in_downstream(m, s, x) && m.edges@[e].from@
                        == (#[trigger] m.nodes@[x]).id@)));
            let s = selected(m, fs, k)->0;
            if exists|x: int|
                0 <= x < m.nodes@.len() && in_ancestors(m, s, x) && m.edges@[e].to@ == (#[trigger] m.nodes@[x]).id@ {
                let x = choose|x: int|
                    0 <= x < m.nodes@.len() && in_ancestors(m, s, x) && m.edges@[e].to@
                        == (#[trigger] m.nodes@[x]).id@;
                assert(edge_follows(m, true, x, e));
                assert(edge_reached(m, true, s, e));
            } else {
                let x = choose|x: int|
                    0 <= x < m.nodes@.len() && in_downstream(m, s, x) && m.edges@[e].from@
                        == (#[trigger] m.nodes@[x]).id@;
                assert(edge_follows(m, false, x, e));
                assert(edge_reached(m, false, s, e));
            }
            assert(kept_edge(m, fs, e));
        }
    }
    assert(edge_flags(m, fs) =~= ancestor_or_downstream_edge_flags(m, fs));
}

/// Filtering keeps, with each edge, the nodes at both of its ends.
proof fn lemma_kept_edge_ends(m: Manifest, fs: Seq<Seq<char>>, r: Manifest, q: int)
    requires
        refiltered_setup(m, fs, r),
        0 <= q < r.edges@.len(),
    ensures
        is_node_id(r.nodes@, r.edges@[q].from@),
        is_node_id(r.nodes@, r.edges@[q].to@),
{
    let ef = edge_flags(m, fs);
    let nf = node_flags(m, fs);
    law_validation_accepts_exactly_valid(m);
    lemma_select_onto(edge_views(m.edges@), ef, q);
    let e = choose|e: int| 0 <= e < m.edges@.len() && ef[e] && #[trigger] rank(ef, e) == q;
    lemma_select_at(edge_views(m.edges@), ef, e);
    assert(edge_views(r.edges@)[q] == r.edges@[q]@);
    assert(r.edges@[q]@ == m.edges@[e]@);
    assert(kept_edge(m, fs, e));
    let k = choose|k: int|
        0 <= k < fs.len() && (#[trigger] selected(m, fs, k) matches Some(s) && (edge_reached(
            m,
            true,
            s,
            e,
        ) || edge_reached(m, false, s, e)));
    let s = selected(m, fs, k)->0;
    let up = edge_reached(m, true, s, e);
    assert(edge_reached(m, up, s, e));
    let x = choose|x: int| 0 <= x < m.nodes@.len() && reaches(m, up, s, x) && #[trigger] edge_follows(m, up, x, e);
    let other = if up {
        m.edges@[e].from@
    } else {
        m.edges@[e].to@
    };
    assert(is_node_id(m.nodes@, m.edges@[e].from@) && is_node_id(m.nodes@, m.edges@[e].to@));
    lemma_last_id_index(m.nodes@, other);
    let y = last_id_index(m.nodes@, other)->0;
    assert(edge_target(m, up, e) == Some(y));
    assert(step(m, up, x, y)) by {
        reveal(step);
    }
    lemma_reaches_step(m, up, s, x, y);
    assert(kept_node(m, fs, x)) by {
        assert(selected(m, fs, k) matches Some(t) && (reaches(m, true, t, x) || reaches(m, false, t, x)));
    }
    assert(kept_node(m, fs, y)) by {
        assert(selected(m, fs, k) matches Some(t) && (reaches(m, true, t, y) || reaches(m, false, t, y)));
    }
    lemma_map_node(m, fs, r, x);
    lemma_map_node(m, fs, r, y);
    let rx = rank(nf, x) as int;
    let ry = rank(nf, y) as int;
    assert(r.nodes@[rx].id@ == m.nodes@[x].id@);
    assert(r.nodes@[ry].id@ == m.nodes@[y].id@);
    if up {
        assert(r.edges@[q].to@ == r.nodes@[rx].id@);
        assert(r.edges@[q].from@ == r.nodes@[ry].id@);
    } else {
        assert(r.edges@[q].from@ == r.nodes@[rx].id@);
        assert(r.edges@[q].to@ == r.nodes@[ry].id@);
    }
}

/// What filtering a valid manifest gives is valid again.
pub proof fn law_filter_result_validates(m: Manifest, fs: Seq<Seq<char>>, r: Manifest)
    requires
        validate_spec(m) is Ok,
        r@ == filtered(m, fs),
    ensures
        validate_spec(r) is Ok,
{
    let nf = node_flags(m, fs);
    law_validation_accepts_exactly_valid(m);
    law_validation_accepts_exactly_valid(r);
    let rn = r.nodes@;
    assert(r.schema_version == m.schema_version);
    assert forall|i: int| 0 <= i < rn.len() implies node_fields_valid(#[trigger] rn[i]) by {
        lemma_node_preimage(m, fs, r, i);
        let j = choose|j: int| 0 <= j < m.nodes@.len() && kept_node(m, fs, j) && #[trigger] rank(nf, j) == i;
        lemma_map_node(m, fs, r, j);
        assert(node_fields_valid(m.nodes@[j]));
        assert(rn[i]@ == m.nodes@[j]@);
        let a = rn[i];
        let b = m.nodes@[j];
        assert(opt_view(a.version) == opt_view(b.version));
        assert(opt_view(a.revision) == opt_view(b.revision));
        assert(opt_view(a.built_at) == opt_view(b.built_at));
    }
    assert forall|i: int, i2: int| 0 <= i < rn.len() && 0 <= i2 < rn.len() && i != i2 implies (#[trigger] rn[i]).id@
        != (#[trigger] rn[i2]).id@ by {
        lemma_node_preimage(m, fs, r, i);
        let j = choose|j: int| 0 <= j < m.nodes@.len() && kept_node(m, fs, j) && #[trigger] rank(nf, j) == i;
        lemma_map_node(m, fs, r, j);
        lemma_refiltered_unique(m, fs, r, j);
    }
    assert forall|i: int, t: int| 0 <= i < rn.len() && 0 <= t < labels(rn[i]).len() implies (#[trigger] labels(
        rn[i],
    )[t]).len() > 0 by {
        lemma_node_preimage(m, fs, r, i);
        let j = choose|j: int| 0 <= j < m.nodes@.len() && kept_node(m, fs, j) && #[trigger] rank(nf, j) == i;
        lemma_map_node(m, fs, r, j);
        assert(labels(m.nodes@[j])[t].len() > 0);
    }
    assert forall|i: int, i2: int, l: Seq<char>|
        0 <= i < rn.len() && 0 <= i2 < rn.len() && i != i2 && #[trigger] has_label(rn[i], l) implies !#[trigger] has_label(
        rn[i2],
        l,
    ) by {
        lemma_node_preimage(m, fs, r, i);
        let j = choose|j: int| 0 <= j < m.nodes@.len() && kept_node(m, fs, j) && #[trigger] rank(nf, j) == i;
        lemma_map_node(m, fs, r, j);
        lemma_refiltered_unique(m, fs, r, j);
        assert(has_label(m.nodes@[j], l));
    }
    assert forall|q: int| 0 <= q < r.edges@.len() implies is_node_id(r.nodes@, (#[trigger] r.edges@[q]).from@)
        && is_node_id(r.nodes@, r.edges@[q].to@) by {
        lemma_kept_edge_ends(m, fs, r, q);
    }
}

/// Filtering a valid manifest again with the same filters changes nothing:
/// the result validates, every filter still names a node, and every node
/// and edge of the result is kept.
pub proof fn law_filter_idempotent(m: Manifest, fs: Seq<Seq<char>>, r: Manifest)
    requires
        validate_spec(m) is Ok,
        first_unknown(m, fs) is None,
        r@ == filtered(m, fs),
    ensures
        validate_spec(r) is Ok,
        first_unknown(r, fs) is None,
        filtered(r, fs) == r@,
{
    law_filter_result_validates(m, fs, r);
    let nf = node_flags(m, fs);
    assert forall|k: int| 0 <= k < fs.len() implies #[trigger] selected(m, fs, k) is Some by {
        if selected(m, fs, k) is None {
            assert(exists|a: int| 0 <= a < fs.len() && #[trigger] selected(m, fs, a) is None);
        }
    }
    assert forall|k: int| 0 <= k < fs.len() implies #[trigger] selected(r, fs, k) is Some by {
        lemma_refiltered_selected(m, fs, r, k);
    }
    assert forall|i: int| 0 <= i < r.nodes@.len() implies #[trigger] kept_node(r, fs, i) by {
        lemma_node_preimage(m, fs, r, i);
        let j = choose|j: int| 0 <= j < m.nodes@.len() && kept_node(m, fs, j) && #[trigger] rank(nf, j) == i;
        let k = choose|k: int|
            0 <= k < fs.len() && (#[trigger] selected(m, fs, k) matches Some(t) && (reaches(
                m,
                true,
                t,
                j,
            ) || reaches(m, false, t, j)));
        lemma_refiltered_selected(m, fs, r, k);
        let up = reaches(m, true, selected(m, fs, k)->0, j);
        lemma_refiltered_reaches(m, fs, r, k, up, j);
    }
    let ef = edge_flags(m, fs);
    assert forall|q: int| 0 <= q < r.edges@.len() implies #[trigger] kept_edge(r, fs, q) by {
        lemma_select_onto(edge_views(m.edges@), ef, q);
        let e = choose|e: int| 0 <= e < m.edges@.len() && ef[e] && #[trigger] rank(ef, e) == q;
        let k = choose|k: int|
            0 <= k < fs.len() && (#[trigger] selected(m, fs, k) matches Some(t) && (edge_reached(
                m,
                true,
                t,
                e,
            ) || edge_reached(m, false, t, e)));
        let s0 = selected(m, fs, k)->0;
        let up = edge_reached(m, true, s0, e);
        let x = choose|x: int|
            0 <= x < m.nodes@.len() && reaches(m, up, s0, x) && #[trigger] edge_follows(m, up, x, e);
        lemma_refiltered_selected(m, fs, r, k);
        lemma_refiltered_reaches(m, fs, r, k, up, x);
        lemma_map_node(m, fs, r, x);
        lemma_select_at(edge_views(m.edges@), ef, e);
        assert(edge_views(r.edges@)[q] == r.edges@[q]@);
        let rx = rank(nf, x) as int;
        assert(edge_follows(r, up, rx, q));
        assert(edge_reached(r, up, rank(nf, s0) as int, q));
    }
    if first_unknown(r, fs) is Some {
        let a = choose|a: int| 0 <= a < fs.len() && #[trigger] selected(r, fs, a) is None;
        assert(selected(r, fs, a) is Some);
    }
    lemma_select_all(node_views(r.nodes@), node_flags(r, fs));
    lemma_select_all(edge_views(r.edges@), edge_flags(r, fs));
    assert(filtered(r, fs) =~= r@);
}

} // verus!



