//! The pipeline graph: declarations, build-time validation and the cycle check.
use vstd::prelude::*;
use crate::errors::{Error, ErrorKind, ErrorView};

verus! {

/// Whether an operator kind takes a configuration.
#[derive(PartialEq, Eq, Structural, Clone, Copy, Debug)]
pub enum ConfigNeed {
    /// Building a node of this kind without configuration fails.
    Required,
    /// Configuration may be given or not.
    Optional,
    /// Building a node of this kind with configuration fails.
    Forbidden,
}

/// A field that an operator kind's configuration may hold.
pub struct FieldDecl {
    pub name: String,
    pub required: bool,
}

/// A registered operator kind: where it lives, what it is called, what it is configured with.
pub struct OperatorKind {
    pub namespace: String,
    pub name: String,
    pub config: ConfigNeed,
    pub fields: Vec<FieldDecl>,
}

/// One key/value pair of a node's configuration.
pub struct ConfigEntry {
    pub key: String,
    pub value: String,
}

/// A declared node: a uniquely named instance of an operator kind.
pub struct NodeDecl {
    pub name: String,
    pub namespace: String,
    pub kind: String,
    pub config: Option<Vec<ConfigEntry>>,
}

/// A declared edge from an output port of one node to an input port of another.
/// Nodes are referred to by their position in the declaration.
pub struct EdgeDecl {
    pub from: usize,
    pub from_port: String,
    pub to: usize,
    pub to_port: String,
}

/// A declarative description of a pipeline graph.
pub struct GraphDecl {
    pub nodes: Vec<NodeDecl>,
    pub edges: Vec<EdgeDecl>,
}

/// A validated graph: its declaration, and for each node the registry index of its kind.
pub struct Graph {
    pub decl: GraphDecl,
    pub kinds: Vec<usize>,
}

// ---------------------------------------------------------------- operator resolution

pub open spec fn kind_matches(k: OperatorKind, ns: Seq<char>, name: Seq<char>) -> bool {
    k.namespace@ == ns && k.name@ == name
}

/// Some registered kind lives in namespace `ns`.
pub open spec fn namespace_known(reg: Seq<OperatorKind>, ns: Seq<char>) -> bool {
    exists|k: int| 0 <= k < reg.len() && #[trigger] reg[k].namespace@ == ns
}

/// The first of the first `i` registered kinds that matches `ns` and `name`.
pub open spec fn first_kind_upto(reg: Seq<OperatorKind>, ns: Seq<char>, name: Seq<char>, i: int) -> Option<int>
    decreases i,
{
    if i <= 0 {
        None
    } else {
        match first_kind_upto(reg, ns, name, i - 1) {
            Some(k) => Some(k),
            None => if kind_matches(reg[i - 1], ns, name) {
                Some(i - 1)
            } else {
                None
            },
        }
    }
}

/// The registry index that `ns::name` resolves to, if any.
pub open spec fn lookup(reg: Seq<OperatorKind>, ns: Seq<char>, name: Seq<char>) -> Option<int> {
    first_kind_upto(reg, ns, name, reg.len() as int)
}

// ---------------------------------------------------------------- configuration

pub open spec fn has_key(cfg: Seq<ConfigEntry>, key: Seq<char>) -> bool {
    exists|j: int| 0 <= j < cfg.len() && #[trigger] cfg[j].key@ == key
}

pub open spec fn declares_field(fields: Seq<FieldDecl>, key: Seq<char>) -> bool {
    exists|j: int| 0 <= j < fields.len() && #[trigger] fields[j].name@ == key
}

/// The first of the first `i` configuration keys that the kind does not declare.
pub open spec fn first_unknown_key_upto(fields: Seq<FieldDecl>, cfg: Seq<ConfigEntry>, i: int) -> Option<Seq<char>>
    decreases i,
{
    if i <= 0 {
        None
    } else {
        match first_unknown_key_upto(fields, cfg, i - 1) {
            Some(k) => Some(k),
            None => if !declares_field(fields, cfg[i - 1].key@) {
                Some(cfg[i - 1].key@)
            } else {
                None
            },
        }
    }
}

/// The first of the first `i` required fields that the configuration lacks.
pub open spec fn first_missing_field_upto(fields: Seq<FieldDecl>, cfg: Seq<ConfigEntry>, i: int) -> Option<Seq<char>>
    decreases i,
{
    if i <= 0 {
        None
    } else {
        match first_missing_field_upto(fields, cfg, i - 1) {
            Some(f) => Some(f),
            None => if fields[i - 1].required && !has_key(cfg, fields[i - 1].name@) {
                Some(fields[i - 1].name@)
            } else {
                None
            },
        }
    }
}

/// What is wrong with a node's configuration for kind `k`, if anything.
pub open spec fn config_fault(k: OperatorKind, n: NodeDecl) -> Option<ErrorView> {
    match n.config {
        None => if k.config == ConfigNeed::Required {
            Some(ErrorView::MissingOpConfig(n.name@))
        } else {
            None
        },
        Some(c) => if k.config == ConfigNeed::Forbidden {
            Some(ErrorView::ExtraOpConfig(n.name@))
        } else {
            match first_unknown_key_upto(k.fields@, c@, c@.len() as int) {
                Some(key) => Some(ErrorView::BadOpConfig(key)),
                None => match first_missing_field_upto(k.fields@, c@, k.fields@.len() as int) {
                    Some(f) => Some(ErrorView::MissingOpConfig(f)),
                    None => None,
                },
            }
        },
    }
}

/// What is wrong with a node declaration against the registry, if anything.
pub open spec fn node_fault(reg: Seq<OperatorKind>, n: NodeDecl) -> Option<ErrorView> {
    if !namespace_known(reg, n.namespace@) {
        Some(ErrorView::UnknownNamespace(n.namespace@))
    } else {
        match lookup(reg, n.namespace@, n.kind@) {
            None => Some(ErrorView::UnknownOp(n.namespace@, n.kind@)),
            Some(k) => config_fault(reg[k], n),
        }
    }
}

pub open spec fn first_node_fault_upto(reg: Seq<OperatorKind>, nodes: Seq<NodeDecl>, i: int) -> Option<ErrorView>
    decreases i,
{
    if i <= 0 {
        None
    } else {
        match first_node_fault_upto(reg, nodes, i - 1) {
            Some(f) => Some(f),
            None => node_fault(reg, nodes[i - 1]),
        }
    }
}

pub open spec fn edge_in_range(e: EdgeDecl, n: int) -> bool {
    e.from < n && e.to < n
}

pub open spec fn first_bad_edge_upto(edges: Seq<EdgeDecl>, n: int, i: int) -> Option<int>
    decreases i,
{
    if i <= 0 {
        None
    } else {
        match first_bad_edge_upto(edges, n, i - 1) {
            Some(e) => Some(e),
            None => if !edge_in_range(edges[i - 1], n) {
                Some(i - 1)
            } else {
                None
            },
        }
    }
}

/// The first fault of a declaration that is found before the cycle check:
/// node faults in node order, then edges that name a node that does not exist.
pub open spec fn decl_fault(reg: Seq<OperatorKind>, d: GraphDecl) -> Option<ErrorView> {
    match first_node_fault_upto(reg, d.nodes@, d.nodes@.len() as int) {
        Some(f) => Some(f),
        None => match first_bad_edge_upto(d.edges@, d.nodes@.len() as int, d.edges@.len() as int) {
            Some(e) => Some(ErrorView::BadOutputid(e as usize)),
            None => None,
        },
    }
}

// ---------------------------------------------------------------- cycles

/// Some edge leads from node `a` to node `b`.
pub open spec fn is_edge(edges: Seq<EdgeDecl>, a: int, b: int) -> bool {
    exists|e: int| 0 <= e < edges.len() && (#[trigger] edges[e]).from == a && edges[e].to == b
}

/// `p` is a forward path: each node leads to the next along an edge.
pub open spec fn is_path(edges: Seq<EdgeDecl>, p: Seq<int>) -> bool {
    forall|i: int| 0 <= i < p.len() - 1 ==> #[trigger] is_edge(edges, p[i], p[i + 1])
}

/// Node `v` lies on a directed cycle.
pub open spec fn on_cycle(edges: Seq<EdgeDecl>, v: int) -> bool {
    exists|p: Seq<int>| #[trigger] is_path(edges, p) && p.len() >= 2 && p[0] == v && p[p.len() - 1] == v
}

/// No node lies on a directed cycle.
pub open spec fn acyclic(edges: Seq<EdgeDecl>) -> bool {
    forall|v: int| !#[trigger] on_cycle(edges, v)
}

pub open spec fn all_in_range(edges: Seq<EdgeDecl>, n: int) -> bool {
    forall|e: int| 0 <= e < edges.len() ==> edge_in_range(#[trigger] edges[e], n)
}

pub open spec fn count_false(s: Seq<bool>) -> nat
    decreases s.len(),
{
    if s.len() == 0 {
        0
    } else {
        count_false(s.drop_last()) + if s.last() { 0nat } else { 1nat }
    }
}

proof fn lemma_count_false_update(s: Seq<bool>, i: int)
    requires
        0 <= i < s.len(),
        !s[i],
    ensures
        count_false(s.update(i, true)) + 1 == count_false(s),
    decreases s.len(),
{
    let t = s.update(i, true);
    if i < s.len() - 1 {
        assert(t.drop_last() =~= s.drop_last().update(i, true));
        lemma_count_false_update(s.drop_last(), i);
    } else {
        assert(t.drop_last() =~= s.drop_last());
    }
}

proof fn lemma_count_false_zero(s: Seq<bool>, i: int)
    requires
        0 <= i < s.len(),
        count_false(s) == 0,
    ensures
        s[i],
    decreases s.len(),
{
    if i < s.len() - 1 {
        assert(s.drop_last()[i] == s[i]);
        lemma_count_false_zero(s.drop_last(), i);
    }
}

/// Along a path whose edges all climb in `rank`, the rank climbs.
proof fn lemma_rank_climbs(edges: Seq<EdgeDecl>, rank: Seq<int>, p: Seq<int>, k: int)
    requires
        all_in_range(edges, rank.len() as int),
        forall|e: int| 0 <= e < edges.len() ==> rank[(#[trigger] edges[e]).from as int] < rank[edges[e].to as int],
        is_path(edges, p),
        1 <= k < p.len(),
    ensures
        0 <= p[0] < rank.len(),
        0 <= p[k] < rank.len(),
        rank[p[0]] < rank[p[k]],
    decreases k,
{
    let j = k - 1;
    assert(is_edge(edges, p[j], p[j + 1]));
    let e = choose|e: int| 0 <= e < edges.len() && (#[trigger] edges[e]).from == p[j] && edges[e].to == p[j + 1];
    assert(edge_in_range(edges[e], rank.len() as int));
    if k > 1 {
        lemma_rank_climbs(edges, rank, p, k - 1);
    } else {
        assert(is_edge(edges, p[0], p[1]));
    }
}


proof fn lemma_count_false_all_true(s: Seq<bool>)
    requires
        forall|i: int| 0 <= i < s.len() ==> s[i],
    ensures
        count_false(s) == 0,
    decreases s.len(),
{
    if s.len() > 0 {
        lemma_count_false_all_true(s.drop_last());
    }
}

/// Node `v` has an incoming edge from a node that is not yet removed.
pub open spec fn has_live_pred(edges: Seq<EdgeDecl>, removed: Seq<bool>, v: int) -> bool {
    exists|e: int| 0 <= e < edges.len() && (#[trigger] edges[e]).to == v && !removed[edges[e].from as int]
}

fn falses(n: usize) -> (r: Vec<bool>)
    ensures
        r@.len() == n,
        forall|i: int| 0 <= i < n ==> !r@[i],
        count_false(r@) == n,
{
    let mut r: Vec<bool> = Vec::new();
    let mut i: usize = 0;
    while i < n
        invariant
            i <= n,
            r@.len() == i,
            forall|j: int| 0 <= j < i ==> !r@[j],
            count_false(r@) == i,
        decreases n - i,
    {
        let ghost before = r@;
        r.push(false);
        assert(r@.drop_last() =~= before);
        i += 1;
    }
    r
}


/// An edge into `v` from a node that is not removed, if there is one.
fn live_pred(edges: &Vec<EdgeDecl>, removed: &Vec<bool>, v: usize) -> (r: Option<usize>)
    requires
        all_in_range(edges@, removed@.len() as int),
    ensures
        r matches Some(e) ==> e < edges@.len() && edges@[e as int].to == v
            && !removed@[edges@[e as int].from as int],
        r is None ==> !has_live_pred(edges@, removed@, v as int),
{
    let mut e: usize = 0;
    while e < edges.len()
        invariant
            e <= edges@.len(),
            all_in_range(edges@, removed@.len() as int),
            forall|f: int| 0 <= f < e && (#[trigger] edges@[f]).to == v ==> removed@[edges@[f].from as int],
        decreases edges@.len() - e,
    {
        assert(edge_in_range(edges@[e as int], removed@.len() as int));
        if edges[e].to == v && !removed[edges[e].from] {
            return Some(e);
        }
        e += 1;
    }
    None
}

/// A node with no live predecessor (`Ok`), or else a node that is not removed (`Err(Some)`),
/// or `Err(None)` when all nodes are removed.
fn free_node(n: usize, edges: &Vec<EdgeDecl>, removed: &Vec<bool>) -> (r: Result<usize, Option<usize>>)
    requires
        removed@.len() == n,
        all_in_range(edges@, n as int),
    ensures
        r matches Ok(v) ==> v < n && !removed@[v as int] && !has_live_pred(edges@, removed@, v as int),
        r matches Err(Some(v)) ==> v < n && !removed@[v as int],
        r matches Err(None) ==> forall|v: int| 0 <= v < n ==> removed@[v],
        r is Err ==> forall|v: int| 0 <= v < n && !removed@[v] ==> has_live_pred(edges@, removed@, v),
{
    let mut v: usize = 0;
    let mut live: Option<usize> = None;
    while v < n
        invariant
            v <= n,
            removed@.len() == n,
            all_in_range(edges@, n as int),
            forall|u: int| 0 <= u < v && !removed@[u] ==> has_live_pred(edges@, removed@, u),
            live matches Some(u) ==> u < n && !removed@[u as int],
            live is None ==> forall|u: int| 0 <= u < v ==> removed@[u],
        decreases n - v,
    {
        if !removed[v] {
            match live_pred(edges, removed, v) {
                None => {
                    return Ok(v);
                },
                Some(e) => {
                    assert(edges@[e as int].to == v);
                    live = Some(v);
                },
            }
        }
        v += 1;
    }
    Err(live)
}

/// Finds a node that lies on a directed cycle, or `None` when the graph has no cycle.
/// Nodes are `0..n`; every edge must name nodes in that range.
pub fn cycle_node(n: usize, edges: &Vec<EdgeDecl>) -> (r: Option<usize>)
    requires
        all_in_range(edges@, n as int),
    ensures
        r is None <==> acyclic(edges@),
        r matches Some(v) ==> v < n && on_cycle(edges@, v as int),
{
    let mut removed = falses(n);
    let ghost mut rank: Seq<int> = Seq::new(n as nat, |v: int| 0);
    let ghost mut step: int = 0;
    let mut left: usize = n;
    while left > 0
        invariant
            removed@.len() == n,
            rank.len() == n,
            count_false(removed@) == left,
            all_in_range(edges@, n as int),
            forall|e: int| 0 <= e < edges@.len() && removed@[(#[trigger] edges@[e]).to as int]
                ==> removed@[edges@[e].from as int] && rank[edges@[e].from as int] < rank[edges@[e].to as int],
            forall|v: int| 0 <= v < n && removed@[v] ==> rank[v] < step,
        decreases left,
    {
        match free_node(n, edges, &removed) {
            Ok(v) => {
                proof {
                    lemma_count_false_update(removed@, v as int);
                    assert forall|e: int| 0 <= e < edges@.len() && (#[trigger] edges@[e]).to == v
                        implies removed@[edges@[e].from as int] by {
                        if !removed@[edges@[e].from as int] {
                            assert(has_live_pred(edges@, removed@, v as int));
                        }
                    }
                    rank = rank.update(v as int, step);
                    step = step + 1;
                }
                removed.set(v, true);
                left -= 1;
            },
            Err(None) => {
                proof {
                    lemma_count_false_all_true(removed@);
                }
                assert(false);
            },
            Err(Some(v0)) => {
                return Some(walk_back(n, edges, &removed, v0));
            },
        }
    }
    proof {
        assert forall|e: int| 0 <= e < edges@.len()
            implies rank[(#[trigger] edges@[e]).from as int] < rank[edges@[e].to as int] by {
            assert(edge_in_range(edges@[e], n as int));
            lemma_count_false_zero(removed@, edges@[e].to as int);
        }
        assert forall|v: int| !#[trigger] on_cycle(edges@, v) by {
            if on_cycle(edges@, v) {
                let p = choose|p: Seq<int>| #[trigger] is_path(edges@, p) && p.len() >= 2 && p[0] == v
                    && p[p.len() - 1] == v;
                lemma_rank_climbs(edges@, rank, p, p.len() - 1);
            }
        }
    }
    None
}

/// A backward walk whose last node has an edge to its `i`-th node closes a cycle there.
proof fn lemma_closed_walk(edges: Seq<EdgeDecl>, walk: Seq<int>, i: int)
    requires
        0 <= i < walk.len(),
        forall|k: int| 0 <= k < walk.len() - 1 ==> #[trigger] is_edge(edges, walk[k + 1], walk[k]),
        is_edge(edges, walk[i], walk[walk.len() - 1]),
    ensures
        on_cycle(edges, walk[i]),
{
    let len = walk.len() as int;
    let c = Seq::new((len - i + 1) as nat, |k: int| if k == 0 { walk[i] } else { walk[len - k] });
    assert forall|k: int| 0 <= k < c.len() - 1 implies #[trigger] is_edge(edges, c[k], c[k + 1]) by {
        if k > 0 {
            let j = len - k - 1;
            assert(is_edge(edges, walk[j + 1], walk[j]));
        }
    }
    assert(is_path(edges, c));
}

/// From a node that is not removed, where every such node has a live predecessor,
/// walks predecessors until one repeats; that node lies on a cycle.
fn walk_back(n: usize, edges: &Vec<EdgeDecl>, removed: &Vec<bool>, v0: usize) -> (r: usize)
    requires
        removed@.len() == n,
        all_in_range(edges@, n as int),
        v0 < n,
        !removed@[v0 as int],
        forall|v: int| 0 <= v < n && !removed@[v] ==> has_live_pred(edges@, removed@, v),
    ensures
        r < n,
        on_cycle(edges@, r as int),
{
    let mut visited = falses(n);
    proof {
        lemma_count_false_update(visited@, v0 as int);
    }
    visited.set(v0, true);
    let ghost mut walk: Seq<int> = seq![v0 as int];
    let ghost mut pos: Seq<int> = Seq::new(n as nat, |v: int| 0);
    let mut cur: usize = v0;
    loop
        invariant
            visited@.len() == n,
            removed@.len() == n,
            all_in_range(edges@, n as int),
            forall|v: int| 0 <= v < n && !removed@[v] ==> has_live_pred(edges@, removed@, v),
            walk.len() >= 1,
            walk[walk.len() - 1] == cur,
            cur < n,
            !removed@[cur as int],
            forall|k: int| 0 <= k < walk.len() ==> 0 <= #[trigger] walk[k] < n && visited@[walk[k]],
            pos.len() == n,
            forall|v: int| 0 <= v < n && visited@[v] ==> 0 <= #[trigger] pos[v] < walk.len() && walk[pos[v]] == v,
            forall|k: int| 0 <= k < walk.len() - 1 ==> #[trigger] is_edge(edges@, walk[k + 1], walk[k]),
        decreases count_false(visited@),
    {
        let e = match live_pred(edges, removed, cur) {
            Some(e) => e,
            None => {
                assert(has_live_pred(edges@, removed@, cur as int));
                assert(false);
                0
            },
        };
        assert(edge_in_range(edges@[e as int], n as int));
        let p = edges[e].from;
        assert(is_edge(edges@, p as int, cur as int));
        if visited[p] {
            proof {
                lemma_closed_walk(edges@, walk, pos[p as int]);
            }
            return p;
        }
        proof {
            lemma_count_false_update(visited@, p as int);
        }
        visited.set(p, true);
        proof {
            pos = pos.update(p as int, walk.len() as int);
            walk = walk.push(p as int);
        }
        cur = p;
    }
}


proof fn lemma_first_kind_stable(reg: Seq<OperatorKind>, ns: Seq<char>, name: Seq<char>, i: int, j: int)
    requires
        i <= j,
        first_kind_upto(reg, ns, name, i) is Some,
    ensures
        first_kind_upto(reg, ns, name, j) == first_kind_upto(reg, ns, name, i),
    decreases j - i,
{
    if i < j {
        lemma_first_kind_stable(reg, ns, name, i, j - 1);
    }
}

proof fn lemma_unknown_key_stable(fields: Seq<FieldDecl>, cfg: Seq<ConfigEntry>, i: int, j: int)
    requires
        i <= j,
        first_unknown_key_upto(fields, cfg, i) is Some,
    ensures
        first_unknown_key_upto(fields, cfg, j) == first_unknown_key_upto(fields, cfg, i),
    decreases j - i,
{
    if i < j {
        lemma_unknown_key_stable(fields, cfg, i, j - 1);
    }
}

proof fn lemma_missing_field_stable(fields: Seq<FieldDecl>, cfg: Seq<ConfigEntry>, i: int, j: int)
    requires
        i <= j,
        first_missing_field_upto(fields, cfg, i) is Some,
    ensures
        first_missing_field_upto(fields, cfg, j) == first_missing_field_upto(fields, cfg, i),
    decreases j - i,
{
    if i < j {
        lemma_missing_field_stable(fields, cfg, i, j - 1);
    }
}

proof fn lemma_node_fault_stable(reg: Seq<OperatorKind>, nodes: Seq<NodeDecl>, i: int, j: int)
    requires
        i <= j,
        first_node_fault_upto(reg, nodes, i) is Some,
    ensures
        first_node_fault_upto(reg, nodes, j) == first_node_fault_upto(reg, nodes, i),
    decreases j - i,
{
    if i < j {
        lemma_node_fault_stable(reg, nodes, i, j - 1);
    }
}

proof fn lemma_bad_edge_stable(edges: Seq<EdgeDecl>, n: int, i: int, j: int)
    requires
        i <= j,
        first_bad_edge_upto(edges, n, i) is Some,
    ensures
        first_bad_edge_upto(edges, n, j) == first_bad_edge_upto(edges, n, i),
    decreases j - i,
{
    if i < j {
        lemma_bad_edge_stable(edges, n, i, j - 1);
    }
}

/// `r` is the executable form of the fault `f`.
pub open spec fn fault_is(r: Option<ErrorKind>, f: Option<ErrorView>) -> bool {
    match r {
        Some(e) => f == Some(e@),
        None => f is None,
    }
}

fn namespace_exists(reg: &Vec<OperatorKind>, ns: &String) -> (r: bool)
    ensures
        r == namespace_known(reg@, ns@),
{
    let mut k: usize = 0;
    while k < reg.len()
        invariant
            k <= reg@.len(),
            forall|j: int| 0 <= j < k ==> (#[trigger] reg@[j]).namespace@ != ns@,
        decreases reg@.len() - k,
    {
        if reg[k].namespace == *ns {
            return true;
        }
        k += 1;
    }
    false
}

/// The registry index that `ns::name` resolves to: the first matching kind.
pub fn find_kind(reg: &Vec<OperatorKind>, ns: &String, name: &String) -> (r: Option<usize>)
    ensures
        match r {
            Some(k) => lookup(reg@, ns@, name@) == Some(k as int) && k < reg@.len(),
            None => lookup(reg@, ns@, name@) is None,
        },
{
    let mut k: usize = 0;
    while k < reg.len()
        invariant
            k <= reg@.len(),
            first_kind_upto(reg@, ns@, name@, k as int) is None,
        decreases reg@.len() - k,
    {
        if reg[k].namespace == *ns && reg[k].name == *name {
            proof {
                lemma_first_kind_stable(reg@, ns@, name@, k as int + 1, reg@.len() as int);
            }
            return Some(k);
        }
        k += 1;
    }
    None
}

fn has_key_exec(cfg: &Vec<ConfigEntry>, key: &String) -> (r: bool)
    ensures
        r == has_key(cfg@, key@),
{
    let mut j: usize = 0;
    while j < cfg.len()
        invariant
            j <= cfg@.len(),
            forall|i: int| 0 <= i < j ==> (#[trigger] cfg@[i]).key@ != key@,
        decreases cfg@.len() - j,
    {
        if cfg[j].key == *key {
            return true;
        }
        j += 1;
    }
    false
}

fn declares_field_exec(fields: &Vec<FieldDecl>, key: &String) -> (r: bool)
    ensures
        r == declares_field(fields@, key@),
{
    let mut j: usize = 0;
    while j < fields.len()
        invariant
            j <= fields@.len(),
            forall|i: int| 0 <= i < j ==> (#[trigger] fields@[i]).name@ != key@,
        decreases fields@.len() - j,
    {
        if fields[j].name == *key {
            return true;
        }
        j += 1;
    }
    false
}

/// Checks a node's configuration against its kind.
pub fn check_config(k: &OperatorKind, n: &NodeDecl) -> (r: Option<ErrorKind>)
    ensures
        fault_is(r, config_fault(*k, *n)),
{
    match n.config.as_ref() {
        None => {
            if k.config == ConfigNeed::Required {
                Some(ErrorKind::MissingOpConfig(n.name.clone()))
            } else {
                None
            }
        },
        Some(c) => {
            if k.config == ConfigNeed::Forbidden {
                return Some(ErrorKind::ExtraOpConfig(n.name.clone()));
            }
            let mut j: usize = 0;
            while j < c.len()
                invariant
                    j <= c@.len(),
                    n.config == Some(*c),
                    k.config != ConfigNeed::Forbidden,
                    first_unknown_key_upto(k.fields@, c@, j as int) is None,
                decreases c@.len() - j,
            {
                if !declares_field_exec(&k.fields, &c[j].key) {
                    proof {
                        assert(first_unknown_key_upto(k.fields@, c@, j as int + 1) == Some(c@[j as int].key@));
                        lemma_unknown_key_stable(k.fields@, c@, j as int + 1, c@.len() as int);
                    }
                    return Some(ErrorKind::BadOpConfig(c[j].key.clone()));
                }
                j += 1;
            }
            let mut f: usize = 0;
            while f < k.fields.len()
                invariant
                    f <= k.fields@.len(),
                    n.config == Some(*c),
                    k.config != ConfigNeed::Forbidden,
                    first_unknown_key_upto(k.fields@, c@, c@.len() as int) is None,
                    first_missing_field_upto(k.fields@, c@, f as int) is None,
                decreases k.fields@.len() - f,
            {
                if k.fields[f].required && !has_key_exec(c, &k.fields[f].name) {
                    proof {
                        assert(first_missing_field_upto(k.fields@, c@, f as int + 1) == Some(k.fields@[f as int].name@));
                        lemma_missing_field_stable(k.fields@, c@, f as int + 1, k.fields@.len() as int);
                    }
                    return Some(ErrorKind::MissingOpConfig(k.fields[f].name.clone()));
                }
                f += 1;
            }
            None
        },
    }
}

/// Resolves a node against the registry and checks its configuration.
pub fn check_node(reg: &Vec<OperatorKind>, n: &NodeDecl) -> (r: Result<usize, ErrorKind>)
    ensures
        match r {
            Ok(k) => node_fault(reg@, *n) is None && lookup(reg@, n.namespace@, n.kind@) == Some(k as int),
            Err(e) => node_fault(reg@, *n) == Some(e@),
        },
{
    if !namespace_exists(reg, &n.namespace) {
        return Err(ErrorKind::UnknownNamespace(n.namespace.clone()));
    }
    match find_kind(reg, &n.namespace, &n.kind) {
        None => Err(ErrorKind::UnknownOp(n.namespace.clone(), n.kind.clone())),
        Some(k) => match check_config(&reg[k], n) {
            Some(e) => Err(e),
            None => Ok(k),
        },
    }
}

/// Builds a graph from its declaration: resolves every node, checks configurations and edges,
/// and refuses a graph with a directed cycle, naming a node on it.
pub fn build(reg: &Vec<OperatorKind>, decl: GraphDecl) -> (r: Result<Graph, Error>)
    ensures
        r is Ok <==> decl_fault(reg@, decl) is None && acyclic(decl.edges@),
        r matches Ok(g) ==> g.decl == decl && g.kinds@.len() == decl.nodes@.len()
            && forall|i: int| 0 <= i < g.kinds@.len() ==> lookup(reg@, (#[trigger] decl.nodes@[i]).namespace@,
                decl.nodes@[i].kind@) == Some(g.kinds@[i] as int),
        r matches Err(e) ==> match decl_fault(reg@, decl) {
            Some(f) => e@ == f,
            None => exists|v: int| 0 <= v < decl.nodes@.len() && on_cycle(decl.edges@, v)
                && e@ == ErrorView::CyclicGraphError((#[trigger] decl.nodes@[v]).name@),
        },
{
    let n = decl.nodes.len();
    let mut kinds: Vec<usize> = Vec::new();
    let mut i: usize = 0;
    while i < n
        invariant
            i <= n,
            n == decl.nodes@.len(),
            kinds@.len() == i,
            first_node_fault_upto(reg@, decl.nodes@, i as int) is None,
            forall|j: int| 0 <= j < i ==> lookup(reg@, (#[trigger] decl.nodes@[j]).namespace@,
                decl.nodes@[j].kind@) == Some(kinds@[j] as int),
        decreases n - i,
    {
        match check_node(reg, &decl.nodes[i]) {
            Err(e) => {
                proof {
                    lemma_node_fault_stable(reg@, decl.nodes@, i as int + 1, n as int);
                }
                return Err(Error { kind: e });
            },
            Ok(k) => {
                kinds.push(k);
            },
        }
        i += 1;
    }
    let mut e: usize = 0;
    while e < decl.edges.len()
        invariant
            e <= decl.edges@.len(),
            n == decl.nodes@.len(),
            kinds@.len() == n,
            first_node_fault_upto(reg@, decl.nodes@, n as int) is None,
            forall|j: int| 0 <= j < n ==> lookup(reg@, (#[trigger] decl.nodes@[j]).namespace@,
                decl.nodes@[j].kind@) == Some(kinds@[j] as int),
            first_bad_edge_upto(decl.edges@, n as int, e as int) is None,
            forall|f: int| 0 <= f < e ==> edge_in_range(#[trigger] decl.edges@[f], n as int),
        decreases decl.edges@.len() - e,
    {
        if decl.edges[e].from >= n || decl.edges[e].to >= n {
            proof {
                assert(first_bad_edge_upto(decl.edges@, n as int, e as int + 1) == Some(e as int));
                lemma_bad_edge_stable(decl.edges@, n as int, e as int + 1, decl.edges@.len() as int);
            }
            return Err(Error { kind: ErrorKind::BadOutputid(e) });
        }
        e += 1;
    }
    match cycle_node(n, &decl.edges) {
        Some(v) => Err(Error { kind: ErrorKind::CyclicGraphError(decl.nodes[v].name.clone()) }),
        None => Ok(Graph { decl, kinds }),
    }
}


proof fn lemma_first_kind_found(reg: Seq<OperatorKind>, ns: Seq<char>, name: Seq<char>, i: int)
    requires
        first_kind_upto(reg, ns, name, i) is Some,
    ensures
        0 <= first_kind_upto(reg, ns, name, i)->Some_0 < i,
        kind_matches(reg[first_kind_upto(reg, ns, name, i)->Some_0], ns, name),
    decreases i,
{
    if i > 0 && first_kind_upto(reg, ns, name, i - 1) is Some {
        lemma_first_kind_found(reg, ns, name, i - 1);
    }
}

proof fn lemma_no_node_fault_before(reg: Seq<OperatorKind>, nodes: Seq<NodeDecl>, i: int)
    requires
        0 <= i <= nodes.len(),
        forall|j: int| 0 <= j < i ==> node_fault(reg, #[trigger] nodes[j]) is None,
    ensures
        first_node_fault_upto(reg, nodes, i) is None,
    decreases i,
{
    if i > 0 {
        lemma_no_node_fault_before(reg, nodes, i - 1);
    }
}

/// A declaration with a node on a directed cycle never builds, whatever else it holds.
pub proof fn law_cycle_never_builds(reg: Seq<OperatorKind>, d: GraphDecl, v: int)
    requires
        on_cycle(d.edges@, v),
    ensures
        !(decl_fault(reg, d) is None && acyclic(d.edges@)),
{
}

/// A node of a kind that requires configuration, declared without one, is refused with a
/// missing-config error naming it; one of a configless kind, declared with one, with an
/// extra-config error naming it.
pub proof fn law_config_completeness(reg: Seq<OperatorKind>, n: NodeDecl)
    requires
        lookup(reg, n.namespace@, n.kind@) is Some,
    ensures
        reg[lookup(reg, n.namespace@, n.kind@)->Some_0].config == ConfigNeed::Required && n.config is None
            ==> node_fault(reg, n) == Some(ErrorView::MissingOpConfig(n.name@)),
        reg[lookup(reg, n.namespace@, n.kind@)->Some_0].config == ConfigNeed::Forbidden && n.config is Some
            ==> node_fault(reg, n) == Some(ErrorView::ExtraOpConfig(n.name@)),
{
    lemma_first_kind_found(reg, n.namespace@, n.kind@, reg.len() as int);
    let k = lookup(reg, n.namespace@, n.kind@)->Some_0;
    assert(reg[k].namespace@ == n.namespace@);
    assert(namespace_known(reg, n.namespace@));
}

/// The build reports the fault of the first faulty node, whatever follows it.
pub proof fn law_first_faulty_node_reported(reg: Seq<OperatorKind>, d: GraphDecl, i: int)
    requires
        0 <= i < d.nodes@.len(),
        forall|j: int| 0 <= j < i ==> node_fault(reg, #[trigger] d.nodes@[j]) is None,
        node_fault(reg, d.nodes@[i]) is Some,
    ensures
        decl_fault(reg, d) == node_fault(reg, d.nodes@[i]),
{
    lemma_no_node_fault_before(reg, d.nodes@, i);
    lemma_node_fault_stable(reg, d.nodes@, i + 1, d.nodes@.len() as int);
}


/// Where events leaving `node` at `port` go, by the first `i` edges, in declaration order:
/// target node and target port.
pub open spec fn targets_upto(edges: Seq<EdgeDecl>, node: usize, port: Seq<char>, i: int) -> Seq<(usize, Seq<char>)>
    decreases i,
{
    if i <= 0 {
        Seq::empty()
    } else {
        let prev = targets_upto(edges, node, port, i - 1);
        if edges[i - 1].from == node && edges[i - 1].from_port@ == port {
            prev.push((edges[i - 1].to, edges[i - 1].to_port@))
        } else {
            prev
        }
    }
}

impl Graph {
    /// Where an event emitted by `node` on `port` goes: one target node and input port per
    /// edge leaving there, in the order the edges were declared (fan-out order).
    pub fn successors(&self, node: usize, port: &String) -> (r: Vec<(usize, String)>)
        ensures
            r@.len() == targets_upto(self.decl.edges@, node, port@, self.decl.edges@.len() as int).len(),
            forall|k: int| 0 <= k < r@.len() ==> (#[trigger] r@[k]).0
                == targets_upto(self.decl.edges@, node, port@, self.decl.edges@.len() as int)[k].0
                && r@[k].1@ == targets_upto(self.decl.edges@, node, port@, self.decl.edges@.len() as int)[k].1,
    {
        let mut r: Vec<(usize, String)> = Vec::new();
        let mut e: usize = 0;
        while e < self.decl.edges.len()
            invariant
                e <= self.decl.edges@.len(),
                r@.len() == targets_upto(self.decl.edges@, node, port@, e as int).len(),
                forall|k: int| 0 <= k < r@.len() ==> (#[trigger] r@[k]).0
                    == targets_upto(self.decl.edges@, node, port@, e as int)[k].0
                    && r@[k].1@ == targets_upto(self.decl.edges@, node, port@, e as int)[k].1,
            decreases self.decl.edges@.len() - e,
        {
            let edge = &self.decl.edges[e];
            if edge.from == node && edge.from_port == *port {
                r.push((edge.to, edge.to_port.clone()));
            }
            e += 1;
        }
        r
    }
}

} // verus!
