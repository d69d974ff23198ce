//! TaskGraph: a directed graph of task nodes built from `node/port`
//! connections, with a topological execution order.

use vstd::prelude::*;
use crate::text::{chars_of, find_char, first_index_of};
use crate::types::ConnectionConfig;

verus! {

/// Ports of a connection edge.
#[derive(Debug)]
pub struct ConnectionEdge {
    pub from_port: String,
    pub to_port: String,
}

/// A directed acyclic graph of task nodes with its execution order.
pub struct TaskGraph {
    /// Node names by node index.
    node_ids: Vec<String>,
    /// Edges `(from, to)` by node index, in the order the connections were given.
    edges: Vec<(usize, usize)>,
    /// Ports of each edge.
    ports: Vec<ConnectionEdge>,
    /// A topological order of the node indices.
    order: Vec<usize>,
    /// Node names in execution order.
    execution_order: Vec<String>,
}

/// Why a task graph could not be built.
#[derive(Debug)]
pub enum GraphError {
    /// A `from` endpoint is not of the form `node_id/port_name`.
    InvalidFrom(String),
    /// A `to` endpoint is not of the form `node_id/port_name`.
    InvalidTo(String),
    /// A connection names a node that is not declared.
    UnknownNode(String),
    /// The connections form a cycle through this node.
    Cycle(String),
}

/// A graph error as plain values.
pub enum GraphErrorView {
    InvalidFrom(Seq<char>),
    InvalidTo(Seq<char>),
    UnknownNode(Seq<char>),
    Cycle(Seq<char>),
}

impl View for GraphError {
    type V = GraphErrorView;

    open spec fn view(&self) -> GraphErrorView {
        match self {
            GraphError::InvalidFrom(s) => GraphErrorView::InvalidFrom(s@),
            GraphError::InvalidTo(s) => GraphErrorView::InvalidTo(s@),
            GraphError::UnknownNode(s) => GraphErrorView::UnknownNode(s@),
            GraphError::Cycle(s) => GraphErrorView::Cycle(s@),
        }
    }
}

/// Whether `order` is a topological order of the graph with nodes `0..n` and the
/// given edges: every node exactly once, and every edge going from an earlier to a
/// later position (so no self loops).
pub open spec fn is_topo_order(n: nat, edges: Seq<(usize, usize)>, order: Seq<usize>) -> bool {
    &&& order.len() == n
    &&& forall|i: int| 0 <= i < order.len() ==> (#[trigger] order[i] as int) < n
    &&& forall|i: int, j: int|
        0 <= i < order.len() && 0 <= j < order.len() && i != j ==> order[i] != order[j]
    &&& forall|k: int, i: int, j: int|
        0 <= k < edges.len() && 0 <= i < order.len() && 0 <= j < order.len() && #[trigger] order[i]
            == (#[trigger] edges[k]).0 && #[trigger] order[j] == edges[k].1 ==> i < j
}

/// The result of `petgraph::algo::toposort` on the graph with nodes `0..n` (added in
/// that order) and the given edges (added in that order): node indices, or the
/// index of a node on a cycle.
pub uninterp spec fn petgraph_toposort(n: nat, edges: Seq<(usize, usize)>) -> Result<
    Seq<usize>,
    usize,
>;

/// Whether every edge joins two of the nodes `0..n`.
pub open spec fn edges_within(n: nat, edges: Seq<(usize, usize)>) -> bool {
    forall|k: int| 0 <= k < edges.len() ==> (#[trigger] edges[k]).0 < n && edges[k].1 < n
}

/// Builds a `petgraph` `DiGraph` with nodes `0..n` and the given edges and calls
/// `petgraph::algo::toposort` on it.
///
/// As its documentation states: on an acyclic graph it returns every node once,
/// each before its successors; otherwise it returns a `Cycle` holding a node of the
/// graph (self loops are cycles). The particular order is named, not stated.
/// The graph uses 32-bit indices, so `n` and the edge count stay below `u32::MAX`.
#[verifier::external_body]
fn toposort_indices(n: usize, edges: &Vec<(usize, usize)>) -> (r: Result<Vec<usize>, usize>)
    requires
        n < u32::MAX,
        edges.len() < u32::MAX,
        edges_within(n as nat, edges@),
    ensures
        match r {
            Ok(order) => Ok::<Seq<usize>, usize>(order@) == petgraph_toposort(n as nat, edges@)
                && is_topo_order(n as nat, edges@, order@),
            Err(c) => Err::<Seq<usize>, usize>(c) == petgraph_toposort(n as nat, edges@) && c < n
                && forall|o: Seq<usize>| !is_topo_order(n as nat, edges@, o),
        },
{
    let mut g = petgraph::graph::DiGraph::<(), ()>::with_capacity(n, edges.len());
    for _ in 0..n {
        g.add_node(());
    }
    for &(a, b) in edges.iter() {
        g.add_edge(petgraph::graph::NodeIndex::new(a), petgraph::graph::NodeIndex::new(b), ());
    }
    match petgraph::algo::toposort(&g, None) {
        Ok(order) => Ok(order.into_iter().map(|i| i.index()).collect()),
        Err(cycle) => Err(cycle.node_id().index()),
    }
}

/// The node and port of a `node_id/port_name` endpoint: the text before and after
/// the first `/`; `None` when there is no `/`.
pub open spec fn endpoint_parts(e: Seq<char>) -> Option<(Seq<char>, Seq<char>)> {
    let k = first_index_of(e, '/');
    if k < e.len() {
        Some((e.take(k), e.skip(k + 1)))
    } else {
        None
    }
}

/// The index of the last node with the given name (later declarations shadow
/// earlier ones).
pub open spec fn last_index_of(ids: Seq<Seq<char>>, name: Seq<char>) -> Option<int>
    decreases ids.len(),
{
    if ids.len() == 0 {
        None
    } else if ids.last() == name {
        Some(ids.len() - 1)
    } else {
        last_index_of(ids.drop_last(), name)
    }
}

/// A connection as plain values.
pub open spec fn conn_view(c: ConnectionConfig) -> (Seq<char>, Seq<char>) {
    (c.from@, c.to@)
}

/// The edges of the connections, or the first error, as the connections are read
/// in order.
pub open spec fn graph_edges(ids: Seq<Seq<char>>, conns: Seq<(Seq<char>, Seq<char>)>) -> Result<
    Seq<(usize, usize)>,
    GraphErrorView,
>
    decreases conns.len(),
{
    if conns.len() == 0 {
        Ok(Seq::empty())
    } else {
        match graph_edges(ids, conns.drop_last()) {
            Err(e) => Err(e),
            Ok(es) => {
                let (from, to) = conns.last();
                match endpoint_parts(from) {
                    None => Err(GraphErrorView::InvalidFrom(from)),
                    Some((from_node, _)) => match endpoint_parts(to) {
                        None => Err(GraphErrorView::InvalidTo(to)),
                        Some((to_node, _)) => match last_index_of(ids, from_node) {
                            None => Err(GraphErrorView::UnknownNode(from_node)),
                            Some(a) => match last_index_of(ids, to_node) {
                                None => Err(GraphErrorView::UnknownNode(to_node)),
                                Some(b) => Ok(es.push((a as usize, b as usize))),
                            },
                        },
                    },
                }
            },
        }
    }
}

/// The names of the nodes with the given indices.
pub open spec fn names_of(ids: Seq<Seq<char>>, order: Seq<usize>) -> Seq<Seq<char>> {
    order.map_values(|i: usize| ids[i as int])
}

/// The character sequences of a vector of strings.
pub open spec fn string_views(v: Seq<String>) -> Seq<Seq<char>> {
    v.map_values(|s: String| s@)
}

/// The character sequences of a vector of string slices.
pub open spec fn str_views(v: Seq<&str>) -> Seq<Seq<char>> {
    v.map_values(|s: &str| s@)
}

/// Sources of the edges into node `idx`, most recently added first.
pub open spec fn incoming(edges: Seq<(usize, usize)>, idx: usize) -> Seq<usize>
    decreases edges.len(),
{
    if edges.len() == 0 {
        Seq::empty()
    } else {
        let rest = incoming(edges.drop_last(), idx);
        if edges.last().1 == idx {
            seq![edges.last().0] + rest
        } else {
            rest
        }
    }
}

/// Targets of the edges out of node `idx`, most recently added first.
pub open spec fn outgoing(edges: Seq<(usize, usize)>, idx: usize) -> Seq<usize>
    decreases edges.len(),
{
    if edges.len() == 0 {
        Seq::empty()
    } else {
        let rest = outgoing(edges.drop_last(), idx);
        if edges.last().0 == idx {
            seq![edges.last().1] + rest
        } else {
            rest
        }
    }
}

/// Splits `node_id/port_name` at its first `/`.
pub fn parse_endpoint(endpoint: &str) -> (r: Option<(String, String)>)
    ensures
        match endpoint_parts(endpoint@) {
            Some((a, b)) => r matches Some(p) && p.0@ == a && p.1@ == b,
            None => r is None,
        },
{
    let chars = chars_of(endpoint);
    let k = find_char(&chars, '/');
    proof {
        crate::text::lemma_split_first(endpoint@, '/');
    }
    if k < chars.len() {
        let node = endpoint.substring_char(0, k);
        let port = endpoint.substring_char(k + 1, chars.len());
        proof {
            assert(node@ =~= endpoint@.take(k as int));
            assert(port@ =~= endpoint@.skip(k + 1));
        }
        Some((node.to_owned(), port.to_owned()))
    } else {
        None
    }
}

/// The index of the last node named `name`.
fn find_last(ids: &Vec<String>, name: &String) -> (r: Option<usize>)
    ensures
        match last_index_of(string_views(ids@), name@) {
            Some(i) => r == Some(i as usize),
            None => r is None,
        },
{
    let mut k = ids.len();
    assert(string_views(ids@).take(k as int) =~= string_views(ids@));
    while k > 0
        invariant
            k <= ids.len(),
            last_index_of(string_views(ids@), name@) == last_index_of(
                string_views(ids@).take(k as int),
                name@,
            ),
        decreases k,
    {
        let ghost pre = string_views(ids@).take(k as int);
        assert(pre.drop_last() =~= string_views(ids@).take(k - 1));
        assert(pre.last() == ids@[k - 1]@);
        if ids[k - 1] == *name {
            return Some(k - 1);
        }
        k -= 1;
    }
    None
}

impl TaskGraph {
    /// Well-formedness: edges and ports correspond, every edge joins declared nodes,
    /// and `order` is a topological order whose names are the execution order.
    pub closed spec fn wf(&self) -> bool {
        &&& self.edges@.len() == self.ports@.len()
        &&& edges_within(self.node_ids@.len(), self.edges@)
        &&& is_topo_order(self.node_ids@.len(), self.edges@, self.order@)
        &&& string_views(self.execution_order@) == names_of(
            string_views(self.node_ids@),
            self.order@,
        )
    }

    pub closed spec fn spec_node_ids(&self) -> Seq<Seq<char>> {
        string_views(self.node_ids@)
    }

    pub closed spec fn spec_edges(&self) -> Seq<(usize, usize)> {
        self.edges@
    }

    pub closed spec fn spec_order(&self) -> Seq<usize> {
        self.order@
    }

    pub closed spec fn spec_execution_order(&self) -> Seq<Seq<char>> {
        string_views(self.execution_order@)
    }

    pub closed spec fn spec_wf(&self) -> bool {
        self.wf()
    }

    /// Builds a task graph from node names (in declaration order) and connections.
    ///
    /// Connections are read in order; the first malformed endpoint or unknown node
    /// is the error. A cycle among the edges is an error naming a node on it.
    /// Otherwise the execution order is the topological order `petgraph` computes,
    /// with every node before the nodes it feeds.
    pub fn build(node_ids: &Vec<String>, connections: &Vec<ConnectionConfig>) -> (r: Result<
        TaskGraph,
        GraphError,
    >)
        requires
            node_ids.len() < u32::MAX,
            connections.len() < u32::MAX,
        ensures
            ({
                let ids = string_views(node_ids@);
                let conns = connections@.map_values(|c: ConnectionConfig| conn_view(c));
                match graph_edges(ids, conns) {
                    Err(e) => r matches Err(err) && err@ == e,
                    Ok(es) => match petgraph_toposort(ids.len(), es) {
                        Ok(order) => r matches Ok(g) && g.spec_wf() && g.spec_node_ids() == ids
                            && g.spec_edges() == es && g.spec_order() == order
                            && is_topo_order(ids.len(), es, order)
                            && g.spec_execution_order() == names_of(ids, order),
                        Err(c) => r matches Err(err) && err@ == GraphErrorView::Cycle(
                            ids[c as int],
                        ) && forall|o: Seq<usize>| !is_topo_order(ids.len(), es, o),
                    },
                }
            }),
    {
        let ghost ids = string_views(node_ids@);
        let ghost conns = connections@.map_values(|c: ConnectionConfig| conn_view(c));
        let mut edges: Vec<(usize, usize)> = Vec::new();
        let mut ports: Vec<ConnectionEdge> = Vec::new();
        let mut i: usize = 0;
        while i < connections.len()
            invariant
                i <= connections.len(),
                node_ids.len() < u32::MAX,
                connections.len() < u32::MAX,
                ids == string_views(node_ids@),
                conns == connections@.map_values(|c: ConnectionConfig| conn_view(c)),
                graph_edges(ids, conns.take(i as int)) == Ok::<
                    Seq<(usize, usize)>,
                    GraphErrorView,
                >(edges@),
                edges@.len() == ports@.len(),
                edges@.len() == i,
                edges_within(node_ids@.len(), edges@),
            decreases connections.len() - i,
        {
            let conn = &connections[i];
            assert(conns.take(i + 1).drop_last() =~= conns.take(i as int));
            assert(conns.take(i + 1).last() == conn_view(*conn));
            let (from_node, from_port) = match parse_endpoint(conn.from.as_str()) {
                Some(p) => p,
                None => {
                    proof {
                        lemma_graph_edges_err_sticks(ids, conns, i as int + 1);
                    }
                    return Err(GraphError::InvalidFrom(conn.from.clone()));
                },
            };
            let (to_node, to_port) = match parse_endpoint(conn.to.as_str()) {
                Some(p) => p,
                None => {
                    proof {
                        lemma_graph_edges_err_sticks(ids, conns, i as int + 1);
                    }
                    return Err(GraphError::InvalidTo(conn.to.clone()));
                },
            };
            let a = match find_last(node_ids, &from_node) {
                Some(a) => a,
                None => {
                    proof {
                        lemma_graph_edges_err_sticks(ids, conns, i as int + 1);
                    }
                    return Err(GraphError::UnknownNode(from_node));
                },
            };
            let b = match find_last(node_ids, &to_node) {
                Some(b) => b,
                None => {
                    proof {
                        lemma_graph_edges_err_sticks(ids, conns, i as int + 1);
                    }
                    return Err(GraphError::UnknownNode(to_node));
                },
            };
            proof {
                lemma_last_index_bound(ids, from_node@);
                lemma_last_index_bound(ids, to_node@);
            }
            edges.push((a, b));
            ports.push(ConnectionEdge { from_port, to_port });
            i += 1;
        }
        assert(conns.take(connections.len() as int) =~= conns);
        match toposort_indices(node_ids.len(), &edges) {
            Ok(order) => {
                let mut execution_order: Vec<String> = Vec::new();
                let mut j: usize = 0;
                while j < order.len()
                    invariant
                        j <= order.len(),
                        is_topo_order(node_ids@.len(), edges@, order@),
                        string_views(execution_order@) == names_of(ids, order@.take(j as int)),
                        ids == string_views(node_ids@),
                    decreases order.len() - j,
                {
                    let idx = order[j];
                    assert(idx < node_ids.len());
                    let ghost before = string_views(execution_order@);
                    execution_order.push(node_ids[idx].clone());
                    assert(string_views(execution_order@) =~= before.push(ids[idx as int]));
                    assert(names_of(ids, order@.take(j + 1)) =~= names_of(
                        ids,
                        order@.take(j as int),
                    ).push(ids[idx as int]));
                    j += 1;
                }
                assert(order@.take(order.len() as int) =~= order@);
                let g = TaskGraph {
                    node_ids: node_ids.clone(),
                    edges,
                    ports,
                    order,
                    execution_order,
                };
                assert(string_views(g.node_ids@) =~= ids);
                Ok(g)
            },
            Err(c) => Err(GraphError::Cycle(node_ids[c].clone())),
        }
    }

    /// Node names in execution order.
    pub fn execution_order(&self) -> (s: &[String])
        ensures
            string_views(s@) == self.spec_execution_order(),
    {
        self.execution_order.as_slice()
    }

    /// Number of nodes (declarations, counting repeated names).
    pub fn node_count(&self) -> (n: usize)
        ensures
            n == self.spec_node_ids().len(),
    {
        self.node_ids.len()
    }

    /// Number of connections.
    pub fn edge_count(&self) -> (n: usize)
        ensures
            n == self.spec_edges().len(),
    {
        self.edges.len()
    }

    /// Upstream nodes of `node_id`: the sources of its incoming connections, most
    /// recently added first; empty for an unknown node.
    pub fn dependencies(&self, node_id: &str) -> (r: Vec<&str>)
        requires
            self.spec_wf(),
        ensures
            match last_index_of(self.spec_node_ids(), node_id@) {
                Some(idx) => str_views(r@) == names_of(
                    self.spec_node_ids(),
                    incoming(self.spec_edges(), idx as usize),
                ),
                None => r@.len() == 0,
            },
    {
        let name = node_id.to_owned();
        match find_last(&self.node_ids, &name) {
            None => Vec::new(),
            Some(idx) => {
                let mut r: Vec<&str> = Vec::new();
                let mut k = self.edges.len();
                proof {
                    lemma_last_index_bound(string_views(self.node_ids@), node_id@);
                    assert(self.edges@.take(k as int) =~= self.edges@);
                    assert(str_views(r@) =~= Seq::<Seq<char>>::empty());
                    let x = names_of(string_views(self.node_ids@), incoming(self.edges@, idx));
                    assert(Seq::<Seq<char>>::empty() + x =~= x);
                }
                while k > 0
                    invariant
                        k <= self.edges.len(),
                        self.wf(),
                        idx < self.node_ids.len(),
                        str_views(r@) + names_of(
                            string_views(self.node_ids@),
                            incoming(self.edges@.take(k as int), idx),
                        ) == names_of(string_views(self.node_ids@), incoming(self.edges@, idx)),
                    decreases k,
                {
                    let ghost pre = self.edges@.take(k as int);
                    assert(pre.drop_last() =~= self.edges@.take(k - 1));
                    assert(pre.last() == self.edges@[k - 1]);
                    let (a, b) = self.edges[k - 1];
                    if b == idx {
                        let ghost old_r = str_views(r@);
                        assert(a < self.node_ids.len());
                        r.push(self.node_ids[a].as_str());
                        assert(str_views(r@) =~= old_r.push(self.node_ids@[a as int]@));
                        assert(names_of(string_views(self.node_ids@), seq![a] + incoming(
                            self.edges@.take(k - 1),
                            idx,
                        )) =~= seq![self.node_ids@[a as int]@] + names_of(
                            string_views(self.node_ids@),
                            incoming(self.edges@.take(k - 1), idx),
                        ));
                        assert(str_views(r@) + names_of(
                            string_views(self.node_ids@),
                            incoming(self.edges@.take(k - 1), idx),
                        ) =~= old_r + names_of(
                            string_views(self.node_ids@),
                            incoming(self.edges@.take(k as int), idx),
                        ));
                    }
                    k -= 1;
                }
                assert(self.edges@.take(0) =~= Seq::<(usize, usize)>::empty());
                assert(str_views(r@) + Seq::<Seq<char>>::empty() =~= str_views(r@));
                r
            },
        }
    }

    /// Downstream nodes of `node_id`: the targets of its outgoing connections, most
    /// recently added first; empty for an unknown node.
    pub fn dependents(&self, node_id: &str) -> (r: Vec<&str>)
        requires
            self.spec_wf(),
        ensures
            match last_index_of(self.spec_node_ids(), node_id@) {
                Some(idx) => str_views(r@) == names_of(
                    self.spec_node_ids(),
                    outgoing(self.spec_edges(), idx as usize),
                ),
                None => r@.len() == 0,
            },
    {
        let name = node_id.to_owned();
        match find_last(&self.node_ids, &name) {
            None => Vec::new(),
            Some(idx) => {
                let mut r: Vec<&str> = Vec::new();
                let mut k = self.edges.len();
                proof {
                    lemma_last_index_bound(string_views(self.node_ids@), node_id@);
                    assert(self.edges@.take(k as int) =~= self.edges@);
                    assert(str_views(r@) =~= Seq::<Seq<char>>::empty());
                    let x = names_of(string_views(self.node_ids@), outgoing(self.edges@, idx));
                    assert(Seq::<Seq<char>>::empty() + x =~= x);
                }
                while k > 0
                    invariant
                        k <= self.edges.len(),
                        self.wf(),
                        idx < self.node_ids.len(),
                        str_views(r@) + names_of(
                            string_views(self.node_ids@),
                            outgoing(self.edges@.take(k as int), idx),
                        ) == names_of(string_views(self.node_ids@), outgoing(self.edges@, idx)),
                    decreases k,
                {
                    let ghost pre = self.edges@.take(k as int);
                    assert(pre.drop_last() =~= self.edges@.take(k - 1));
                    assert(pre.last() == self.edges@[k - 1]);
                    let (b, a) = self.edges[k - 1];
                    if b == idx {
                        let ghost old_r = str_views(r@);
                        assert(a < self.node_ids.len());
                        r.push(self.node_ids[a].as_str());
                        assert(str_views(r@) =~= old_r.push(self.node_ids@[a as int]@));
                        assert(names_of(string_views(self.node_ids@), seq![a] + outgoing(
                            self.edges@.take(k - 1),
                            idx,
                        )) =~= seq![self.node_ids@[a as int]@] + names_of(
                            string_views(self.node_ids@),
                            outgoing(self.edges@.take(k - 1), idx),
                        ));
                        assert(str_views(r@) + names_of(
                            string_views(self.node_ids@),
                            outgoing(self.edges@.take(k - 1), idx),
                        ) =~= old_r + names_of(
                            string_views(self.node_ids@),
                            outgoing(self.edges@.take(k as int), idx),
                        ));
                    }
                    k -= 1;
                }
                assert(self.edges@.take(0) =~= Seq::<(usize, usize)>::empty());
                assert(str_views(r@) + Seq::<Seq<char>>::empty() =~= str_views(r@));
                r
            },
        }
    }

    /// Which declaration a node name refers to: the index, among the nodes the graph
    /// was built from, of the last one with that name (a later declaration shadows
    /// an earlier one); `None` for an unknown name.
    pub fn node_config(&self, id: &str) -> (r: Option<usize>)
        ensures
            match last_index_of(self.spec_node_ids(), id@) {
                Some(i) => r == Some(i as usize),
                None => r is None,
            },
    {
        let name = id.to_owned();
        find_last(&self.node_ids, &name)
    }

    /// The distinct node names, each once.
    pub fn node_ids(&self) -> (r: Vec<&str>)
        ensures
            forall|a: int| 0 <= a < r@.len() ==> self.spec_node_ids().contains(#[trigger] r@[a]@),
            forall|m: int|
                0 <= m < self.spec_node_ids().len() ==> str_views(r@).contains(
                    #[trigger] self.spec_node_ids()[m],
                ),
            forall|a: int, b: int| 0 <= a < b < r@.len() ==> r@[a]@ != r@[b]@,
    {
        let ghost ids = string_views(self.node_ids@);
        let mut r: Vec<&str> = Vec::new();
        let mut i: usize = 0;
        while i < self.node_ids.len()
            invariant
                i <= self.node_ids.len(),
                ids == string_views(self.node_ids@),
                forall|a: int|
                    #![trigger r@[a]]
                    0 <= a < r@.len() ==> exists|m: int|
                        0 <= m < i && r@[a]@ == ids[m] && last_index_of(ids, ids[m]) == Some(m),
                forall|m: int|
                    0 <= m < i && last_index_of(ids, ids[m]) == Some(m) ==> str_views(
                        r@,
                    ).contains(#[trigger] ids[m]),
                forall|a: int, b: int| 0 <= a < b < r@.len() ==> r@[a]@ != r@[b]@,
            decreases self.node_ids.len() - i,
        {
            let last = find_last(&self.node_ids, &self.node_ids[i]);
            assert(ids[i as int] == self.node_ids@[i as int]@);
            proof {
                lemma_last_index_bound(ids, ids[i as int]);
            }
            if last == Some(i) {
                assert(last_index_of(ids, ids[i as int]) == Some(i as int));
                let ghost old_r = r@;
                r.push(self.node_ids[i].as_str());
                proof {
                    assert(r@[r@.len() - 1]@ == ids[i as int]);
                    assert(str_views(r@) == str_views(old_r).push(ids[i as int]));
                    assert forall|m: int|
                        0 <= m < i + 1 && last_index_of(ids, ids[m]) == Some(m) implies str_views(
                        r@,
                    ).contains(#[trigger] ids[m]) by {
                        if m < i {
                            assert(str_views(old_r).contains(ids[m]));
                            let w = choose|w: int| 0 <= w < str_views(old_r).len() && str_views(old_r)[w] == ids[m];
                            assert(str_views(r@)[w] == ids[m]);
                        } else {
                            assert(str_views(r@)[r@.len() - 1] == ids[m]);
                        }
                    }
                    assert forall|a: int, b: int| 0 <= a < b < r@.len() implies r@[a]@ != r@[b]@ by {
                        if b == r@.len() - 1 {
                            let m = choose|m: int|
                                0 <= m < i && old_r[a]@ == ids[m] && last_index_of(ids, ids[m])
                                    == Some(m);
                            assert(r@[a] == old_r[a]);
                        } else {
                            assert(r@[a] == old_r[a] && r@[b] == old_r[b]);
                        }
                    }
                    assert forall|a: int| #![trigger r@[a]] 0 <= a < r@.len() implies exists|m: int|
                        0 <= m < i + 1 && r@[a]@ == ids[m] && last_index_of(ids, ids[m]) == Some(
                            m,
                        ) by {
                        if a < r@.len() - 1 {
                            assert(r@[a] == old_r[a]);
                            let m = choose|m: int|
                                0 <= m < i && old_r[a]@ == ids[m] && last_index_of(ids, ids[m])
                                    == Some(m);
                            assert(0 <= m < i + 1 && r@[a]@ == ids[m] && last_index_of(ids, ids[m]) == Some(m));
                        } else {
                            assert(0 <= i < i + 1 && r@[a]@ == ids[i as int] && last_index_of(ids, ids[i as int]) == Some(i as int));
                        }
                    }
                }
            } else {
                proof {
                    assert forall|m: int|
                        0 <= m < i + 1 && last_index_of(ids, ids[m]) == Some(m) implies str_views(
                        r@,
                    ).contains(#[trigger] ids[m]) by {
                        if m == i {
                            assert(false);
                        }
                    }
                }
            }
            i += 1;
        }
        proof {
            assert forall|a: int| 0 <= a < r@.len() implies self.spec_node_ids().contains(
                #[trigger] r@[a]@,
            ) by {
                let m = choose|m: int|
                    0 <= m < i && r@[a]@ == ids[m] && last_index_of(ids, ids[m]) == Some(m);
            }
            assert forall|m: int| 0 <= m < ids.len() implies str_views(r@).contains(
                #[trigger] ids[m],
            ) by {
                lemma_last_index_found(ids, m);
                lemma_last_index_bound(ids, ids[m]);
                let w = last_index_of(ids, ids[m])->0;
                assert(last_index_of(ids, ids[w]) == Some(w));
            }
        }
        r
    }
}

/// A name that occurs has a last occurrence.
proof fn lemma_last_index_found(ids: Seq<Seq<char>>, m: int)
    requires
        0 <= m < ids.len(),
    ensures
        last_index_of(ids, ids[m]) is Some,
    decreases ids.len(),
{
    if ids.last() != ids[m] {
        assert(m < ids.len() - 1);
        assert(ids.drop_last()[m] == ids[m]);
        lemma_last_index_found(ids.drop_last(), m);
    }
}

/// Every connection goes forward in the execution order: the node it leaves comes
/// before the node it enters.
pub proof fn law_connections_go_forward(g: &TaskGraph, k: int, i: int, j: int)
    requires
        g.spec_wf(),
        0 <= k < g.spec_edges().len(),
        0 <= i < g.spec_order().len(),
        0 <= j < g.spec_order().len(),
        g.spec_order()[i] == g.spec_edges()[k].0,
        g.spec_order()[j] == g.spec_edges()[k].1,
    ensures
        i < j,
        g.spec_execution_order()[i] == g.spec_node_ids()[g.spec_edges()[k].0 as int],
        g.spec_execution_order()[j] == g.spec_node_ids()[g.spec_edges()[k].1 as int],
{
    assert(g.edges@[k] == g.spec_edges()[k]);
    assert(g.order@[i] == g.spec_order()[i]);
}

/// The execution order is a topological order that lists every node exactly once:
/// each node index appears at exactly one position, and the execution order names
/// the node at each position.
pub proof fn law_execution_order_is_permutation(g: &TaskGraph, i: int)
    requires
        g.spec_wf(),
        0 <= i < g.spec_node_ids().len(),
    ensures
        is_topo_order(g.spec_node_ids().len(), g.spec_edges(), g.spec_order()),
        g.spec_execution_order().len() == g.spec_node_ids().len(),
        exists|j: int|
            0 <= j < g.spec_order().len() && #[trigger] g.spec_order()[j] == i
                && g.spec_execution_order()[j] == g.spec_node_ids()[i],
        forall|j: int, k: int|
            0 <= j < g.spec_order().len() && 0 <= k < g.spec_order().len() && g.spec_order()[j] == i
                && g.spec_order()[k] == i ==> j == k,
{
    let n = g.spec_node_ids().len();
    let o = g.spec_order();
    assert(o == g.order@);
    let t = o.map_values(|x: usize| x as int);
    assert(t.no_duplicates()) by {
        assert forall|a: int, b: int| 0 <= a < t.len() && 0 <= b < t.len() && a != b implies t[a]
            != t[b] by {
            assert(o[a] != o[b]);
        }
    }
    t.unique_seq_to_set();
    vstd::set_lib::lemma_int_range(0, n as int);
    let r = vstd::set_lib::set_int_range(0, n as int);
    assert(t.to_set().subset_of(r)) by {
        assert forall|x: int| t.to_set().contains(x) implies r.contains(x) by {
            let j = choose|j: int| 0 <= j < t.len() && t[j] == x;
            assert((o[j] as int) < n);
        }
    }
    vstd::seq_lib::seq_to_set_is_finite(t);
    vstd::set_lib::lemma_subset_equality(t.to_set(), r);
    assert(r.contains(i));
    assert(t.to_set().contains(i));
    let j = choose|j: int| 0 <= j < t.len() && t[j] == i;
    assert(o[j] == i);
    assert(g.spec_execution_order()[j] == g.spec_node_ids()[i]);
}

proof fn lemma_last_index_bound(ids: Seq<Seq<char>>, name: Seq<char>)
    ensures
        last_index_of(ids, name) matches Some(i) ==> 0 <= i < ids.len() && ids[i] == name,
    decreases ids.len(),
{
    if ids.len() > 0 && ids.last() != name {
        lemma_last_index_bound(ids.drop_last(), name);
    }
}

/// Once reading the first `i` connections fails, reading all of them fails the same way.
proof fn lemma_graph_edges_err_sticks(
    ids: Seq<Seq<char>>,
    conns: Seq<(Seq<char>, Seq<char>)>,
    i: int,
)
    requires
        0 <= i <= conns.len(),
        graph_edges(ids, conns.take(i)) is Err,
    ensures
        graph_edges(ids, conns) == graph_edges(ids, conns.take(i)),
    decreases conns.len() - i,
{
    if i < conns.len() {
        assert(conns.take(i + 1).drop_last() =~= conns.take(i));
        lemma_graph_edges_err_sticks(ids, conns, i + 1);
    } else {
        assert(conns.take(i) =~= conns);
    }
}

} // verus!
