//! The parameterised graph-query builder: ordered node and edge descriptions
//! that compile deterministically to a query text with `$param_N`
//! placeholders, and the retrieval-query template.

use vstd::prelude::*;

use crate::text::dec_str;
use crate::text::push_u64_dec;

verus! {

/// Node identifiers handed to a retrieval query.
pub type Labels = Vec<usize>;

/// The mathematical value of a [`Node`].
#[verifier::ext_equal]
pub ghost struct NodeView {
    pub label: Seq<char>,
    pub properties: Seq<(Seq<char>, Seq<char>)>,
}

/// A node to create: a label and an ordered list of key/value properties.
#[derive(Debug, Clone, PartialEq, Eq)]
pub struct Node {
    label: String,
    properties: Vec<(String, String)>,
}

impl View for Node {
    type V = NodeView;

    closed spec fn view(&self) -> NodeView {
        NodeView {
            label: self.label@,
            properties: self.properties@.map_values(|p: (String, String)| (p.0@, p.1@)),
        }
    }
}

/// The mathematical value of an [`Edge`].
#[verifier::ext_equal]
pub ghost struct EdgeView {
    pub source: Seq<char>,
    pub target: Seq<char>,
    pub relation: Seq<char>,
}

/// An edge to create between the first nodes carrying the two labels.
#[derive(Debug, Clone, PartialEq, Eq)]
pub struct Edge {
    source: String,
    target: String,
    edge_relation: String,
}

impl View for Edge {
    type V = EdgeView;

    closed spec fn view(&self) -> EdgeView {
        EdgeView { source: self.source@, target: self.target@, relation: self.edge_relation@ }
    }
}

/// The views of a node list.
pub open spec fn node_views(ns: Seq<Node>) -> Seq<NodeView> {
    ns.map_values(|n: Node| n@)
}

/// The views of an edge list.
pub open spec fn edge_views(es: Seq<Edge>) -> Seq<EdgeView> {
    es.map_values(|e: Edge| e@)
}

/// The views of a string list.
pub open spec fn string_views(ss: Seq<String>) -> Seq<Seq<char>> {
    ss.map_values(|s: String| s@)
}

/// The mathematical value of a [`Neo4jQueryBuilder`].
#[verifier::ext_equal]
pub ghost struct BuilderView {
    pub nodes: Seq<NodeView>,
    pub edges: Seq<EdgeView>,
    pub return_fields: Seq<Seq<char>>,
    pub limit: Option<usize>,
}

/// Whether some node of `nodes` carries the label `lbl`.
pub open spec fn has_label(nodes: Seq<NodeView>, lbl: Seq<char>) -> bool {
    exists|i: int| 0 <= i < nodes.len() && (#[trigger] nodes[i]).label == lbl
}

/// The builder invariant: every edge's source and target labels appear as
/// nodes.
pub open spec fn builder_wf(b: BuilderView) -> bool {
    forall|i: int|
        0 <= i < b.edges.len() ==> {
            &&& has_label(b.nodes, (#[trigger] b.edges[i]).source)
            &&& has_label(b.nodes, b.edges[i].target)
        }
}

/// A structured description of nodes and edges to create, with optional
/// return fields and an optional limit.
#[derive(Debug, Clone, PartialEq, Eq)]
pub struct Neo4jQueryBuilder {
    nodes: Vec<Node>,
    edges: Vec<Edge>,
    return_fields: Vec<String>,
    limit: Option<usize>,
}

impl View for Neo4jQueryBuilder {
    type V = BuilderView;

    closed spec fn view(&self) -> BuilderView {
        BuilderView {
            nodes: node_views(self.nodes@),
            edges: edge_views(self.edges@),
            return_fields: string_views(self.return_fields@),
            limit: self.limit,
        }
    }
}

impl Node {
    /// The node's label.
    pub fn label_str(&self) -> (r: &str)
        ensures
            r@ == self@.label,
    {
        self.label.as_str()
    }

    /// The node's properties, in insertion order.
    pub fn properties_list(&self) -> (r: &Vec<(String, String)>)
        ensures
            r@.map_values(|p: (String, String)| (p.0@, p.1@)) == self@.properties,
    {
        &self.properties
    }
}

impl Edge {
    /// The label of the source node.
    pub fn source_str(&self) -> (r: &str)
        ensures
            r@ == self@.source,
    {
        self.source.as_str()
    }

    /// The label of the target node.
    pub fn target_str(&self) -> (r: &str)
        ensures
            r@ == self@.target,
    {
        self.target.as_str()
    }

    /// The relation label of the edge.
    pub fn relation_str(&self) -> (r: &str)
        ensures
            r@ == self@.relation,
    {
        self.edge_relation.as_str()
    }
}

/// The error of [`Neo4jQueryBuilder::add_edge`]: an endpoint label that no
/// node carries yet.
#[derive(Debug, Clone, PartialEq, Eq)]
pub struct UnknownEndpoint;

/// A query message for the graph worker: either a structured build
/// description or a neighborhood fetch by node id.
#[derive(Debug, Clone, PartialEq, Eq)]
pub enum Neo4jQuery {
    Builder(Neo4jQueryBuilder),
    Retrieve(Labels),
}

/// Linear scan of the node list for a label.
fn nodes_have_label(nodes: &Vec<Node>, lbl: &String) -> (r: bool)
    ensures
        r == has_label(node_views(nodes@), lbl@),
{
    let ghost views = node_views(nodes@);
    let mut i: usize = 0;
    while i < nodes.len()
        invariant
            0 <= i <= nodes.len(),
            views == node_views(nodes@),
            forall|j: int| 0 <= j < i ==> (#[trigger] views[j]).label != lbl@,
        decreases nodes.len() - i,
    {
        if nodes[i].label == *lbl {
            assert(views[i as int].label == lbl@);
            return true;
        }
        i += 1;
    }
    false
}

impl Neo4jQueryBuilder {
    /// An empty builder.
    pub fn new() -> (b: Neo4jQueryBuilder)
        ensures
            b@.nodes == Seq::<NodeView>::empty(),
            b@.edges == Seq::<EdgeView>::empty(),
            b@.return_fields == Seq::<Seq<char>>::empty(),
            b@.limit is None,
            builder_wf(b@),
    {
        let b = Neo4jQueryBuilder {
            nodes: Vec::new(),
            edges: Vec::new(),
            return_fields: Vec::new(),
            limit: None,
        };
        proof {
            assert(b@.nodes =~= Seq::<NodeView>::empty());
            assert(b@.edges =~= Seq::<EdgeView>::empty());
            assert(b@.return_fields =~= Seq::<Seq<char>>::empty());
        }
        b
    }

    /// Registers a node with the given label and properties.
    pub fn create_node(self, label: &str, properties: &Vec<(String, String)>) -> (b:
        Neo4jQueryBuilder)
        ensures
            b@.nodes == self@.nodes.push(
                NodeView {
                    label: label@,
                    properties: properties@.map_values(|p: (String, String)| (p.0@, p.1@)),
                },
            ),
            b@.edges == self@.edges,
            b@.return_fields == self@.return_fields,
            b@.limit == self@.limit,
            builder_wf(self@) ==> builder_wf(b@),
    {
        let ghost pre = self@;
        let mut props: Vec<(String, String)> = Vec::new();
        let mut i: usize = 0;
        while i < properties.len()
            invariant
                0 <= i <= properties.len(),
                props@.map_values(|p: (String, String)| (p.0@, p.1@)) =~= properties@.subrange(
                    0,
                    i as int,
                ).map_values(|p: (String, String)| (p.0@, p.1@)),
            decreases properties.len() - i,
        {
            let ghost prev = props@.map_values(|p: (String, String)| (p.0@, p.1@));
            let k = properties[i].0.clone();
            let v = properties[i].1.clone();
            props.push((k, v));
            proof {
                assert(props@.map_values(|p: (String, String)| (p.0@, p.1@)) =~= prev.push(
                    (properties@[i as int].0@, properties@[i as int].1@),
                ));
                assert(properties@.subrange(0, i + 1 as int).map_values(
                    |p: (String, String)| (p.0@, p.1@),
                ) =~= properties@.subrange(0, i as int).map_values(
                    |p: (String, String)| (p.0@, p.1@),
                ).push((properties@[i as int].0@, properties@[i as int].1@)));
            }
            i += 1;
        }
        let node = Node { label: label.to_owned(), properties: props };
        let mut b = self;
        b.nodes.push(node);
        proof {
            assert(properties@.subrange(0, properties@.len() as int) =~= properties@);
            assert(b@.nodes =~= pre.nodes.push(
                NodeView {
                    label: label@,
                    properties: properties@.map_values(|p: (String, String)| (p.0@, p.1@)),
                },
            ));
            assert(b@.edges =~= pre.edges);
            assert(b@.return_fields =~= pre.return_fields);
            if builder_wf(pre) {
                assert forall|i: int| 0 <= i < b@.edges.len() implies {
                    &&& has_label(b@.nodes, (#[trigger] b@.edges[i]).source)
                    &&& has_label(b@.nodes, b@.edges[i].target)
                } by {
                    assert(b@.edges[i] == pre.edges[i]);
                    let s = choose|k: int|
                        0 <= k < pre.nodes.len() && (#[trigger] pre.nodes[k]).label
                            == pre.edges[i].source;
                    assert(b@.nodes[s].label == pre.edges[i].source);
                    let t = choose|k: int|
                        0 <= k < pre.nodes.len() && (#[trigger] pre.nodes[k]).label
                            == pre.edges[i].target;
                    assert(b@.nodes[t].label == pre.edges[i].target);
                }
            }
        }
        b
    }

    /// Registers an edge; fails exactly when one of the labels has not yet
    /// been registered as a node, leaving the builder unchanged.
    pub fn add_edge(self, source: &String, target: &String, relation: &str) -> (r: Result<
        Neo4jQueryBuilder,
        UnknownEndpoint,
    >)
        ensures
            match r {
                Ok(b) => {
                    &&& has_label(self@.nodes, source@)
                    &&& has_label(self@.nodes, target@)
                    &&& b@.nodes == self@.nodes
                    &&& b@.edges == self@.edges.push(
                        EdgeView { source: source@, target: target@, relation: relation@ },
                    )
                    &&& b@.return_fields == self@.return_fields
                    &&& b@.limit == self@.limit
                    &&& builder_wf(self@) ==> builder_wf(b@)
                },
                Err(_) => !(has_label(self@.nodes, source@) && has_label(self@.nodes, target@)),
            },
    {
        let ghost pre = self@;
        if !nodes_have_label(&self.nodes, source) {
            return Err(UnknownEndpoint);
        }
        if !nodes_have_label(&self.nodes, target) {
            return Err(UnknownEndpoint);
        }
        let edge = Edge {
            source: source.clone(),
            target: target.clone(),
            edge_relation: relation.to_owned(),
        };
        let ghost ev = edge@;
        let mut b = self;
        b.edges.push(edge);
        proof {
            assert(b@.edges =~= pre.edges.push(ev));
            if builder_wf(pre) {
                assert forall|i: int| 0 <= i < b@.edges.len() implies {
                    &&& has_label(b@.nodes, (#[trigger] b@.edges[i]).source)
                    &&& has_label(b@.nodes, b@.edges[i].target)
                } by {
                    if i < pre.edges.len() {
                        assert(b@.edges[i] == pre.edges[i]);
                    } else {
                        assert(b@.edges[i] == ev);
                    }
                }
            }
        }
        Ok(b)
    }

    /// Replaces the return fields.
    pub fn return_fields(self, fields: &Vec<String>) -> (b: Neo4jQueryBuilder)
        ensures
            b@.nodes == self@.nodes,
            b@.edges == self@.edges,
            b@.return_fields == string_views(fields@),
            b@.limit == self@.limit,
            builder_wf(self@) ==> builder_wf(b@),
    {
        let mut fs: Vec<String> = Vec::new();
        let mut i: usize = 0;
        while i < fields.len()
            invariant
                0 <= i <= fields.len(),
                string_views(fs@) =~= string_views(fields@.subrange(0, i as int)),
            decreases fields.len() - i,
        {
            let ghost prev = string_views(fs@);
            fs.push(fields[i].clone());
            proof {
                assert(string_views(fs@) =~= prev.push(fields@[i as int]@));
                assert(string_views(fields@.subrange(0, i + 1 as int)) =~= string_views(
                    fields@.subrange(0, i as int),
                ).push(fields@[i as int]@));
            }
            i += 1;
        }
        let mut b = self;
        b.return_fields = fs;
        proof {
            assert(fields@.subrange(0, fields@.len() as int) =~= fields@);
            if builder_wf(self@) {
                assert forall|i: int| 0 <= i < b@.edges.len() implies {
                    &&& has_label(b@.nodes, (#[trigger] b@.edges[i]).source)
                    &&& has_label(b@.nodes, b@.edges[i].target)
                } by {
                    assert(b@.edges[i] == self@.edges[i]);
                    assert(has_label(self@.nodes, self@.edges[i].source));
                    assert(has_label(self@.nodes, self@.edges[i].target));
                }
            }
        }
        b
    }

    /// The registered nodes, in order.
    pub fn nodes_list(&self) -> (r: &Vec<Node>)
        ensures
            node_views(r@) == self@.nodes,
    {
        &self.nodes
    }

    /// The registered edges, in order.
    pub fn edges_list(&self) -> (r: &Vec<Edge>)
        ensures
            edge_views(r@) == self@.edges,
    {
        &self.edges
    }

    /// The return fields, in order.
    pub fn return_fields_list(&self) -> (r: &Vec<String>)
        ensures
            string_views(r@) == self@.return_fields,
    {
        &self.return_fields
    }

    /// The limit, if one is set.
    pub fn limit_value(&self) -> (r: Option<usize>)
        ensures
            r == self@.limit,
    {
        self.limit
    }

    /// Sets the limit.
    pub fn limit(self, limit: usize) -> (b: Neo4jQueryBuilder)
        ensures
            b@.nodes == self@.nodes,
            b@.edges == self@.edges,
            b@.return_fields == self@.return_fields,
            b@.limit == Some(limit),
            builder_wf(self@) ==> builder_wf(b@),
    {
        let mut b = self;
        b.limit = Some(limit);
        proof {
            if builder_wf(self@) {
                assert forall|i: int| 0 <= i < b@.edges.len() implies {
                    &&& has_label(b@.nodes, (#[trigger] b@.edges[i]).source)
                    &&& has_label(b@.nodes, b@.edges[i].target)
                } by {
                    assert(b@.edges[i] == self@.edges[i]);
                    assert(has_label(self@.nodes, self@.edges[i].source));
                    assert(has_label(self@.nodes, self@.edges[i].target));
                }
            }
        }
        b
    }
}

} // verus!

verus! {

/// The parameter name for global property index `i`: `param_<i>`.
pub open spec fn param_name(i: nat) -> Seq<char> {
    "param_"@ + dec_str(i)
}

/// One property as it appears in a node's text: `key:$param_<k>`.
pub open spec fn prop_item(p: (Seq<char>, Seq<char>), k: nat) -> Seq<char> {
    p.0 + ":$"@ + param_name(k)
}

/// The comma-separated property list of one node, from position `j` on,
/// with `k` the global index of property `j`.
pub open spec fn props_text_from(props: Seq<(Seq<char>, Seq<char>)>, j: int, k: nat) -> Seq<char>
    decreases props.len() - j,
{
    if j < 0 || j >= props.len() {
        Seq::empty()
    } else if j == 0 {
        prop_item(props[0], k) + props_text_from(props, 1, (k + 1) as nat)
    } else {
        ", "@ + prop_item(props[j], k) + props_text_from(props, j + 1, (k + 1) as nat)
    }
}

/// The `CREATE` line of one node, with `idx` its insertion index and `k` the
/// global index of its first property.
pub open spec fn node_text(n: NodeView, idx: nat, k: nat) -> Seq<char> {
    if n.properties.len() == 0 {
        "CREATE (n"@ + dec_str(idx) + ":"@ + n.label + ")\n"@
    } else {
        "CREATE (n"@ + dec_str(idx) + ":"@ + n.label + " { "@ + props_text_from(n.properties, 0, k)
            + " })\n"@
    }
}

/// The `CREATE` lines of the nodes from position `i` on, with `k` the global
/// index of the next parameter.
pub open spec fn nodes_text_from(nodes: Seq<NodeView>, i: int, k: nat) -> Seq<char>
    decreases nodes.len() - i,
{
    if i < 0 || i >= nodes.len() {
        Seq::empty()
    } else {
        node_text(nodes[i], i as nat, k) + nodes_text_from(
            nodes,
            i + 1,
            (k + nodes[i].properties.len()) as nat,
        )
    }
}

/// The parameters contributed by one node's properties, with `k` the global
/// index of the first: `(param_<k+j>, value_j)`.
pub open spec fn node_params(props: Seq<(Seq<char>, Seq<char>)>, k: nat) -> Seq<
    (Seq<char>, Seq<char>),
> {
    Seq::new(props.len(), |j: int| (param_name((k + j) as nat), props[j].1))
}

/// The parameters of the nodes from position `i` on.
pub open spec fn params_from(nodes: Seq<NodeView>, i: int, k: nat) -> Seq<(Seq<char>, Seq<char>)>
    decreases nodes.len() - i,
{
    if i < 0 || i >= nodes.len() {
        Seq::empty()
    } else {
        node_params(nodes[i].properties, k) + params_from(
            nodes,
            i + 1,
            (k + nodes[i].properties.len()) as nat,
        )
    }
}

/// The full parameter list of a build, in property insertion order.
pub open spec fn build_params(nodes: Seq<NodeView>) -> Seq<(Seq<char>, Seq<char>)> {
    params_from(nodes, 0, 0)
}

proof fn lemma_params_from_names(nodes: Seq<NodeView>, i: int, k: nat, t: int)
    requires
        0 <= t < params_from(nodes, i, k).len(),
    ensures
        params_from(nodes, i, k)[t].0 == param_name((k + t) as nat),
    decreases nodes.len() - i,
{
    if 0 <= i < nodes.len() {
        let head = node_params(nodes[i].properties, k);
        if t >= head.len() {
            lemma_params_from_names(
                nodes,
                i + 1,
                (k + nodes[i].properties.len()) as nat,
                t - head.len(),
            );
        }
    }
}

/// Law: `build` assigns parameter names `param_0, param_1, ...` in property
/// insertion order; the `t`-th emitted parameter is named `param_<t>`.
pub proof fn lemma_build_param_names(nodes: Seq<NodeView>, t: int)
    requires
        0 <= t < build_params(nodes).len(),
    ensures
        build_params(nodes)[t].0 == param_name(t as nat),
{
    lemma_params_from_names(nodes, 0, 0, t);
}

/// The node list of the `WITH` clause from node `i` on: `n<i>, ` up to
/// `n<count-1> `.
pub open spec fn with_items(i: int, count: int) -> Seq<char>
    decreases count - i,
{
    if i < 0 || i >= count {
        Seq::empty()
    } else if i == count - 1 {
        "n"@ + dec_str(i as nat) + " "@
    } else {
        "n"@ + dec_str(i as nat) + ", "@ + with_items(i + 1, count)
    }
}

/// The `WITH` clause carrying every node in scope.
pub open spec fn with_clause(count: int) -> Seq<char> {
    "WITH "@ + with_items(0, count)
}

/// The position of the first node carrying label `lbl`.
pub open spec fn is_first_label_index(nodes: Seq<NodeView>, lbl: Seq<char>, r: int) -> bool {
    &&& 0 <= r < nodes.len()
    &&& nodes[r].label == lbl
    &&& forall|j: int| 0 <= j < r ==> (#[trigger] nodes[j]).label != lbl
}

/// The first node index carrying label `lbl` (meaningful only when some node
/// does).
pub open spec fn first_label_index(nodes: Seq<NodeView>, lbl: Seq<char>) -> int {
    choose|r: int| is_first_label_index(nodes, lbl, r)
}

/// The first-match position exists and is unique.
proof fn lemma_first_label_index(nodes: Seq<NodeView>, lbl: Seq<char>, r: int)
    requires
        is_first_label_index(nodes, lbl, r),
    ensures
        first_label_index(nodes, lbl) == r,
{
    let w = first_label_index(nodes, lbl);
    assert(is_first_label_index(nodes, lbl, w));
    if w < r {
        assert(nodes[w].label != lbl);
    }
    if r < w {
        assert(nodes[r].label != lbl);
    }
}

/// The `MATCH ... CREATE` line of one edge, between the first nodes carrying
/// its labels.
pub open spec fn edge_text(nodes: Seq<NodeView>, e: EdgeView) -> Seq<char> {
    let s = first_label_index(nodes, e.source) as nat;
    let t = first_label_index(nodes, e.target) as nat;
    "MATCH (n"@ + dec_str(s) + ":"@ + e.source + "), (n"@ + dec_str(t) + ":"@ + e.target
        + ") CREATE (n"@ + dec_str(s) + ")-[:"@ + e.relation + "]->(n"@ + dec_str(t) + ")\n"@
}

/// The edge statements from position `i` on, each prefixed by the `WITH`
/// clause.
pub open spec fn edges_text_from(nodes: Seq<NodeView>, edges: Seq<EdgeView>, i: int) -> Seq<char>
    decreases edges.len() - i,
{
    if i < 0 || i >= edges.len() {
        Seq::empty()
    } else {
        with_clause(nodes.len() as int) + edge_text(nodes, edges[i]) + edges_text_from(
            nodes,
            edges,
            i + 1,
        )
    }
}

/// The return-field list from position `j` on, each field prefixed by `n.`.
pub open spec fn fields_text_from(fs: Seq<Seq<char>>, j: int) -> Seq<char>
    decreases fs.len() - j,
{
    if j < 0 || j >= fs.len() {
        Seq::empty()
    } else if j == 0 {
        "n."@ + fs[0] + fields_text_from(fs, 1)
    } else {
        ", "@ + "n."@ + fs[j] + fields_text_from(fs, j + 1)
    }
}

/// The `RETURN` clause, empty when there are no return fields.
pub open spec fn return_text(fs: Seq<Seq<char>>) -> Seq<char> {
    if fs.len() == 0 {
        Seq::empty()
    } else {
        " RETURN "@ + fields_text_from(fs, 0) + "\n"@
    }
}

/// The `LIMIT` clause, empty when no limit is set.
pub open spec fn limit_text(l: Option<usize>) -> Seq<char> {
    match l {
        None => Seq::empty(),
        Some(n) => " LIMIT "@ + dec_str(n as nat) + "\n"@,
    }
}

/// The full deterministic text of a build.
pub open spec fn build_text(b: BuilderView) -> Seq<char> {
    nodes_text_from(b.nodes, 0, 0) + (if b.edges.len() == 0 {
        Seq::<char>::empty()
    } else {
        edges_text_from(b.nodes, b.edges, 0)
    }) + return_text(b.return_fields) + limit_text(b.limit)
}

} // verus!

verus! {

/// The views of an exec parameter list.
pub open spec fn param_views(ps: Seq<(String, String)>) -> Seq<(Seq<char>, Seq<char>)> {
    ps.map_values(|p: (String, String)| (p.0@, p.1@))
}

/// Linear scan for the first node carrying `lbl`.
fn first_node_index(nodes: &Vec<Node>, lbl: &String) -> (r: usize)
    requires
        has_label(node_views(nodes@), lbl@),
    ensures
        is_first_label_index(node_views(nodes@), lbl@, r as int),
{
    let ghost views = node_views(nodes@);
    let mut i: usize = 0;
    while i < nodes.len()
        invariant
            0 <= i <= nodes.len(),
            views == node_views(nodes@),
            has_label(views, lbl@),
            forall|j: int| 0 <= j < i ==> (#[trigger] views[j]).label != lbl@,
        decreases nodes.len() - i,
    {
        if nodes[i].label == *lbl {
            assert(views[i as int].label == lbl@);
            return i;
        }
        i += 1;
    }
    proof {
        let w = choose|w: int| 0 <= w < views.len() && (#[trigger] views[w]).label == lbl@;
        assert(false);
    }
    0
}

impl Neo4jQueryBuilder {
    /// Compiles the builder to its deterministic query text and parameter
    /// list.
    pub fn build(&self) -> (r: (String, Vec<(String, String)>))
        requires
            builder_wf(self@),
        ensures
            r.0@ == build_text(self@),
            param_views(r.1@) == build_params(self@.nodes),
    {
        let ghost bv = self@;
        let ghost nv = bv.nodes;
        let mut query = String::new();
        let mut params: Vec<(String, String)> = Vec::new();

        let mut i: usize = 0;
        while i < self.nodes.len()
            invariant
                0 <= i <= self.nodes.len(),
                bv == self@,
                nv == bv.nodes,
                builder_wf(bv),
                query@ + nodes_text_from(nv, i as int, params@.len() as nat) =~= nodes_text_from(
                    nv,
                    0,
                    0,
                ),
                param_views(params@) + params_from(nv, i as int, params@.len() as nat)
                    =~= params_from(nv, 0, 0),
            decreases self.nodes.len() - i,
        {
            let ghost q0 = query@;
            let ghost p0 = param_views(params@);
            let ghost k0 = params@.len() as nat;
            let node = &self.nodes[i];
            let ghost nview = nv[i as int];
            proof {
                assert(nview == node@);
            }
            query.append("CREATE (n");
            push_u64_dec(&mut query, i as u64);
            query.append(":");
            query.append(node.label.as_str());
            if node.properties.len() == 0 {
                query.append(")\n");
                proof {
                    assert(nview.properties.len() == 0);
                    assert(query@ =~= q0 + node_text(nview, i as nat, k0));
                }
            } else {
                query.append(" { ");
                let mut ptext = String::new();
                let mut j: usize = 0;
                while j < node.properties.len()
                    invariant
                        0 <= j <= node.properties.len(),
                        nview == node@,
                        p0.len() == k0,
                        params@.len() == p0.len() + j,
                        param_views(params@) =~= p0 + node_params(nview.properties, k0).take(
                            j as int,
                        ),
                        ptext@ + props_text_from(nview.properties, j as int, (k0 + j) as nat)
                            =~= props_text_from(nview.properties, 0, k0),
                    decreases node.properties.len() - j,
                {
                    let ghost t0 = ptext@;
                    let ghost pv0 = param_views(params@);
                    proof {
                        assert(nview.properties[j as int] == (
                            node.properties@[j as int].0@,
                            node.properties@[j as int].1@,
                        ));
                    }
                    if j > 0 {
                        ptext.append(", ");
                    } else {
                        proof {
                            assert(t0.len() == 0);
                            assert(t0 =~= Seq::<char>::empty());
                        }
                    }
                    ptext.append(node.properties[j].0.as_str());
                    ptext.append(":$");
                    let mut pname = String::from_str("param_");
                    let plen = params.len();
                    proof {
                        assert(plen as nat == k0 + j);
                    }
                    push_u64_dec(&mut pname, plen as u64);
                    proof {
                        assert(pname@ == "param_"@ + dec_str((k0 + j) as nat));
                        assert(pname@ == param_name((k0 + j) as nat));
                    }
                    ptext.append(pname.as_str());
                    let value = node.properties[j].1.clone();
                    params.push((pname, value));
                    proof {
                        assert(param_views(params@) =~= pv0.push(
                            (param_name((k0 + j) as nat), nview.properties[j as int].1),
                        ));
                        assert(node_params(nview.properties, k0).take(j + 1 as int)
                            =~= node_params(nview.properties, k0).take(j as int).push(
                            (param_name((k0 + j) as nat), nview.properties[j as int].1),
                        ));
                        assert(param_views(params@) =~= p0 + node_params(nview.properties, k0).take(
                            j + 1 as int,
                        ));
                        if j == 0 {
                            assert(ptext@ =~= prop_item(nview.properties[0], k0));
                        } else {
                            assert(ptext@ =~= t0 + (", "@ + prop_item(
                                nview.properties[j as int],
                                (k0 + j) as nat,
                            )));
                        }
                        assert(ptext@ + props_text_from(
                            nview.properties,
                            j + 1 as int,
                            (k0 + j + 1) as nat,
                        ) =~= props_text_from(nview.properties, 0, k0));
                    }
                    j += 1;
                }
                proof {
                    assert(props_text_from(
                        nview.properties,
                        node.properties@.len() as int,
                        (k0 + node.properties@.len()) as nat,
                    ) =~= Seq::<char>::empty());
                    assert(ptext@ =~= props_text_from(nview.properties, 0, k0));
                }
                query.append(ptext.as_str());
                query.append(" })\n");
                proof {
                    assert(query@ =~= q0 + node_text(nview, i as nat, k0));
                }
            }
            proof {
                assert(param_views(params@) =~= p0 + node_params(nview.properties, k0));
                assert(params_from(nv, i as int, k0) =~= node_params(nview.properties, k0)
                    + params_from(nv, i + 1 as int, (k0 + nview.properties.len()) as nat));
                assert(param_views(params@) + params_from(
                    nv,
                    i + 1 as int,
                    params@.len() as nat,
                ) =~= params_from(nv, 0, 0));
                assert(query@ + nodes_text_from(nv, i + 1 as int, params@.len() as nat)
                    =~= nodes_text_from(nv, 0, 0));
            }
            i += 1;
        }
        proof {
            assert(query@ =~= nodes_text_from(nv, 0, 0));
            assert(param_views(params@) =~= params_from(nv, 0, 0));
        }

        let ghost q1 = query@;
        if self.edges.len() > 0 {
            proof {
                assert(has_label(nv, bv.edges[0].source));
                let w = choose|w: int| 0 <= w < nv.len() && (#[trigger] nv[w]).label
                    == bv.edges[0].source;
                assert(nv.len() >= 1);
            }
            let n = self.nodes.len();
            let mut wc = String::from_str("WITH ");
            let mut t: usize = 0;
            while t < n - 1
                invariant
                    n == nv.len(),
                    n >= 1,
                    0 <= t <= n - 1,
                    wc@ + with_items(t as int, n as int) =~= with_clause(n as int),
                decreases n - 1 - t,
            {
                let ghost w0 = wc@;
                wc.append("n");
                push_u64_dec(&mut wc, t as u64);
                wc.append(", ");
                proof {
                    assert(with_items(t as int, n as int) =~= ("n"@ + dec_str(t as nat) + ", "@)
                        + with_items(t + 1 as int, n as int));
                    assert(wc@ =~= w0 + ("n"@ + dec_str(t as nat) + ", "@));
                    assert(wc@ + with_items(t + 1 as int, n as int) =~= with_clause(n as int));
                }
                t += 1;
            }
            let ghost w1 = wc@;
            wc.append("n");
            push_u64_dec(&mut wc, (n - 1) as u64);
            wc.append(" ");
            proof {
                assert(with_items(n - 1 as int, n as int) =~= "n"@ + dec_str((n - 1) as nat)
                    + " "@);
                assert(wc@ =~= w1 + ("n"@ + dec_str((n - 1) as nat) + " "@));
                assert(wc@ =~= with_clause(n as int));
            }

            let ghost evs = bv.edges;
            let mut e: usize = 0;
            while e < self.edges.len()
                invariant
                    0 <= e <= self.edges.len(),
                    bv == self@,
                    nv == bv.nodes,
                    evs == bv.edges,
                    builder_wf(bv),
                    wc@ == with_clause(nv.len() as int),
                    query@ + edges_text_from(nv, evs, e as int) =~= q1 + edges_text_from(
                        nv,
                        evs,
                        0,
                    ),
                decreases self.edges.len() - e,
            {
                let ghost qe = query@;
                let edge = &self.edges[e];
                let ghost ev = evs[e as int];
                proof {
                    assert(ev == edge@);
                    assert(has_label(nv, ev.source) && has_label(nv, ev.target));
                }
                query.append(wc.as_str());
                let s = first_node_index(&self.nodes, &edge.source);
                let t2 = first_node_index(&self.nodes, &edge.target);
                proof {
                    lemma_first_label_index(nv, ev.source, s as int);
                    lemma_first_label_index(nv, ev.target, t2 as int);
                }
                query.append("MATCH (n");
                push_u64_dec(&mut query, s as u64);
                query.append(":");
                query.append(edge.source.as_str());
                query.append("), (n");
                push_u64_dec(&mut query, t2 as u64);
                query.append(":");
                query.append(edge.target.as_str());
                query.append(") CREATE (n");
                push_u64_dec(&mut query, s as u64);
                query.append(")-[:");
                query.append(edge.edge_relation.as_str());
                query.append("]->(n");
                push_u64_dec(&mut query, t2 as u64);
                query.append(")\n");
                proof {
                    assert(query@ =~= qe + (with_clause(nv.len() as int) + edge_text(nv, ev)));
                    assert(edges_text_from(nv, evs, e as int) =~= (with_clause(nv.len() as int)
                        + edge_text(nv, ev)) + edges_text_from(nv, evs, e + 1 as int));
                    assert(query@ + edges_text_from(nv, evs, e + 1 as int) =~= q1
                        + edges_text_from(nv, evs, 0));
                }
                e += 1;
            }
            proof {
                assert(query@ =~= q1 + edges_text_from(nv, evs, 0));
            }
        }
        proof {
            assert(query@ =~= nodes_text_from(nv, 0, 0) + (if bv.edges.len() == 0 {
                Seq::<char>::empty()
            } else {
                edges_text_from(nv, bv.edges, 0)
            }));
        }

        let ghost q2 = query@;
        if self.return_fields.len() > 0 {
            query.append(" RETURN ");
            let ghost fs = bv.return_fields;
            let mut j: usize = 0;
            while j < self.return_fields.len()
                invariant
                    0 <= j <= self.return_fields.len(),
                    bv == self@,
                    fs == bv.return_fields,
                    fs.len() > 0,
                    query@ + fields_text_from(fs, j as int) =~= q2 + " RETURN "@
                        + fields_text_from(fs, 0),
                decreases self.return_fields.len() - j,
            {
                let ghost qf = query@;
                proof {
                    assert(fs[j as int] == self.return_fields@[j as int]@);
                }
                if j > 0 {
                    query.append(", ");
                }
                query.append("n.");
                query.append(self.return_fields[j].as_str());
                proof {
                    if j == 0 {
                        assert(query@ =~= qf + ("n."@ + fs[0]));
                        assert(fields_text_from(fs, 0) =~= ("n."@ + fs[0]) + fields_text_from(
                            fs,
                            1,
                        ));
                    } else {
                        assert(query@ =~= qf + (", "@ + "n."@ + fs[j as int]));
                        assert(fields_text_from(fs, j as int) =~= (", "@ + "n."@ + fs[j as int])
                            + fields_text_from(fs, j + 1 as int));
                    }
                    assert(query@ + fields_text_from(fs, j + 1 as int) =~= q2 + " RETURN "@
                        + fields_text_from(fs, 0));
                }
                j += 1;
            }
            query.append("\n");
            proof {
                assert(query@ =~= q2 + return_text(bv.return_fields));
            }
        }
        proof {
            assert(query@ =~= q2 + return_text(bv.return_fields));
        }

        let ghost q3 = query@;
        if let Some(l) = self.limit {
            query.append(" LIMIT ");
            push_u64_dec(&mut query, l as u64);
            query.append("\n");
            proof {
                assert(query@ =~= q3 + limit_text(bv.limit));
            }
        }
        proof {
            assert(query@ =~= q3 + limit_text(bv.limit));
            assert(query@ =~= build_text(bv));
            assert(param_views(params@) =~= build_params(bv.nodes));
        }
        (query, params)
    }
}

} // verus!

verus! {

/// The comma-space separated decimal ids from position `i` on.
pub open spec fn retrieve_ids_list(ids: Seq<usize>, i: int) -> Seq<char>
    decreases ids.len() - i,
{
    if i < 0 || i >= ids.len() {
        Seq::empty()
    } else if i == 0 {
        dec_str(ids[0] as nat) + retrieve_ids_list(ids, 1)
    } else {
        ", "@ + dec_str(ids[i] as nat) + retrieve_ids_list(ids, i + 1)
    }
}

/// The neighborhood-fetch query over the given node ids.
pub open spec fn retrieve_query(ids: Seq<usize>) -> Seq<char> {
    "MATCH (n) WHERE ID(n) IN ["@ + retrieve_ids_list(ids, 0)
        + "] MATCH (n)-[r]->(m) RETURN n, r, m"@
}

/// Serializes the neighborhood-fetch query for the given node ids.
pub fn retrieve_query_text(ids: &Vec<usize>) -> (r: String)
    ensures
        r@ == retrieve_query(ids@),
{
    let mut out = String::from_str("MATCH (n) WHERE ID(n) IN [");
    let ghost pre = out@;
    let ghost iv = ids@;
    let mut i: usize = 0;
    while i < ids.len()
        invariant
            0 <= i <= ids.len(),
            iv == ids@,
            i == 0 ==> out@ =~= pre,
            i > 0 ==> out@ + retrieve_ids_list(iv, i as int) =~= pre + retrieve_ids_list(iv, 0),
        decreases ids.len() - i,
    {
        let ghost o0 = out@;
        if i > 0 {
            out.append(", ");
        }
        push_u64_dec(&mut out, ids[i] as u64);
        proof {
            if i == 0 {
                assert(out@ =~= o0 + dec_str(iv[0] as nat));
                assert(retrieve_ids_list(iv, 0) == dec_str(iv[0] as nat) + retrieve_ids_list(
                    iv,
                    1,
                ));
            } else {
                assert(out@ =~= o0 + (", "@ + dec_str(iv[i as int] as nat)));
                assert(retrieve_ids_list(iv, i as int) == ", "@ + dec_str(iv[i as int] as nat)
                    + retrieve_ids_list(iv, i + 1));
            }
            assert(out@ + retrieve_ids_list(iv, i + 1 as int) =~= pre + retrieve_ids_list(iv, 0));
        }
        i += 1;
    }
    proof {
        if iv.len() == 0 {
            assert(retrieve_ids_list(iv, 0) =~= Seq::<char>::empty());
        } else {
            assert(retrieve_ids_list(iv, iv.len() as int) =~= Seq::<char>::empty());
        }
        assert(out@ =~= pre + retrieve_ids_list(iv, 0));
    }
    out.append("] MATCH (n)-[r]->(m) RETURN n, r, m");
    proof {
        assert(out@ =~= retrieve_query(iv));
    }
    out
}

} // verus!
