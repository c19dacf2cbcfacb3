//! The canonical JSON form of graph-query messages, matching the snake_case
//! externally-tagged layout the workers exchange: a build description as
//! `{"builder":{...}}` and a neighborhood fetch as `{"retrieve":[...]}`.

use vstd::prelude::*;

use crate::builder::BuilderView;
use crate::builder::EdgeView;
use crate::builder::Neo4jQuery;
use crate::builder::Neo4jQueryBuilder;
use crate::builder::NodeView;
use crate::kg_json::push_quoted;
use crate::kg_json::quoted;
use crate::text::dec_str;
use crate::text::push_char;
use crate::text::push_u64_dec;

verus! {

/// One property pair as a two-element array.
pub open spec fn prop_pair_json(p: (Seq<char>, Seq<char>)) -> Seq<char> {
    seq!['['] + quoted(p.0) + seq![','] + quoted(p.1) + seq![']']
}

/// The comma-separated property pairs from position `i` on.
pub open spec fn props_list_json_from(ps: Seq<(Seq<char>, Seq<char>)>, i: int) -> Seq<char>
    decreases ps.len() - i,
{
    if i < 0 || i >= ps.len() {
        Seq::empty()
    } else if i == 0 {
        prop_pair_json(ps[0]) + props_list_json_from(ps, 1)
    } else {
        seq![','] + prop_pair_json(ps[i]) + props_list_json_from(ps, i + 1)
    }
}

/// One node as a JSON object.
pub open spec fn node_json(n: NodeView) -> Seq<char> {
    seq!['{'] + quoted("label"@) + seq![':'] + quoted(n.label) + seq![','] + quoted("properties"@)
        + seq![':', '['] + props_list_json_from(n.properties, 0) + seq![']', '}']
}

/// The comma-separated nodes from position `i` on.
pub open spec fn nodes_json_from(ns: Seq<NodeView>, i: int) -> Seq<char>
    decreases ns.len() - i,
{
    if i < 0 || i >= ns.len() {
        Seq::empty()
    } else if i == 0 {
        node_json(ns[0]) + nodes_json_from(ns, 1)
    } else {
        seq![','] + node_json(ns[i]) + nodes_json_from(ns, i + 1)
    }
}

/// One edge as a JSON object.
pub open spec fn edge_json(e: EdgeView) -> Seq<char> {
    seq!['{'] + quoted("source"@) + seq![':'] + quoted(e.source) + seq![','] + quoted("target"@)
        + seq![':'] + quoted(e.target) + seq![','] + quoted("edge_relation"@) + seq![':'] + quoted(
        e.relation,
    ) + seq!['}']
}

/// The comma-separated edges from position `i` on.
pub open spec fn edges_json_from(es: Seq<EdgeView>, i: int) -> Seq<char>
    decreases es.len() - i,
{
    if i < 0 || i >= es.len() {
        Seq::empty()
    } else if i == 0 {
        edge_json(es[0]) + edges_json_from(es, 1)
    } else {
        seq![','] + edge_json(es[i]) + edges_json_from(es, i + 1)
    }
}

/// The comma-separated quoted strings from position `i` on.
pub open spec fn strings_json_from(ss: Seq<Seq<char>>, i: int) -> Seq<char>
    decreases ss.len() - i,
{
    if i < 0 || i >= ss.len() {
        Seq::empty()
    } else if i == 0 {
        quoted(ss[0]) + strings_json_from(ss, 1)
    } else {
        seq![','] + quoted(ss[i]) + strings_json_from(ss, i + 1)
    }
}

/// The limit entry: a number or `null`.
pub open spec fn limit_json(l: Option<usize>) -> Seq<char> {
    match l {
        None => "null"@,
        Some(n) => dec_str(n as nat),
    }
}

/// The full JSON object of a builder.
pub open spec fn builder_json(b: BuilderView) -> Seq<char> {
    seq!['{'] + quoted("nodes"@) + seq![':', '['] + nodes_json_from(b.nodes, 0) + seq![']', ',']
        + quoted("edges"@) + seq![':', '['] + edges_json_from(b.edges, 0) + seq![']', ','] + quoted(
        "return_fields"@,
    ) + seq![':', '['] + strings_json_from(b.return_fields, 0) + seq![']', ','] + quoted("limit"@)
        + seq![':'] + limit_json(b.limit) + seq!['}']
}

/// The comma-separated decimal ids from position `i` on.
pub open spec fn ids_json_from(ids: Seq<usize>, i: int) -> Seq<char>
    decreases ids.len() - i,
{
    if i < 0 || i >= ids.len() {
        Seq::empty()
    } else if i == 0 {
        dec_str(ids[0] as nat) + ids_json_from(ids, 1)
    } else {
        seq![','] + dec_str(ids[i] as nat) + ids_json_from(ids, i + 1)
    }
}

/// The full JSON document of a query message.
pub open spec fn query_json(q: Neo4jQuery) -> Seq<char> {
    match q {
        Neo4jQuery::Builder(b) => seq!['{'] + quoted("builder"@) + seq![':'] + builder_json(b@)
            + seq!['}'],
        Neo4jQuery::Retrieve(ids) => seq!['{'] + quoted("retrieve"@) + seq![':', '[']
            + ids_json_from(ids@, 0) + seq![']', '}'],
    }
}

/// Appends one node object.
fn push_node_json(out: &mut String, n: &crate::builder::Node)
    ensures
        final(out)@ == old(out)@ + node_json(n@),
{
    let ghost pre = out@;
    push_char(out, '{');
    push_quoted(out, "label");
    push_char(out, ':');
    push_quoted(out, n.label_str());
    push_char(out, ',');
    push_quoted(out, "properties");
    push_char(out, ':');
    push_char(out, '[');
    let ghost pre2 = out@;
    let props = n.properties_list();
    let ghost ps = n@.properties;
    let mut i: usize = 0;
    while i < props.len()
        invariant
            0 <= i <= props.len(),
            ps == props@.map_values(|p: (String, String)| (p.0@, p.1@)),
            i == 0 ==> out@ =~= pre2,
            i > 0 ==> out@ + props_list_json_from(ps, i as int) =~= pre2 + props_list_json_from(
                ps,
                0,
            ),
        decreases props.len() - i,
    {
        let ghost o0 = out@;
        proof {
            assert(ps[i as int] == (props@[i as int].0@, props@[i as int].1@));
        }
        if i > 0 {
            push_char(out, ',');
        }
        push_char(out, '[');
        push_quoted(out, props[i].0.as_str());
        push_char(out, ',');
        push_quoted(out, props[i].1.as_str());
        push_char(out, ']');
        proof {
            if i == 0 {
                assert(out@ =~= o0 + prop_pair_json(ps[0]));
                assert(props_list_json_from(ps, 0) == prop_pair_json(ps[0])
                    + props_list_json_from(ps, 1));
            } else {
                assert(out@ =~= o0 + (seq![','] + prop_pair_json(ps[i as int])));
                assert(props_list_json_from(ps, i as int) == seq![','] + prop_pair_json(
                    ps[i as int],
                ) + props_list_json_from(ps, i + 1));
            }
            assert(out@ + props_list_json_from(ps, i + 1 as int) =~= pre2 + props_list_json_from(
                ps,
                0,
            ));
        }
        i += 1;
    }
    proof {
        if ps.len() == 0 {
            assert(props_list_json_from(ps, 0) =~= Seq::<char>::empty());
        } else {
            assert(props_list_json_from(ps, ps.len() as int) =~= Seq::<char>::empty());
        }
        assert(out@ =~= pre2 + props_list_json_from(ps, 0));
    }
    push_char(out, ']');
    push_char(out, '}');
    proof {
        assert(out@ =~= pre + node_json(n@));
    }
}

/// Appends one edge object.
fn push_edge_json(out: &mut String, e: &crate::builder::Edge)
    ensures
        final(out)@ == old(out)@ + edge_json(e@),
{
    let ghost pre = out@;
    push_char(out, '{');
    push_quoted(out, "source");
    push_char(out, ':');
    push_quoted(out, e.source_str());
    push_char(out, ',');
    push_quoted(out, "target");
    push_char(out, ':');
    push_quoted(out, e.target_str());
    push_char(out, ',');
    push_quoted(out, "edge_relation");
    push_char(out, ':');
    push_quoted(out, e.relation_str());
    push_char(out, '}');
    proof {
        assert(out@ =~= pre + edge_json(e@));
    }
}

impl Neo4jQueryBuilder {
    /// Serializes the builder as its canonical JSON object.
    #[verifier::rlimit(80)]
    pub fn to_json_string(&self) -> (r: String)
        ensures
            r@ == builder_json(self@),
    {
        let ghost bv = self@;
        let mut out = String::new();
        push_char(&mut out, '{');
        push_quoted(&mut out, "nodes");
        push_char(&mut out, ':');
        push_char(&mut out, '[');
        let ghost pre = out@;
        let nodes = self.nodes_list();
        let ghost ns = bv.nodes;
        let mut i: usize = 0;
        while i < nodes.len()
            invariant
                0 <= i <= nodes.len(),
                ns == crate::builder::node_views(nodes@),
                i == 0 ==> out@ =~= pre,
                i > 0 ==> out@ + nodes_json_from(ns, i as int) =~= pre + nodes_json_from(ns, 0),
            decreases nodes.len() - i,
        {
            let ghost o0 = out@;
            proof {
                assert(ns[i as int] == nodes@[i as int]@);
            }
            if i > 0 {
                push_char(&mut out, ',');
            }
            push_node_json(&mut out, &nodes[i]);
            proof {
                if i == 0 {
                    assert(out@ =~= o0 + node_json(ns[0]));
                    assert(nodes_json_from(ns, 0) == node_json(ns[0]) + nodes_json_from(ns, 1));
                } else {
                    assert(out@ =~= o0 + (seq![','] + node_json(ns[i as int])));
                    assert(nodes_json_from(ns, i as int) == seq![','] + node_json(ns[i as int])
                        + nodes_json_from(ns, i + 1));
                }
                assert(out@ + nodes_json_from(ns, i + 1 as int) =~= pre + nodes_json_from(ns, 0));
            }
            i += 1;
        }
        proof {
            if ns.len() == 0 {
                assert(nodes_json_from(ns, 0) =~= Seq::<char>::empty());
            } else {
                assert(nodes_json_from(ns, ns.len() as int) =~= Seq::<char>::empty());
            }
            assert(out@ =~= pre + nodes_json_from(ns, 0));
        }
        push_char(&mut out, ']');
        push_char(&mut out, ',');
        push_quoted(&mut out, "edges");
        push_char(&mut out, ':');
        push_char(&mut out, '[');
        let ghost pre2 = out@;
        let edges = self.edges_list();
        let ghost es = bv.edges;
        let mut j: usize = 0;
        while j < edges.len()
            invariant
                0 <= j <= edges.len(),
                es == crate::builder::edge_views(edges@),
                j == 0 ==> out@ =~= pre2,
                j > 0 ==> out@ + edges_json_from(es, j as int) =~= pre2 + edges_json_from(es, 0),
            decreases edges.len() - j,
        {
            let ghost o0 = out@;
            proof {
                assert(es[j as int] == edges@[j as int]@);
            }
            if j > 0 {
                push_char(&mut out, ',');
            }
            push_edge_json(&mut out, &edges[j]);
            proof {
                if j == 0 {
                    assert(out@ =~= o0 + edge_json(es[0]));
                    assert(edges_json_from(es, 0) == edge_json(es[0]) + edges_json_from(es, 1));
                } else {
                    assert(out@ =~= o0 + (seq![','] + edge_json(es[j as int])));
                    assert(edges_json_from(es, j as int) == seq![','] + edge_json(es[j as int])
                        + edges_json_from(es, j + 1));
                }
                assert(out@ + edges_json_from(es, j + 1 as int) =~= pre2 + edges_json_from(es, 0));
            }
            j += 1;
        }
        proof {
            if es.len() == 0 {
                assert(edges_json_from(es, 0) =~= Seq::<char>::empty());
            } else {
                assert(edges_json_from(es, es.len() as int) =~= Seq::<char>::empty());
            }
            assert(out@ =~= pre2 + edges_json_from(es, 0));
        }
        push_char(&mut out, ']');
        push_char(&mut out, ',');
        push_quoted(&mut out, "return_fields");
        push_char(&mut out, ':');
        push_char(&mut out, '[');
        let ghost pre3 = out@;
        let fields = self.return_fields_list();
        let ghost fs = bv.return_fields;
        let mut k: usize = 0;
        while k < fields.len()
            invariant
                0 <= k <= fields.len(),
                fs == crate::builder::string_views(fields@),
                k == 0 ==> out@ =~= pre3,
                k > 0 ==> out@ + strings_json_from(fs, k as int) =~= pre3 + strings_json_from(
                    fs,
                    0,
                ),
            decreases fields.len() - k,
        {
            let ghost o0 = out@;
            proof {
                assert(fs[k as int] == fields@[k as int]@);
            }
            if k > 0 {
                push_char(&mut out, ',');
            }
            push_quoted(&mut out, fields[k].as_str());
            proof {
                if k == 0 {
                    assert(out@ =~= o0 + quoted(fs[0]));
                    assert(strings_json_from(fs, 0) == quoted(fs[0]) + strings_json_from(fs, 1));
                } else {
                    assert(out@ =~= o0 + (seq![','] + quoted(fs[k as int])));
                    assert(strings_json_from(fs, k as int) == seq![','] + quoted(fs[k as int])
                        + strings_json_from(fs, k + 1));
                }
                assert(out@ + strings_json_from(fs, k + 1 as int) =~= pre3 + strings_json_from(
                    fs,
                    0,
                ));
            }
            k += 1;
        }
        proof {
            if fs.len() == 0 {
                assert(strings_json_from(fs, 0) =~= Seq::<char>::empty());
            } else {
                assert(strings_json_from(fs, fs.len() as int) =~= Seq::<char>::empty());
            }
            assert(out@ =~= pre3 + strings_json_from(fs, 0));
        }
        push_char(&mut out, ']');
        push_char(&mut out, ',');
        push_quoted(&mut out, "limit");
        push_char(&mut out, ':');
        let ghost pre4 = out@;
        match self.limit_value() {
            Some(l) => {
                push_u64_dec(&mut out, l as u64);
            },
            None => {
                out.append("null");
            },
        }
        proof {
            assert(out@ =~= pre4 + limit_json(bv.limit));
        }
        push_char(&mut out, '}');
        proof {
            assert(out@ =~= builder_json(bv));
        }
        out
    }
}

impl Neo4jQuery {
    /// Serializes the query message as its canonical JSON document.
    pub fn to_json_string(&self) -> (r: String)
        ensures
            r@ == query_json(*self),
    {
        let mut out = String::new();
        push_char(&mut out, '{');
        match self {
            Neo4jQuery::Builder(b) => {
                push_quoted(&mut out, "builder");
                push_char(&mut out, ':');
                let ghost preb = out@;
                let body = b.to_json_string();
                out.append(body.as_str());
                push_char(&mut out, '}');
                proof {
                    assert(out@ =~= query_json(*self));
                }
            },
            Neo4jQuery::Retrieve(ids) => {
                push_quoted(&mut out, "retrieve");
                push_char(&mut out, ':');
                push_char(&mut out, '[');
                let ghost pre = out@;
                let ghost iv = ids@;
                let mut i: usize = 0;
                while i < ids.len()
                    invariant
                        0 <= i <= ids.len(),
                        iv == ids@,
                        i == 0 ==> out@ =~= pre,
                        i > 0 ==> out@ + ids_json_from(iv, i as int) =~= pre + ids_json_from(
                            iv,
                            0,
                        ),
                    decreases ids.len() - i,
                {
                    let ghost o0 = out@;
                    if i > 0 {
                        push_char(&mut out, ',');
                    }
                    push_u64_dec(&mut out, ids[i] as u64);
                    proof {
                        if i == 0 {
                            assert(out@ =~= o0 + dec_str(iv[0] as nat));
                            assert(ids_json_from(iv, 0) == dec_str(iv[0] as nat) + ids_json_from(
                                iv,
                                1,
                            ));
                        } else {
                            assert(out@ =~= o0 + (seq![','] + dec_str(iv[i as int] as nat)));
                            assert(ids_json_from(iv, i as int) == seq![','] + dec_str(
                                iv[i as int] as nat,
                            ) + ids_json_from(iv, i + 1));
                        }
                        assert(out@ + ids_json_from(iv, i + 1 as int) =~= pre + ids_json_from(
                            iv,
                            0,
                        ));
                    }
                    i += 1;
                }
                proof {
                    if iv.len() == 0 {
                        assert(ids_json_from(iv, 0) =~= Seq::<char>::empty());
                    } else {
                        assert(ids_json_from(iv, iv.len() as int) =~= Seq::<char>::empty());
                    }
                    assert(out@ =~= pre + ids_json_from(iv, 0));
                }
                push_char(&mut out, ']');
                push_char(&mut out, '}');
                proof {
                    assert(out@ =~= query_json(*self));
                }
            },
        }
        out
    }
}

} // verus!
