//! Pure request-assembly helpers of the dispatcher: the two prompt
//! templates, the `<kg>` span extraction applied to model answers, the
//! pipe-formatted triplet lines, and the lowering of a model answer into a
//! graph-build query document.

use vstd::prelude::*;

use crate::builder::Neo4jQuery;
use crate::graph::kg_wf;
use crate::graph::KgError;
use crate::graph::KnowledgeGraph;
use crate::graph::KnowledgeGraphView;
use crate::kg_json::kg_parse;
use crate::query_json::builder_json;
use crate::text::dec_str;
use crate::text::u64_to_dec;
use crate::unescape::unescape_json;
use crate::unescape::unescape_seq;

verus! {

/// The fixed instructions appended to an ingested chunk.
pub open spec fn ingest_task() -> Seq<char> {
    "Task: Generate a knowledge graph from the above Text.\\n\n    Your answer should consist of the knowledge graph, enclosed in <kg></kg> tags.\\n\n    The generated knowledge graph should contain entities and relations, in JSON format.\\n\n    To guide in your answer generation, I provide an example of such a knowledge graph.\n    <kg>{{\"entities\":[\"entity_1\",\"entity_2\",\"entity_3\"],\"relations\":[{{\"head\":\"entity_1\",\"tail\":\"entity_2\",\"relation\":\"relation_12\"}},{{\"head\":\"entity_2\",\"tail\":\"entity_3\",\"relation\":\"relation_23\"}}]}}</kg>\\n\n    The entities and relations should always be generated in camel case, and they should always start with a letter (not a number or other special characters).\n    Your answer: "@
}

/// The grounding prompt for an ingested chunk.
pub fn retrieve_prompt(chunk: &str) -> (r: String)
    ensures
        r@ == "Text: "@ + chunk@ + " \n"@ + ingest_task(),
{
    let mut out = String::from_str("Text: ");
    out.append(chunk);
    out.append(" \n");
    out.append(
        "Task: Generate a knowledge graph from the above Text.\\n\n    Your answer should consist of the knowledge graph, enclosed in <kg></kg> tags.\\n\n    The generated knowledge graph should contain entities and relations, in JSON format.\\n\n    To guide in your answer generation, I provide an example of such a knowledge graph.\n    <kg>{{\"entities\":[\"entity_1\",\"entity_2\",\"entity_3\"],\"relations\":[{{\"head\":\"entity_1\",\"tail\":\"entity_2\",\"relation\":\"relation_12\"}},{{\"head\":\"entity_2\",\"tail\":\"entity_3\",\"relation\":\"relation_23\"}}]}}</kg>\\n\n    The entities and relations should always be generated in camel case, and they should always start with a letter (not a number or other special characters).\n    Your answer: ",
    );
    proof {
        assert(out@ =~= "Text: "@ + chunk@ + " \n"@ + ingest_task());
    }
    out
}

/// The fixed instructions appended to a grounded question.
pub open spec fn answer_task() -> Seq<char> {
    "Task: From the content of Knowledge Graph above, provided in |-formatted triplets, provide the best possible answer to the question, provided above. \\n\n        In order to help you formulate your answer, follow the steps provided below: \\n \n        Step 1: Iterate from the Knowledge Graph above and extract the triplets that better provide content related to the Question above. \\n\n        Step 2: Using the extracted triplets in Step 1, formulate a human readable answer to the Question above, that is coherent, direct and relies completely on the triplets from Step 1. "@
}

/// The comma-space joined triplet lines from position `i` on.
pub open spec fn joined_from(ss: Seq<Seq<char>>, i: int) -> Seq<char>
    decreases ss.len() - i,
{
    if i < 0 || i >= ss.len() {
        Seq::empty()
    } else if i == 0 {
        ss[0] + joined_from(ss, 1)
    } else {
        ", "@ + ss[i] + joined_from(ss, i + 1)
    }
}

/// The answer prompt built from the gathered triplet lines and the
/// question.
pub fn generate_answer(question: &str, knowledge_graph: Vec<String>) -> (r: String)
    ensures
        r@ == "Knowledge Graph: "@ + joined_from(
            crate::builder::string_views(knowledge_graph@),
            0,
        ) + "\n\n"@ + "Question: "@ + question@ + "\n\n"@ + answer_task(),
{
    let mut out = String::from_str("Knowledge Graph: ");
    let ghost pre = out@;
    let ghost ss = crate::builder::string_views(knowledge_graph@);
    let mut i: usize = 0;
    while i < knowledge_graph.len()
        invariant
            0 <= i <= knowledge_graph.len(),
            ss == crate::builder::string_views(knowledge_graph@),
            i == 0 ==> out@ =~= pre,
            i > 0 ==> out@ + joined_from(ss, i as int) =~= pre + joined_from(ss, 0),
        decreases knowledge_graph.len() - i,
    {
        let ghost o0 = out@;
        proof {
            assert(ss[i as int] == knowledge_graph@[i as int]@);
        }
        if i > 0 {
            out.append(", ");
        }
        out.append(knowledge_graph[i].as_str());
        proof {
            if i == 0 {
                assert(out@ =~= o0 + ss[0]);
                assert(joined_from(ss, 0) == ss[0] + joined_from(ss, 1));
            } else {
                assert(out@ =~= o0 + (", "@ + ss[i as int]));
                assert(joined_from(ss, i as int) == ", "@ + ss[i as int] + joined_from(ss, i + 1));
            }
            assert(out@ + joined_from(ss, i + 1 as int) =~= pre + joined_from(ss, 0));
        }
        i += 1;
    }
    proof {
        if ss.len() == 0 {
            assert(joined_from(ss, 0) =~= Seq::<char>::empty());
        } else {
            assert(joined_from(ss, ss.len() as int) =~= Seq::<char>::empty());
        }
        assert(out@ =~= pre + joined_from(ss, 0));
    }
    out.append("\n\n");
    out.append("Question: ");
    out.append(question);
    out.append("\n\n");
    out.append(
        "Task: From the content of Knowledge Graph above, provided in |-formatted triplets, provide the best possible answer to the question, provided above. \\n\n        In order to help you formulate your answer, follow the steps provided below: \\n \n        Step 1: Iterate from the Knowledge Graph above and extract the triplets that better provide content related to the Question above. \\n\n        Step 2: Using the extracted triplets in Step 1, formulate a human readable answer to the Question above, that is coherent, direct and relies completely on the triplets from Step 1. ",
    );
    proof {
        assert(out@ =~= "Knowledge Graph: "@ + joined_from(ss, 0) + "\n\n"@ + "Question: "@
            + question@ + "\n\n"@ + answer_task());
    }
    out
}

/// One triplet as a pipe-separated line.
pub fn format_triplet(head: &str, relation: &str, tail: &str) -> (r: String)
    ensures
        r@ == head@ + " | "@ + relation@ + " | "@ + tail@,
{
    let mut out = String::from_str(head);
    out.append(" | ");
    out.append(relation);
    out.append(" | ");
    out.append(tail);
    proof {
        assert(out@ =~= head@ + " | "@ + relation@ + " | "@ + tail@);
    }
    out
}

/// The position of the first occurrence of `pat` at or after `i`, or -1.
pub open spec fn find_from(s: Seq<char>, pat: Seq<char>, i: int) -> int
    decreases s.len() - i,
{
    if pat.len() == 0 || i < 0 || i + pat.len() > s.len() {
        -1
    } else if s.subrange(i, i + pat.len() as int) == pat {
        i
    } else {
        find_from(s, pat, i + 1)
    }
}

/// The opening tag wrapping a generated graph.
pub open spec fn kg_open_tag() -> Seq<char> {
    seq!['<', 'k', 'g', '>']
}

/// The closing tag wrapping a generated graph.
pub open spec fn kg_close_tag() -> Seq<char> {
    seq!['<', '/', 'k', 'g', '>']
}

/// The span between the first opening tag and the first closing tag after
/// it, if both are present.
pub open spec fn kg_span(s: Seq<char>) -> Option<Seq<char>> {
    let a = find_from(s, kg_open_tag(), 0);
    if a < 0 {
        None
    } else {
        let b = find_from(s, kg_close_tag(), a + 4);
        if b < 0 {
            None
        } else {
            Some(s.subrange(a + 4, b))
        }
    }
}

/// Linear scan for the first occurrence of `pat` at or after `from`.
fn find_sub(v: &Vec<char>, pat: &Vec<char>, from: usize) -> (r: Option<usize>)
    requires
        from <= v@.len(),
        pat@.len() >= 1,
    ensures
        match r {
            Some(p) => {
                &&& find_from(v@, pat@, from as int) == p as int
                &&& from <= p
                &&& p + pat@.len() <= v@.len()
            },
            None => find_from(v@, pat@, from as int) == -1,
        },
{
    let n = v.len();
    let m = pat.len();
    if m > n {
        return None;
    }
    let mut i = from;
    while i <= n - m
        invariant
            from <= i,
            n == v@.len(),
            m == pat@.len(),
            m <= n,
            pat@.len() >= 1,
            find_from(v@, pat@, i as int) == find_from(v@, pat@, from as int),
        decreases n - i,
    {
        if crate::unescape::match_at(v, i, pat) {
            return Some(i);
        }
        i += 1;
    }
    None
}

/// Extracts the first `<kg>`-wrapped span of a model answer.
pub fn extract_kg_span(answer: &str) -> (r: Option<String>)
    ensures
        match r {
            Some(s) => kg_span(answer@) == Some(s@),
            None => kg_span(answer@) is None,
        },
{
    let v = crate::text::str_to_chars(answer);
    let open_tag: Vec<char> = vec!['<', 'k', 'g', '>'];
    let close_tag: Vec<char> = vec!['<', '/', 'k', 'g', '>'];
    proof {
        assert(open_tag@ =~= kg_open_tag());
        assert(close_tag@ =~= kg_close_tag());
    }
    let n = v.len();
    let a = match find_sub(&v, &open_tag, 0) {
        Some(p) => p,
        None => {
            return None;
        },
    };
    proof {
        assert(a + 4 <= n);
    }
    let b = match find_sub(&v, &close_tag, a + 4) {
        Some(p) => p,
        None => {
            return None;
        },
    };
    let mut content: Vec<char> = Vec::new();
    let mut i = a + 4;
    while i < b
        invariant
            a + 4 <= i <= b,
            b <= v@.len(),
            content@ =~= v@.subrange(a + 4 as int, i as int),
        decreases b - i,
    {
        let ghost c0 = content@;
        content.push(v[i]);
        proof {
            assert(content@ =~= v@.subrange(a + 4 as int, i + 1 as int));
        }
        i += 1;
    }
    Some(crate::text::chars_to_string(&content))
}

/// The builder view that ingest lowers a graph into: every entity becomes a
/// node carrying the request id as its `query_id` property, every relation
/// becomes an edge.
pub open spec fn ingest_builder_view(g: KnowledgeGraphView, id: u32) -> crate::builder::BuilderView {
    crate::builder::BuilderView {
        nodes: g.entities.map_values(
            |n: Seq<char>| crate::builder::NodeView {
                label: n,
                properties: seq![("query_id"@, dec_str(id as nat))],
            },
        ),
        edges: g.relations.map_values(
            |r: crate::graph::RelationView| crate::builder::EdgeView {
                source: r.head,
                target: r.tail,
                relation: r.relation,
            },
        ),
        return_fields: Seq::empty(),
        limit: None,
    }
}

/// Lowers a model-emitted graph document into the JSON text of a build
/// query carrying the request id.  The text is unescaped, parsed and
/// validated first; a malformed document reports a parse error, an invalid
/// graph reports the offending relation.
pub fn kg_to_query_json(kg: &str, id: u32) -> (r: Result<String, KgError>)
    ensures
        match r {
            Ok(s) => {
                &&& kg_parse(unescape_seq(kg@)) matches Some(g0)
                &&& kg_wf(kg_parse(unescape_seq(kg@)).unwrap())
                &&& s@ == seq!['{'] + crate::kg_json::quoted("builder"@) + seq![':'] + builder_json(
                    ingest_builder_view(kg_parse(unescape_seq(kg@)).unwrap(), id),
                ) + seq!['}']
            },
            Err(e) => match e {
                KgError::Parse => kg_parse(unescape_seq(kg@)) is None,
                KgError::Invariant(_) => {
                    &&& kg_parse(unescape_seq(kg@)) matches Some(g0)
                    &&& !kg_wf(kg_parse(unescape_seq(kg@)).unwrap())
                },
            },
        },
{
    let unescaped = unescape_json(kg);
    let graph = match KnowledgeGraph::parse(unescaped.as_str()) {
        Ok(g) => g,
        Err(e) => {
            return Err(e);
        },
    };
    let ghost gv = graph@;
    let mut props: Vec<(String, String)> = Vec::new();
    props.push(("query_id".to_owned(), u64_to_dec(id as u64)));
    proof {
        assert(props@.map_values(|p: (String, String)| (p.0@, p.1@)) =~= seq![
            ("query_id"@, dec_str(id as nat)),
        ]);
    }
    let builder = graph.to_cypher_query_builder(&props);
    proof {
        let bv = builder@;
        let iv = ingest_builder_view(gv, id);
        assert(bv.nodes =~= iv.nodes);
        assert(bv.edges =~= iv.edges);
        assert(bv.return_fields =~= iv.return_fields);
        assert(bv =~= iv);
    }
    let query = Neo4jQuery::Builder(builder);
    let text = query.to_json_string();
    proof {
        assert(text@ =~= seq!['{'] + crate::kg_json::quoted("builder"@) + seq![':'] + builder_json(
            ingest_builder_view(gv, id),
        ) + seq!['}']);
    }
    Ok(text)
}

} // verus!
