//! The canonical JSON codec for knowledge graphs: a serializer emitting the
//! compact `{"entities":[...],"relations":[...]}` document and a parser for
//! the same schema, with whitespace allowed between tokens.  Parsing the
//! serialization of a graph returns the graph unchanged.

use vstd::prelude::*;

use crate::graph::kg_wf;
use crate::graph::KgError;
use crate::graph::KnowledgeGraph;
use crate::graph::KnowledgeGraphView;
use crate::graph::RelationView;

verus! {

/// JSON whitespace.
pub open spec fn is_ws(c: char) -> bool {
    c == ' ' || c == '\n' || c == '\t' || c == '\r'
}

/// A character accepted inside a label string: printable ASCII other than
/// the quote and the backslash.
pub open spec fn is_label_char(c: char) -> bool {
    ' ' <= c <= '~' && c != '"' && c != '\\'
}

/// Whether every character of `l` is a label character.
pub open spec fn label_ok(l: Seq<char>) -> bool {
    forall|i: int| 0 <= i < l.len() ==> is_label_char(#[trigger] l[i])
}

/// Whether every label of the graph is made of label characters.
pub open spec fn kg_labels_ok(g: KnowledgeGraphView) -> bool {
    &&& forall|i: int| 0 <= i < g.entities.len() ==> label_ok(#[trigger] g.entities[i])
    &&& forall|i: int|
        0 <= i < g.relations.len() ==> {
            &&& label_ok((#[trigger] g.relations[i]).head)
            &&& label_ok(g.relations[i].tail)
            &&& label_ok(g.relations[i].relation)
        }
}

/// `s` wrapped in double quotes.
pub open spec fn quoted(s: Seq<char>) -> Seq<char> {
    seq!['"'] + s + seq!['"']
}

/// The comma-separated quoted entity names from position `i` on.
pub open spec fn entities_json_from(es: Seq<Seq<char>>, i: int) -> Seq<char>
    decreases es.len() - i,
{
    if i < 0 || i >= es.len() {
        Seq::empty()
    } else if i == 0 {
        quoted(es[0]) + entities_json_from(es, 1)
    } else {
        seq![','] + quoted(es[i]) + entities_json_from(es, i + 1)
    }
}

/// One relation as a JSON object.
pub open spec fn relation_json(r: RelationView) -> Seq<char> {
    seq!['{'] + quoted("head"@) + seq![':'] + quoted(r.head) + seq![','] + quoted("tail"@)
        + seq![':'] + quoted(r.tail) + seq![','] + quoted("relation"@) + seq![':'] + quoted(
        r.relation,
    ) + seq!['}']
}

/// The comma-separated relation objects from position `i` on.
pub open spec fn relations_json_from(rs: Seq<RelationView>, i: int) -> Seq<char>
    decreases rs.len() - i,
{
    if i < 0 || i >= rs.len() {
        Seq::empty()
    } else if i == 0 {
        relation_json(rs[0]) + relations_json_from(rs, 1)
    } else {
        seq![','] + relation_json(rs[i]) + relations_json_from(rs, i + 1)
    }
}

/// The canonical compact document of a graph.
pub open spec fn kg_json(g: KnowledgeGraphView) -> Seq<char> {
    seq!['{'] + quoted("entities"@) + seq![':', '['] + entities_json_from(g.entities, 0) + seq![
        ']',
        ',',
    ] + quoted("relations"@) + seq![':', '['] + relations_json_from(g.relations, 0) + seq![
        ']',
        '}',
    ]
}

/// The suffix of `s` after its leading whitespace.
pub open spec fn ws(s: Seq<char>) -> Seq<char>
    decreases s.len(),
{
    if s.len() == 0 {
        s
    } else if is_ws(s[0]) {
        ws(s.skip(1))
    } else {
        s
    }
}

/// Scans the inside of a string up to its closing quote; the content must be
/// made of label characters.
pub open spec fn scan_string(s: Seq<char>) -> Option<(Seq<char>, Seq<char>)>
    decreases s.len(),
{
    if s.len() == 0 {
        None
    } else if s[0] == '"' {
        Some((Seq::empty(), s.skip(1)))
    } else if is_label_char(s[0]) {
        match scan_string(s.skip(1)) {
            None => None,
            Some((content, rest)) => Some((seq![s[0]] + content, rest)),
        }
    } else {
        None
    }
}

/// Parses a quoted string.
pub open spec fn parse_string(s: Seq<char>) -> Option<(Seq<char>, Seq<char>)> {
    if s.len() > 0 && s[0] == '"' {
        scan_string(s.skip(1))
    } else {
        None
    }
}

/// Leading whitespace only shortens a sequence.
proof fn lemma_ws_len(s: Seq<char>)
    ensures
        ws(s).len() <= s.len(),
    decreases s.len(),
{
    if s.len() > 0 && is_ws(s[0]) {
        lemma_ws_len(s.skip(1));
    }
}

/// Scanning a string consumes at least the closing quote.
proof fn lemma_scan_string_len(s: Seq<char>)
    ensures
        scan_string(s) matches Some((content, rest)) ==> rest.len() < s.len(),
    decreases s.len(),
{
    if s.len() > 0 && s[0] != '"' && is_label_char(s[0]) {
        lemma_scan_string_len(s.skip(1));
    }
}

/// Parsing a string strictly consumes input.
proof fn lemma_parse_string_len(s: Seq<char>)
    ensures
        parse_string(s) matches Some((content, rest)) ==> rest.len() < s.len(),
{
    if s.len() > 0 && s[0] == '"' {
        lemma_scan_string_len(s.skip(1));
    }
}

/// Parses the remainder of a non-empty entity list: either the closing
/// bracket or a comma and one more name, repeatedly.
pub open spec fn parse_entities_rest(s: Seq<char>, acc: Seq<Seq<char>>) -> Option<
    (Seq<Seq<char>>, Seq<char>),
>
    decreases s.len(),
    via parse_entities_rest_decreases
{
    let t = ws(s);
    if t.len() == 0 {
        None
    } else if t[0] == ']' {
        Some((acc, t.skip(1)))
    } else if t[0] == ',' {
        match parse_string(ws(t.skip(1))) {
            None => None,
            Some((lbl, rest)) => parse_entities_rest(rest, acc.push(lbl)),
        }
    } else {
        None
    }
}

#[via_fn]
proof fn parse_entities_rest_decreases(s: Seq<char>, acc: Seq<Seq<char>>) {
    lemma_ws_len(s);
    let t = ws(s);
    if t.len() > 0 && t[0] == ',' {
        lemma_ws_len(t.skip(1));
        lemma_parse_string_len(ws(t.skip(1)));
    }
}

/// Parses an entity list after its opening bracket.
pub open spec fn parse_entities(s: Seq<char>) -> Option<(Seq<Seq<char>>, Seq<char>)> {
    let t = ws(s);
    if t.len() == 0 {
        None
    } else if t[0] == ']' {
        Some((Seq::empty(), t.skip(1)))
    } else {
        match parse_string(t) {
            None => None,
            Some((lbl, rest)) => parse_entities_rest(rest, seq![lbl]),
        }
    }
}

/// Parses one relation object.
pub open spec fn parse_relation(s: Seq<char>) -> Option<(RelationView, Seq<char>)> {
    let t = ws(s);
    if t.len() == 0 || t[0] != '{' {
        None
    } else {
        match parse_string(ws(t.skip(1))) {
            None => None,
            Some((k1, r1)) => if k1 != "head"@ {
                None
            } else {
                let a = ws(r1);
                if a.len() == 0 || a[0] != ':' {
                    None
                } else {
                    match parse_string(ws(a.skip(1))) {
                        None => None,
                        Some((head, r2)) => {
                            let b = ws(r2);
                            if b.len() == 0 || b[0] != ',' {
                                None
                            } else {
                                match parse_string(ws(b.skip(1))) {
                                    None => None,
                                    Some((k2, r3)) => if k2 != "tail"@ {
                                        None
                                    } else {
                                        let c = ws(r3);
                                        if c.len() == 0 || c[0] != ':' {
                                            None
                                        } else {
                                            match parse_string(ws(c.skip(1))) {
                                                None => None,
                                                Some((tail, r4)) => {
                                                    let d = ws(r4);
                                                    if d.len() == 0 || d[0] != ',' {
                                                        None
                                                    } else {
                                                        match parse_string(ws(d.skip(1))) {
                                                            None => None,
                                                            Some((k3, r5)) => if k3
                                                                != "relation"@ {
                                                                None
                                                            } else {
                                                                let e = ws(r5);
                                                                if e.len() == 0 || e[0] != ':' {
                                                                    None
                                                                } else {
                                                                    match parse_string(
                                                                        ws(e.skip(1)),
                                                                    ) {
                                                                        None => None,
                                                                        Some((rel, r6)) => {
                                                                            let f = ws(r6);
                                                                            if f.len() == 0 || f[0]
                                                                                != '}' {
                                                                                None
                                                                            } else {
                                                                                Some(
                                                                                    (
                                                                                        RelationView {
                                                                                            head,
                                                                                            tail,
                                                                                            relation
                                                                                                :
                                                                                                rel,
                                                                                        },
                                                                                        f.skip(1),
                                                                                    ),
                                                                                )
                                                                            }
                                                                        },
                                                                    }
                                                                }
                                                            },
                                                        }
                                                    }
                                                },
                                            }
                                        }
                                    },
                                }
                            }
                        },
                    }
                }
            },
        }
    }
}

/// Parsing a relation strictly consumes input.
proof fn lemma_parse_relation_len(s: Seq<char>)
    ensures
        parse_relation(s) matches Some((r, rest)) ==> rest.len() < s.len(),
{
    lemma_ws_len(s);
    let t = ws(s);
    if t.len() > 0 && t[0] == '{' {
        lemma_ws_len(t.skip(1));
        lemma_parse_string_len(ws(t.skip(1)));
        if let Some((k1, r1)) = parse_string(ws(t.skip(1))) {
            lemma_ws_len(r1);
            let a = ws(r1);
            if a.len() > 0 {
                lemma_ws_len(a.skip(1));
                lemma_parse_string_len(ws(a.skip(1)));
                if let Some((head, r2)) = parse_string(ws(a.skip(1))) {
                    lemma_ws_len(r2);
                    let b = ws(r2);
                    if b.len() > 0 {
                        lemma_ws_len(b.skip(1));
                        lemma_parse_string_len(ws(b.skip(1)));
                        if let Some((k2, r3)) = parse_string(ws(b.skip(1))) {
                            lemma_ws_len(r3);
                            let c = ws(r3);
                            if c.len() > 0 {
                                lemma_ws_len(c.skip(1));
                                lemma_parse_string_len(ws(c.skip(1)));
                                if let Some((tail, r4)) = parse_string(ws(c.skip(1))) {
                                    lemma_ws_len(r4);
                                    let d = ws(r4);
                                    if d.len() > 0 {
                                        lemma_ws_len(d.skip(1));
                                        lemma_parse_string_len(ws(d.skip(1)));
                                        if let Some((k3, r5)) = parse_string(ws(d.skip(1))) {
                                            lemma_ws_len(r5);
                                            let e = ws(r5);
                                            if e.len() > 0 {
                                                lemma_ws_len(e.skip(1));
                                                lemma_parse_string_len(ws(e.skip(1)));
                                                if let Some((rel, r6)) = parse_string(
                                                    ws(e.skip(1)),
                                                ) {
                                                    lemma_ws_len(r6);
                                                }
                                            }
                                        }
                                    }
                                }
                            }
                        }
                    }
                }
            }
        }
    }
}

/// Parses the remainder of a non-empty relation list.
pub open spec fn parse_relations_rest(s: Seq<char>, acc: Seq<RelationView>) -> Option<
    (Seq<RelationView>, Seq<char>),
>
    decreases s.len(),
    via parse_relations_rest_decreases
{
    let t = ws(s);
    if t.len() == 0 {
        None
    } else if t[0] == ']' {
        Some((acc, t.skip(1)))
    } else if t[0] == ',' {
        match parse_relation(t.skip(1)) {
            None => None,
            Some((r, rest)) => parse_relations_rest(rest, acc.push(r)),
        }
    } else {
        None
    }
}

#[via_fn]
proof fn parse_relations_rest_decreases(s: Seq<char>, acc: Seq<RelationView>) {
    lemma_ws_len(s);
    let t = ws(s);
    if t.len() > 0 && t[0] == ',' {
        lemma_parse_relation_len(t.skip(1));
    }
}

/// Parses a relation list after its opening bracket.
pub open spec fn parse_relations(s: Seq<char>) -> Option<(Seq<RelationView>, Seq<char>)> {
    let t = ws(s);
    if t.len() == 0 {
        None
    } else if t[0] == ']' {
        Some((Seq::empty(), t.skip(1)))
    } else {
        match parse_relation(t) {
            None => None,
            Some((r, rest)) => parse_relations_rest(rest, seq![r]),
        }
    }
}

/// The grammar of a knowledge-graph document: the `entities` entry, then the
/// `relations` entry, then the end of input.
pub open spec fn kg_parse(s: Seq<char>) -> Option<KnowledgeGraphView> {
    let t = ws(s);
    if t.len() == 0 || t[0] != '{' {
        None
    } else {
        match parse_string(ws(t.skip(1))) {
            None => None,
            Some((k1, r1)) => if k1 != "entities"@ {
                None
            } else {
                let a = ws(r1);
                if a.len() == 0 || a[0] != ':' {
                    None
                } else {
                    let b = ws(a.skip(1));
                    if b.len() == 0 || b[0] != '[' {
                        None
                    } else {
                        match parse_entities(b.skip(1)) {
                            None => None,
                            Some((es, r2)) => {
                                let c = ws(r2);
                                if c.len() == 0 || c[0] != ',' {
                                    None
                                } else {
                                    match parse_string(ws(c.skip(1))) {
                                        None => None,
                                        Some((k2, r3)) => if k2 != "relations"@ {
                                            None
                                        } else {
                                            let d = ws(r3);
                                            if d.len() == 0 || d[0] != ':' {
                                                None
                                            } else {
                                                let e = ws(d.skip(1));
                                                if e.len() == 0 || e[0] != '[' {
                                                    None
                                                } else {
                                                    match parse_relations(e.skip(1)) {
                                                        None => None,
                                                        Some((rs, r4)) => {
                                                            let f = ws(r4);
                                                            if f.len() == 0 || f[0] != '}' {
                                                                None
                                                            } else if ws(f.skip(1)).len() != 0 {
                                                                None
                                                            } else {
                                                                Some(
                                                                    KnowledgeGraphView {
                                                                        entities: es,
                                                                        relations: rs,
                                                                    },
                                                                )
                                                            }
                                                        },
                                                    }
                                                }
                                            }
                                        },
                                    }
                                }
                            },
                        }
                    }
                }
            },
        }
    }
}

} // verus!

verus! {

/// A sequence starting with a non-whitespace character loses nothing to
/// `ws`.
proof fn lemma_ws_nonws(s: Seq<char>)
    requires
        s.len() > 0,
        !is_ws(s[0]),
    ensures
        ws(s) == s,
{
}

/// Scanning the serialization of a label finds the label and the closing
/// quote.
proof fn lemma_scan_roundtrip(content: Seq<char>, rest: Seq<char>)
    requires
        label_ok(content),
    ensures
        scan_string(content + seq!['"'] + rest) == Some((content, rest)),
    decreases content.len(),
{
    let s = content + seq!['"'] + rest;
    if content.len() == 0 {
        assert(s[0] == '"');
        assert(s.skip(1) =~= rest);
        assert(scan_string(s) == Some((Seq::<char>::empty(), rest)));
        assert(content =~= Seq::<char>::empty());
    } else {
        assert(s[0] == content[0]);
        assert(is_label_char(content[0]));
        assert(content[0] != '"');
        assert(s.skip(1) =~= content.skip(1) + seq!['"'] + rest);
        assert(label_ok(content.skip(1)));
        lemma_scan_roundtrip(content.skip(1), rest);
        assert(scan_string(s.skip(1)) == Some((content.skip(1), rest)));
        assert(seq![s[0]] + content.skip(1) =~= content);
    }
}

/// Parsing the serialization of a quoted label returns the label.
proof fn lemma_parse_string_roundtrip(lbl: Seq<char>, rest: Seq<char>)
    requires
        label_ok(lbl),
    ensures
        parse_string(quoted(lbl) + rest) == Some((lbl, rest)),
{
    let s = quoted(lbl) + rest;
    assert(s[0] == '"');
    assert(s.skip(1) =~= lbl + seq!['"'] + rest);
    lemma_scan_roundtrip(lbl, rest);
}

/// Parsing the remainder of a serialized entity list appends the remaining
/// names to the accumulator.
proof fn lemma_entities_rest_roundtrip(
    es: Seq<Seq<char>>,
    i: int,
    acc: Seq<Seq<char>>,
    rest: Seq<char>,
)
    requires
        1 <= i <= es.len(),
        forall|j: int| 0 <= j < es.len() ==> label_ok(#[trigger] es[j]),
    ensures
        parse_entities_rest(entities_json_from(es, i) + seq![']'] + rest, acc) == Some(
            (acc + es.skip(i), rest),
        ),
    decreases es.len() - i,
{
    let s = entities_json_from(es, i) + seq![']'] + rest;
    if i == es.len() {
        assert(entities_json_from(es, i) =~= Seq::<char>::empty());
        assert(s =~= seq![']'] + rest);
        assert(s[0] == ']');
        lemma_ws_nonws(s);
        assert(s.skip(1) =~= rest);
        assert(acc + es.skip(i) =~= acc);
    } else {
        assert(entities_json_from(es, i) == seq![','] + quoted(es[i]) + entities_json_from(
            es,
            i + 1,
        ));
        assert(s[0] == ',');
        lemma_ws_nonws(s);
        let after = quoted(es[i]) + (entities_json_from(es, i + 1) + seq![']'] + rest);
        assert(s.skip(1) =~= after);
        assert(after[0] == '"');
        lemma_ws_nonws(after);
        lemma_parse_string_roundtrip(es[i], entities_json_from(es, i + 1) + seq![']'] + rest);
        lemma_entities_rest_roundtrip(es, i + 1, acc.push(es[i]), rest);
        assert(acc.push(es[i]) + es.skip(i + 1) =~= acc + es.skip(i));
    }
}

/// Parsing a serialized entity list returns the entity names.
proof fn lemma_parse_entities_roundtrip(es: Seq<Seq<char>>, rest: Seq<char>)
    requires
        forall|j: int| 0 <= j < es.len() ==> label_ok(#[trigger] es[j]),
    ensures
        parse_entities(entities_json_from(es, 0) + seq![']'] + rest) == Some((es, rest)),
{
    let s = entities_json_from(es, 0) + seq![']'] + rest;
    if es.len() == 0 {
        assert(entities_json_from(es, 0) =~= Seq::<char>::empty());
        assert(s =~= seq![']'] + rest);
        assert(s[0] == ']');
        lemma_ws_nonws(s);
        assert(s.skip(1) =~= rest);
        assert(Seq::<Seq<char>>::empty() =~= es);
    } else {
        assert(entities_json_from(es, 0) == quoted(es[0]) + entities_json_from(es, 1));
        assert(s[0] == '"');
        lemma_ws_nonws(s);
        assert(s =~= quoted(es[0]) + (entities_json_from(es, 1) + seq![']'] + rest));
        lemma_parse_string_roundtrip(es[0], entities_json_from(es, 1) + seq![']'] + rest);
        lemma_entities_rest_roundtrip(es, 1, seq![es[0]], rest);
        assert(seq![es[0]] + es.skip(1) =~= es);
    }
}

/// The fixed key strings are made of label characters.
proof fn lemma_keys_label_ok()
    ensures
        label_ok("head"@),
        label_ok("tail"@),
        label_ok("relation"@),
        label_ok("entities"@),
        label_ok("relations"@),
{
    reveal_strlit("head");
    reveal_strlit("tail");
    reveal_strlit("relation");
    reveal_strlit("entities");
    reveal_strlit("relations");
    assert forall|i: int| 0 <= i < "head"@.len() implies is_label_char(#[trigger] "head"@[i]) by {
        assert("head"@.len() == 4);
    }
    assert forall|i: int| 0 <= i < "tail"@.len() implies is_label_char(#[trigger] "tail"@[i]) by {
        assert("tail"@.len() == 4);
    }
    assert forall|i: int| 0 <= i < "relation"@.len() implies is_label_char(
        #[trigger] "relation"@[i],
    ) by {
        assert("relation"@.len() == 8);
    }
    assert forall|i: int| 0 <= i < "entities"@.len() implies is_label_char(
        #[trigger] "entities"@[i],
    ) by {
        assert("entities"@.len() == 8);
    }
    assert forall|i: int| 0 <= i < "relations"@.len() implies is_label_char(
        #[trigger] "relations"@[i],
    ) by {
        assert("relations"@.len() == 9);
    }
}

/// One step of a relation object: a quoted key, a colon, and a quoted
/// value, with the given remainder.
proof fn lemma_relation_entry(key: Seq<char>, value: Seq<char>, rest: Seq<char>)
    requires
        label_ok(key),
        label_ok(value),
    ensures
        parse_string(quoted(key) + (seq![':'] + quoted(value) + rest)) == Some(
            (key, seq![':'] + quoted(value) + rest),
        ),
        parse_string(quoted(value) + rest) == Some((value, rest)),
{
    lemma_parse_string_roundtrip(key, seq![':'] + quoted(value) + rest);
    lemma_parse_string_roundtrip(value, rest);
}

/// Parsing a serialized relation object returns the relation.
proof fn lemma_parse_relation_roundtrip(r: RelationView, rest: Seq<char>)
    requires
        label_ok(r.head),
        label_ok(r.tail),
        label_ok(r.relation),
    ensures
        parse_relation(relation_json(r) + rest) == Some((r, rest)),
{
    lemma_keys_label_ok();
    let s = relation_json(r) + rest;
    assert(s[0] == '{');
    lemma_ws_nonws(s);
    let s1 = quoted("head"@) + (seq![':'] + quoted(r.head) + (seq![','] + quoted("tail"@) + (
    seq![':'] + quoted(r.tail) + (seq![','] + quoted("relation"@) + (seq![':'] + quoted(r.relation)
        + (seq!['}'] + rest))))));
    assert(s.skip(1) =~= s1);
    assert(s1[0] == '"');
    lemma_ws_nonws(s1);
    lemma_parse_string_roundtrip(
        "head"@,
        seq![':'] + quoted(r.head) + (seq![','] + quoted("tail"@) + (seq![':'] + quoted(r.tail) + (
        seq![','] + quoted("relation"@) + (seq![':'] + quoted(r.relation) + (seq!['}'] + rest))))),
    );
    let a = seq![':'] + quoted(r.head) + (seq![','] + quoted("tail"@) + (seq![':'] + quoted(r.tail)
        + (seq![','] + quoted("relation"@) + (seq![':'] + quoted(r.relation) + (seq!['}']
        + rest)))));
    assert(a[0] == ':');
    lemma_ws_nonws(a);
    let a1 = quoted(r.head) + (seq![','] + quoted("tail"@) + (seq![':'] + quoted(r.tail) + (
    seq![','] + quoted("relation"@) + (seq![':'] + quoted(r.relation) + (seq!['}'] + rest)))));
    assert(a.skip(1) =~= a1);
    assert(a1[0] == '"');
    lemma_ws_nonws(a1);
    lemma_parse_string_roundtrip(
        r.head,
        seq![','] + quoted("tail"@) + (seq![':'] + quoted(r.tail) + (seq![','] + quoted(
            "relation"@,
        ) + (seq![':'] + quoted(r.relation) + (seq!['}'] + rest)))),
    );
    let b = seq![','] + quoted("tail"@) + (seq![':'] + quoted(r.tail) + (seq![','] + quoted(
        "relation"@,
    ) + (seq![':'] + quoted(r.relation) + (seq!['}'] + rest))));
    assert(b[0] == ',');
    lemma_ws_nonws(b);
    let b1 = quoted("tail"@) + (seq![':'] + quoted(r.tail) + (seq![','] + quoted("relation"@) + (
    seq![':'] + quoted(r.relation) + (seq!['}'] + rest))));
    assert(b.skip(1) =~= b1);
    assert(b1[0] == '"');
    lemma_ws_nonws(b1);
    lemma_parse_string_roundtrip(
        "tail"@,
        seq![':'] + quoted(r.tail) + (seq![','] + quoted("relation"@) + (seq![':'] + quoted(
            r.relation,
        ) + (seq!['}'] + rest))),
    );
    let c = seq![':'] + quoted(r.tail) + (seq![','] + quoted("relation"@) + (seq![':'] + quoted(
        r.relation,
    ) + (seq!['}'] + rest)));
    assert(c[0] == ':');
    lemma_ws_nonws(c);
    let c1 = quoted(r.tail) + (seq![','] + quoted("relation"@) + (seq![':'] + quoted(r.relation) + (
    seq!['}'] + rest)));
    assert(c.skip(1) =~= c1);
    assert(c1[0] == '"');
    lemma_ws_nonws(c1);
    lemma_parse_string_roundtrip(
        r.tail,
        seq![','] + quoted("relation"@) + (seq![':'] + quoted(r.relation) + (seq!['}'] + rest)),
    );
    let d = seq![','] + quoted("relation"@) + (seq![':'] + quoted(r.relation) + (seq!['}'] + rest));
    assert(d[0] == ',');
    lemma_ws_nonws(d);
    let d1 = quoted("relation"@) + (seq![':'] + quoted(r.relation) + (seq!['}'] + rest));
    assert(d.skip(1) =~= d1);
    assert(d1[0] == '"');
    lemma_ws_nonws(d1);
    lemma_parse_string_roundtrip(
        "relation"@,
        seq![':'] + quoted(r.relation) + (seq!['}'] + rest),
    );
    let e = seq![':'] + quoted(r.relation) + (seq!['}'] + rest);
    assert(e[0] == ':');
    lemma_ws_nonws(e);
    let e1 = quoted(r.relation) + (seq!['}'] + rest);
    assert(e.skip(1) =~= e1);
    assert(e1[0] == '"');
    lemma_ws_nonws(e1);
    lemma_parse_string_roundtrip(r.relation, seq!['}'] + rest);
    let f = seq!['}'] + rest;
    assert(f[0] == '}');
    lemma_ws_nonws(f);
    assert(f.skip(1) =~= rest);
}

/// Parsing the remainder of a serialized relation list appends the
/// remaining relations to the accumulator.
proof fn lemma_relations_rest_roundtrip(
    rs: Seq<RelationView>,
    i: int,
    acc: Seq<RelationView>,
    rest: Seq<char>,
)
    requires
        1 <= i <= rs.len(),
        forall|j: int|
            0 <= j < rs.len() ==> {
                &&& label_ok((#[trigger] rs[j]).head)
                &&& label_ok(rs[j].tail)
                &&& label_ok(rs[j].relation)
            },
    ensures
        parse_relations_rest(relations_json_from(rs, i) + seq![']'] + rest, acc) == Some(
            (acc + rs.skip(i), rest),
        ),
    decreases rs.len() - i,
{
    let s = relations_json_from(rs, i) + seq![']'] + rest;
    if i == rs.len() {
        assert(relations_json_from(rs, i) =~= Seq::<char>::empty());
        assert(s =~= seq![']'] + rest);
        assert(s[0] == ']');
        lemma_ws_nonws(s);
        assert(s.skip(1) =~= rest);
        assert(acc + rs.skip(i) =~= acc);
    } else {
        assert(relations_json_from(rs, i) == seq![','] + relation_json(rs[i])
            + relations_json_from(rs, i + 1));
        assert(s[0] == ',');
        lemma_ws_nonws(s);
        assert(s.skip(1) =~= relation_json(rs[i]) + (relations_json_from(rs, i + 1) + seq![']']
            + rest));
        lemma_parse_relation_roundtrip(rs[i], relations_json_from(rs, i + 1) + seq![']'] + rest);
        lemma_relations_rest_roundtrip(rs, i + 1, acc.push(rs[i]), rest);
        assert(acc.push(rs[i]) + rs.skip(i + 1) =~= acc + rs.skip(i));
    }
}

/// Parsing a serialized relation list returns the relations.
proof fn lemma_parse_relations_roundtrip(rs: Seq<RelationView>, rest: Seq<char>)
    requires
        forall|j: int|
            0 <= j < rs.len() ==> {
                &&& label_ok((#[trigger] rs[j]).head)
                &&& label_ok(rs[j].tail)
                &&& label_ok(rs[j].relation)
            },
    ensures
        parse_relations(relations_json_from(rs, 0) + seq![']'] + rest) == Some((rs, rest)),
{
    let s = relations_json_from(rs, 0) + seq![']'] + rest;
    if rs.len() == 0 {
        assert(relations_json_from(rs, 0) =~= Seq::<char>::empty());
        assert(s =~= seq![']'] + rest);
        assert(s[0] == ']');
        lemma_ws_nonws(s);
        assert(s.skip(1) =~= rest);
        assert(Seq::<RelationView>::empty() =~= rs);
    } else {
        assert(relations_json_from(rs, 0) == relation_json(rs[0]) + relations_json_from(rs, 1));
        assert(s[0] == '{');
        lemma_ws_nonws(s);
        assert(s =~= relation_json(rs[0]) + (relations_json_from(rs, 1) + seq![']'] + rest));
        lemma_parse_relation_roundtrip(rs[0], relations_json_from(rs, 1) + seq![']'] + rest);
        lemma_relations_rest_roundtrip(rs, 1, seq![rs[0]], rest);
        assert(seq![rs[0]] + rs.skip(1) =~= rs);
    }
}

/// Law: round trip.  Parsing the canonical serialization of a graph returns
/// the graph unchanged, for every graph whose labels are made of printable
/// characters other than the quote and the backslash.
#[verifier::rlimit(80)]
pub proof fn lemma_kg_json_roundtrip(g: KnowledgeGraphView)
    requires
        kg_labels_ok(g),
    ensures
        kg_parse(kg_json(g)) == Some(g),
{
    lemma_keys_label_ok();
    let s = kg_json(g);
    assert(s[0] == '{');
    lemma_ws_nonws(s);
    let s1 = quoted("entities"@) + (seq![':', '['] + entities_json_from(g.entities, 0) + (seq![
        ']',
        ',',
    ] + quoted("relations"@) + (seq![':', '['] + relations_json_from(g.relations, 0) + seq![
        ']',
        '}',
    ])));
    assert(s.skip(1) =~= s1);
    assert(s1[0] == '"');
    lemma_ws_nonws(s1);
    lemma_parse_string_roundtrip(
        "entities"@,
        seq![':', '['] + entities_json_from(g.entities, 0) + (seq![']', ','] + quoted("relations"@)
            + (seq![':', '['] + relations_json_from(g.relations, 0) + seq![']', '}'])),
    );
    let a = seq![':', '['] + entities_json_from(g.entities, 0) + (seq![']', ','] + quoted(
        "relations"@,
    ) + (seq![':', '['] + relations_json_from(g.relations, 0) + seq![']', '}']));
    assert(a[0] == ':');
    lemma_ws_nonws(a);
    let b = seq!['['] + entities_json_from(g.entities, 0) + (seq![']', ','] + quoted("relations"@)
        + (seq![':', '['] + relations_json_from(g.relations, 0) + seq![']', '}']));
    assert(a.skip(1) =~= b);
    assert(b[0] == '[');
    lemma_ws_nonws(b);
    let ent_rest = seq![','] + quoted("relations"@) + (seq![':', '['] + relations_json_from(
        g.relations,
        0,
    ) + seq![']', '}']);
    assert(b.skip(1) =~= entities_json_from(g.entities, 0) + seq![']'] + ent_rest);
    lemma_parse_entities_roundtrip(g.entities, ent_rest);
    assert(ent_rest[0] == ',');
    lemma_ws_nonws(ent_rest);
    let c1 = quoted("relations"@) + (seq![':', '['] + relations_json_from(g.relations, 0) + seq![
        ']',
        '}',
    ]);
    assert(ent_rest.skip(1) =~= c1);
    assert(c1[0] == '"');
    lemma_ws_nonws(c1);
    lemma_parse_string_roundtrip(
        "relations"@,
        seq![':', '['] + relations_json_from(g.relations, 0) + seq![']', '}'],
    );
    let d = seq![':', '['] + relations_json_from(g.relations, 0) + seq![']', '}'];
    assert(d[0] == ':');
    lemma_ws_nonws(d);
    let e = seq!['['] + relations_json_from(g.relations, 0) + seq![']', '}'];
    assert(d.skip(1) =~= e);
    assert(e[0] == '[');
    lemma_ws_nonws(e);
    let rel_rest = seq!['}'];
    assert(e.skip(1) =~= relations_json_from(g.relations, 0) + seq![']'] + rel_rest);
    lemma_parse_relations_roundtrip(g.relations, rel_rest);
    assert(rel_rest[0] == '}');
    lemma_ws_nonws(rel_rest);
    assert(rel_rest.skip(1) =~= Seq::<char>::empty());
    assert(ws(Seq::<char>::empty()).len() == 0);
    assert(kg_parse(s) == Some(KnowledgeGraphView { entities: g.entities, relations: g.relations }));
    assert(KnowledgeGraphView { entities: g.entities, relations: g.relations } == g);
}

} // verus!

verus! {

/// Appends `s` wrapped in double quotes.
pub(crate) fn push_quoted(out: &mut String, s: &str)
    ensures
        final(out)@ == old(out)@ + quoted(s@),
{
    let ghost pre = out@;
    crate::text::push_char(out, '"');
    out.append(s);
    crate::text::push_char(out, '"');
    proof {
        assert(out@ =~= pre + quoted(s@));
    }
}

/// Whether `c` is JSON whitespace.
pub(crate) fn is_ws_exec(c: char) -> (r: bool)
    ensures
        r == is_ws(c),
{
    c == ' ' || c == '\n' || c == '\t' || c == '\r'
}

/// Whether `c` is a label character.
pub(crate) fn is_label_char_exec(c: char) -> (r: bool)
    ensures
        r == is_label_char(c),
{
    ' ' <= c && c <= '~' && c != '"' && c != '\\'
}

/// Advances past leading whitespace.
pub(crate) fn skip_ws_exec(v: &Vec<char>, i: usize) -> (r: usize)
    requires
        i <= v@.len(),
    ensures
        i <= r <= v@.len(),
        v@.skip(r as int) == ws(v@.skip(i as int)),
{
    let mut cur = i;
    while cur < v.len() && is_ws_exec(v[cur])
        invariant
            i <= cur <= v@.len(),
            ws(v@.skip(cur as int)) == ws(v@.skip(i as int)),
        decreases v@.len() - cur,
    {
        proof {
            assert(v@.skip(cur as int)[0] == v@[cur as int]);
            assert(v@.skip(cur as int).skip(1) =~= v@.skip(cur + 1 as int));
        }
        cur += 1;
    }
    proof {
        if cur < v@.len() {
            assert(v@.skip(cur as int)[0] == v@[cur as int]);
            assert(ws(v@.skip(cur as int)) == v@.skip(cur as int));
        } else {
            assert(v@.skip(cur as int) =~= Seq::<char>::empty());
            assert(ws(v@.skip(cur as int)) == v@.skip(cur as int));
        }
    }
    cur
}

/// Parses a quoted label string starting exactly at `i`.
pub(crate) fn parse_string_exec(v: &Vec<char>, i: usize) -> (r: Option<(String, usize)>)
    requires
        i <= v@.len(),
    ensures
        match r {
            Some(p) => {
                &&& i < p.1 <= v@.len()
                &&& parse_string(v@.skip(i as int)) == Some((p.0@, v@.skip(p.1 as int)))
            },
            None => parse_string(v@.skip(i as int)) is None,
        },
{
    if i >= v.len() || v[i] != '"' {
        proof {
            if i < v@.len() {
                assert(v@.skip(i as int)[0] == v@[i as int]);
            }
        }
        return None;
    }
    proof {
        assert(v@.skip(i as int)[0] == '"');
        assert(v@.skip(i as int).skip(1) =~= v@.skip(i + 1 as int));
    }
    let ghost start = i + 1 as int;
    let mut content: Vec<char> = Vec::new();
    let mut cur: usize = i + 1;
    loop
        invariant
            i + 1 <= cur <= v@.len(),
            start == i + 1 as int,
            parse_string(v@.skip(i as int)) == scan_string(v@.skip(start)),
            (match scan_string(v@.skip(cur as int)) {
                Option::None => scan_string(v@.skip(start)) is None,
                Option::Some(p) => scan_string(v@.skip(start)) == Some(
                    (content@ + p.0, p.1),
                ),
            }),
        decreases v@.len() - cur,
    {
        if cur >= v.len() {
            proof {
                assert(v@.skip(cur as int) =~= Seq::<char>::empty());
            }
            return None;
        }
        let c = v[cur];
        proof {
            assert(v@.skip(cur as int)[0] == c);
            assert(v@.skip(cur as int).skip(1) =~= v@.skip(cur + 1 as int));
        }
        if c == '"' {
            let s = crate::text::chars_to_string(&content);
            proof {
                assert(scan_string(v@.skip(cur as int)) == Some(
                    (Seq::<char>::empty(), v@.skip(cur + 1 as int)),
                ));
                assert(content@ + Seq::<char>::empty() =~= content@);
                assert(scan_string(v@.skip(start)) == Some((content@, v@.skip(cur + 1 as int))));
            }
            return Some((s, cur + 1));
        }
        if !is_label_char_exec(c) {
            return None;
        }
        let ghost c0 = content@;
        content.push(c);
        proof {
            if let Some(p) = scan_string(v@.skip(cur + 1 as int)) {
                assert(scan_string(v@.skip(cur as int)) == Some((seq![c] + p.0, p.1)));
                assert(c0 + (seq![c] + p.0) =~= content@ + p.0);
            }
        }
        cur += 1;
    }
}

/// Parses an entity list after its opening bracket, starting at `i`.
fn parse_entities_exec(v: &Vec<char>, i: usize) -> (r: Option<(Vec<crate::graph::Entity>, usize)>)
    requires
        i <= v@.len(),
    ensures
        match r {
            Some(p) => {
                &&& p.1 <= v@.len()
                &&& parse_entities(v@.skip(i as int)) == Some(
                    (crate::graph::entity_names(p.0@), v@.skip(p.1 as int)),
                )
            },
            None => parse_entities(v@.skip(i as int)) is None,
        },
{
    let t = skip_ws_exec(v, i);
    if t >= v.len() {
        return None;
    }
    proof {
        assert(v@.skip(t as int)[0] == v@[t as int]);
    }
    if v[t] == ']' {
        let es: Vec<crate::graph::Entity> = Vec::new();
        proof {
            assert(v@.skip(t as int).skip(1) =~= v@.skip(t + 1 as int));
            assert(crate::graph::entity_names(es@) =~= Seq::<Seq<char>>::empty());
        }
        return Some((es, t + 1));
    }
    let first = match parse_string_exec(v, t) {
        Some(p) => p,
        None => {
            return None;
        },
    };
    let mut acc: Vec<crate::graph::Entity> = Vec::new();
    acc.push(crate::graph::Entity::new(first.0.as_str()));
    let mut cur: usize = first.1;
    proof {
        assert(crate::graph::entity_names(acc@) =~= seq![first.0@]);
        assert(parse_entities(v@.skip(i as int)) == parse_entities_rest(
            v@.skip(cur as int),
            crate::graph::entity_names(acc@),
        ));
    }
    loop
        invariant
            cur <= v@.len(),
            parse_entities(v@.skip(i as int)) == parse_entities_rest(
                v@.skip(cur as int),
                crate::graph::entity_names(acc@),
            ),
        decreases v@.len() - cur,
    {
        let u = skip_ws_exec(v, cur);
        if u >= v.len() {
            proof {
                assert(ws(v@.skip(cur as int)) =~= Seq::<char>::empty());
            }
            return None;
        }
        proof {
            assert(v@.skip(u as int)[0] == v@[u as int]);
        }
        if v[u] == ']' {
            proof {
                assert(v@.skip(u as int).skip(1) =~= v@.skip(u + 1 as int));
            }
            return Some((acc, u + 1));
        }
        if v[u] != ',' {
            return None;
        }
        proof {
            assert(v@.skip(u as int).skip(1) =~= v@.skip(u + 1 as int));
        }
        let w = skip_ws_exec(v, u + 1);
        let nxt = match parse_string_exec(v, w) {
            Some(p) => p,
            None => {
                return None;
            },
        };
        let ghost a0 = crate::graph::entity_names(acc@);
        acc.push(crate::graph::Entity::new(nxt.0.as_str()));
        proof {
            assert(crate::graph::entity_names(acc@) =~= a0.push(nxt.0@));
        }
        cur = nxt.1;
    }
}

} // verus!

verus! {

/// Whether the parsed key equals the expected literal.
pub(crate) fn key_is(k: &String, lit: &str) -> (r: bool)
    ensures
        r == (k@ == lit@),
{
    *k == String::from_str(lit)
}

/// Parses one relation object starting at `i` (whitespace allowed first).
fn parse_relation_exec(v: &Vec<char>, i: usize) -> (r: Option<(crate::graph::Relation, usize)>)
    requires
        i <= v@.len(),
    ensures
        match r {
            Some(p) => {
                &&& i < p.1 <= v@.len()
                &&& parse_relation(v@.skip(i as int)) == Some((p.0@, v@.skip(p.1 as int)))
            },
            None => parse_relation(v@.skip(i as int)) is None,
        },
{
    let t = skip_ws_exec(v, i);
    if t >= v.len() {
        return None;
    }
    proof {
        assert(v@.skip(t as int)[0] == v@[t as int]);
    }
    if v[t] != '{' {
        return None;
    }
    proof {
        assert(v@.skip(t as int).skip(1) =~= v@.skip(t + 1 as int));
    }
    let a0 = skip_ws_exec(v, t + 1);
    let k1 = match parse_string_exec(v, a0) {
        Some(p) => p,
        None => {
            return None;
        },
    };
    if !key_is(&k1.0, "head") {
        return None;
    }
    let a = skip_ws_exec(v, k1.1);
    if a >= v.len() {
        return None;
    }
    proof {
        assert(v@.skip(a as int)[0] == v@[a as int]);
    }
    if v[a] != ':' {
        return None;
    }
    proof {
        assert(v@.skip(a as int).skip(1) =~= v@.skip(a + 1 as int));
    }
    let b0 = skip_ws_exec(v, a + 1);
    let head = match parse_string_exec(v, b0) {
        Some(p) => p,
        None => {
            return None;
        },
    };
    let b = skip_ws_exec(v, head.1);
    if b >= v.len() {
        return None;
    }
    proof {
        assert(v@.skip(b as int)[0] == v@[b as int]);
    }
    if v[b] != ',' {
        return None;
    }
    proof {
        assert(v@.skip(b as int).skip(1) =~= v@.skip(b + 1 as int));
    }
    let c0 = skip_ws_exec(v, b + 1);
    let k2 = match parse_string_exec(v, c0) {
        Some(p) => p,
        None => {
            return None;
        },
    };
    if !key_is(&k2.0, "tail") {
        return None;
    }
    let c = skip_ws_exec(v, k2.1);
    if c >= v.len() {
        return None;
    }
    proof {
        assert(v@.skip(c as int)[0] == v@[c as int]);
    }
    if v[c] != ':' {
        return None;
    }
    proof {
        assert(v@.skip(c as int).skip(1) =~= v@.skip(c + 1 as int));
    }
    let d0 = skip_ws_exec(v, c + 1);
    let tail = match parse_string_exec(v, d0) {
        Some(p) => p,
        None => {
            return None;
        },
    };
    let d = skip_ws_exec(v, tail.1);
    if d >= v.len() {
        return None;
    }
    proof {
        assert(v@.skip(d as int)[0] == v@[d as int]);
    }
    if v[d] != ',' {
        return None;
    }
    proof {
        assert(v@.skip(d as int).skip(1) =~= v@.skip(d + 1 as int));
    }
    let e0 = skip_ws_exec(v, d + 1);
    let k3 = match parse_string_exec(v, e0) {
        Some(p) => p,
        None => {
            return None;
        },
    };
    if !key_is(&k3.0, "relation") {
        return None;
    }
    let e = skip_ws_exec(v, k3.1);
    if e >= v.len() {
        return None;
    }
    proof {
        assert(v@.skip(e as int)[0] == v@[e as int]);
    }
    if v[e] != ':' {
        return None;
    }
    proof {
        assert(v@.skip(e as int).skip(1) =~= v@.skip(e + 1 as int));
    }
    let f0 = skip_ws_exec(v, e + 1);
    let relv = match parse_string_exec(v, f0) {
        Some(p) => p,
        None => {
            return None;
        },
    };
    let f = skip_ws_exec(v, relv.1);
    if f >= v.len() {
        return None;
    }
    proof {
        assert(v@.skip(f as int)[0] == v@[f as int]);
    }
    if v[f] != '}' {
        return None;
    }
    proof {
        assert(v@.skip(f as int).skip(1) =~= v@.skip(f + 1 as int));
    }
    let rel = crate::graph::Relation::new(
        crate::graph::Entity::new(head.0.as_str()),
        crate::graph::Entity::new(tail.0.as_str()),
        relv.0.as_str(),
    );
    Some((rel, f + 1))
}

/// Parses a relation list after its opening bracket, starting at `i`.
fn parse_relations_exec(v: &Vec<char>, i: usize) -> (r: Option<
    (Vec<crate::graph::Relation>, usize),
>)
    requires
        i <= v@.len(),
    ensures
        match r {
            Some(p) => {
                &&& p.1 <= v@.len()
                &&& parse_relations(v@.skip(i as int)) == Some(
                    (crate::graph::relation_views(p.0@), v@.skip(p.1 as int)),
                )
            },
            None => parse_relations(v@.skip(i as int)) is None,
        },
{
    let t = skip_ws_exec(v, i);
    if t >= v.len() {
        return None;
    }
    proof {
        assert(v@.skip(t as int)[0] == v@[t as int]);
    }
    if v[t] == ']' {
        let rs: Vec<crate::graph::Relation> = Vec::new();
        proof {
            assert(v@.skip(t as int).skip(1) =~= v@.skip(t + 1 as int));
            assert(crate::graph::relation_views(rs@) =~= Seq::<RelationView>::empty());
        }
        return Some((rs, t + 1));
    }
    let first = match parse_relation_exec(v, t) {
        Some(p) => p,
        None => {
            return None;
        },
    };
    let ghost fv = first.0@;
    let mut acc: Vec<crate::graph::Relation> = Vec::new();
    acc.push(first.0);
    let mut cur: usize = first.1;
    proof {
        assert(crate::graph::relation_views(acc@) =~= seq![fv]);
        assert(parse_relations(v@.skip(i as int)) == parse_relations_rest(
            v@.skip(cur as int),
            crate::graph::relation_views(acc@),
        ));
    }
    loop
        invariant
            cur <= v@.len(),
            parse_relations(v@.skip(i as int)) == parse_relations_rest(
                v@.skip(cur as int),
                crate::graph::relation_views(acc@),
            ),
        decreases v@.len() - cur,
    {
        let u = skip_ws_exec(v, cur);
        if u >= v.len() {
            proof {
                assert(ws(v@.skip(cur as int)) =~= Seq::<char>::empty());
            }
            return None;
        }
        proof {
            assert(v@.skip(u as int)[0] == v@[u as int]);
        }
        if v[u] == ']' {
            proof {
                assert(v@.skip(u as int).skip(1) =~= v@.skip(u + 1 as int));
            }
            return Some((acc, u + 1));
        }
        if v[u] != ',' {
            return None;
        }
        proof {
            assert(v@.skip(u as int).skip(1) =~= v@.skip(u + 1 as int));
        }
        let nxt = match parse_relation_exec(v, u + 1) {
            Some(p) => p,
            None => {
                return None;
            },
        };
        let ghost a0 = crate::graph::relation_views(acc@);
        let ghost nv = nxt.0@;
        acc.push(nxt.0);
        proof {
            assert(crate::graph::relation_views(acc@) =~= a0.push(nv));
        }
        cur = nxt.1;
    }
}

} // verus!

verus! {

impl KnowledgeGraph {
    /// Parses a knowledge-graph document and validates the structural
    /// invariant.  Succeeds exactly when the text matches the schema and
    /// every relation endpoint is listed as an entity; a malformed document
    /// reports a parse error, a well-formed document with a dangling
    /// relation endpoint reports that relation.
    #[verifier::rlimit(80)]
    pub fn parse(text: &str) -> (r: Result<KnowledgeGraph, KgError>)
        ensures
            match r {
                Ok(g) => {
                    &&& kg_parse(text@) == Some(g@)
                    &&& kg_wf(g@)
                },
                Err(e) => match e {
                    KgError::Parse => kg_parse(text@) is None,
                    KgError::Invariant(rel) => {
                        &&& kg_parse(text@) matches Some(g0)
                        &&& !kg_wf(kg_parse(text@).unwrap())
                        &&& exists|i: int|
                            {
                                &&& 0 <= i < kg_parse(text@).unwrap().relations.len()
                                &&& rel@ == #[trigger] kg_parse(text@).unwrap().relations[i]
                                &&& !(kg_parse(text@).unwrap().entities.contains(rel@.head)
                                    && kg_parse(text@).unwrap().entities.contains(rel@.tail))
                            }
                    },
                },
            },
    {
        let v = crate::text::str_to_chars(text);
        proof {
            assert(v@.skip(0) =~= v@);
        }
        let t = skip_ws_exec(&v, 0);
        if t >= v.len() {
            return Err(KgError::Parse);
        }
        proof {
            assert(v@.skip(t as int)[0] == v@[t as int]);
        }
        if v[t] != '{' {
            return Err(KgError::Parse);
        }
        proof {
            assert(v@.skip(t as int).skip(1) =~= v@.skip(t + 1 as int));
        }
        let a0 = skip_ws_exec(&v, t + 1);
        let k1 = match parse_string_exec(&v, a0) {
            Some(p) => p,
            None => {
                return Err(KgError::Parse);
            },
        };
        if !key_is(&k1.0, "entities") {
            return Err(KgError::Parse);
        }
        let a = skip_ws_exec(&v, k1.1);
        if a >= v.len() {
            return Err(KgError::Parse);
        }
        proof {
            assert(v@.skip(a as int)[0] == v@[a as int]);
        }
        if v[a] != ':' {
            return Err(KgError::Parse);
        }
        proof {
            assert(v@.skip(a as int).skip(1) =~= v@.skip(a + 1 as int));
        }
        let b = skip_ws_exec(&v, a + 1);
        if b >= v.len() {
            return Err(KgError::Parse);
        }
        proof {
            assert(v@.skip(b as int)[0] == v@[b as int]);
        }
        if v[b] != '[' {
            return Err(KgError::Parse);
        }
        proof {
            assert(v@.skip(b as int).skip(1) =~= v@.skip(b + 1 as int));
        }
        let ents = match parse_entities_exec(&v, b + 1) {
            Some(p) => p,
            None => {
                return Err(KgError::Parse);
            },
        };
        let c = skip_ws_exec(&v, ents.1);
        if c >= v.len() {
            return Err(KgError::Parse);
        }
        proof {
            assert(v@.skip(c as int)[0] == v@[c as int]);
        }
        if v[c] != ',' {
            return Err(KgError::Parse);
        }
        proof {
            assert(v@.skip(c as int).skip(1) =~= v@.skip(c + 1 as int));
        }
        let c0 = skip_ws_exec(&v, c + 1);
        let k2 = match parse_string_exec(&v, c0) {
            Some(p) => p,
            None => {
                return Err(KgError::Parse);
            },
        };
        if !key_is(&k2.0, "relations") {
            return Err(KgError::Parse);
        }
        let d = skip_ws_exec(&v, k2.1);
        if d >= v.len() {
            return Err(KgError::Parse);
        }
        proof {
            assert(v@.skip(d as int)[0] == v@[d as int]);
        }
        if v[d] != ':' {
            return Err(KgError::Parse);
        }
        proof {
            assert(v@.skip(d as int).skip(1) =~= v@.skip(d + 1 as int));
        }
        let e = skip_ws_exec(&v, d + 1);
        if e >= v.len() {
            return Err(KgError::Parse);
        }
        proof {
            assert(v@.skip(e as int)[0] == v@[e as int]);
        }
        if v[e] != '[' {
            return Err(KgError::Parse);
        }
        proof {
            assert(v@.skip(e as int).skip(1) =~= v@.skip(e + 1 as int));
        }
        let rels = match parse_relations_exec(&v, e + 1) {
            Some(p) => p,
            None => {
                return Err(KgError::Parse);
            },
        };
        let f = skip_ws_exec(&v, rels.1);
        if f >= v.len() {
            return Err(KgError::Parse);
        }
        proof {
            assert(v@.skip(f as int)[0] == v@[f as int]);
        }
        if v[f] != '}' {
            return Err(KgError::Parse);
        }
        proof {
            assert(v@.skip(f as int).skip(1) =~= v@.skip(f + 1 as int));
        }
        let g = skip_ws_exec(&v, f + 1);
        if g < v.len() {
            proof {
                assert(ws(v@.skip(f + 1 as int)).len() != 0);
            }
            return Err(KgError::Parse);
        }
        proof {
            assert(v@.skip(g as int) =~= Seq::<char>::empty());
            assert(ws(v@.skip(f + 1 as int)).len() == 0);
            assert(kg_parse(text@) == Some(
                KnowledgeGraphView {
                    entities: crate::graph::entity_names(ents.0@),
                    relations: crate::graph::relation_views(rels.0@),
                },
            ));
        }
        let ghost ev = crate::graph::entity_names(ents.0@);
        let ghost rv = crate::graph::relation_views(rels.0@);
        match KnowledgeGraph::new(ents.0, rels.0) {
            Ok(g) => Ok(g),
            Err(err) => {
                proof {
                    let g0 = kg_parse(text@).unwrap();
                    assert(g0.entities == ev && g0.relations == rv);
                    if let KgError::Invariant(rel) = &err {
                        let i = choose|i: int|
                            {
                                &&& 0 <= i < rv.len()
                                &&& rel@ == rv[i]
                                &&& !(ev.contains(rel@.head) && ev.contains(rel@.tail))
                            };
                        assert(0 <= i < g0.relations.len() && rel@ == g0.relations[i] && !(
                        g0.entities.contains(rel@.head) && g0.entities.contains(rel@.tail)));
                    }
                }
                Err(err)
            },
        }
    }

    /// Serializes the graph as its canonical compact document.
    pub fn to_json_string(&self) -> (r: String)
        ensures
            r@ == kg_json(self@),
    {
        let ghost gv = self@;
        let mut out = String::new();
        crate::text::push_char(&mut out, '{');
        push_quoted(&mut out, "entities");
        crate::text::push_char(&mut out, ':');
        crate::text::push_char(&mut out, '[');
        let ghost pre = out@;
        proof {
            assert(pre =~= seq!['{'] + quoted("entities"@) + seq![':', '[']);
        }
        let entities = self.entities();
        let ghost es = gv.entities;
        let mut i: usize = 0;
        while i < entities.len()
            invariant
                0 <= i <= entities.len(),
                es == crate::graph::entity_names(entities@),
                i == 0 ==> out@ =~= pre,
                i > 0 ==> out@ + entities_json_from(es, i as int) =~= pre + entities_json_from(
                    es,
                    0,
                ),
            decreases entities.len() - i,
        {
            let ghost o0 = out@;
            proof {
                assert(es[i as int] == entities@[i as int]@);
            }
            if i > 0 {
                crate::text::push_char(&mut out, ',');
            }
            push_quoted(&mut out, entities[i].name());
            proof {
                if i == 0 {
                    assert(out@ =~= o0 + quoted(es[0]));
                    assert(entities_json_from(es, 0) == quoted(es[0]) + entities_json_from(es, 1));
                } else {
                    assert(out@ =~= o0 + (seq![','] + quoted(es[i as int])));
                    assert(entities_json_from(es, i as int) == seq![','] + quoted(es[i as int])
                        + entities_json_from(es, i + 1));
                }
                assert(out@ + entities_json_from(es, i + 1 as int) =~= pre + entities_json_from(
                    es,
                    0,
                ));
            }
            i += 1;
        }
        proof {
            if es.len() == 0 {
                assert(entities_json_from(es, 0) =~= Seq::<char>::empty());
            } else {
                assert(entities_json_from(es, es.len() as int) =~= Seq::<char>::empty());
            }
            assert(out@ =~= pre + entities_json_from(es, 0));
        }
        crate::text::push_char(&mut out, ']');
        crate::text::push_char(&mut out, ',');
        push_quoted(&mut out, "relations");
        crate::text::push_char(&mut out, ':');
        crate::text::push_char(&mut out, '[');
        let ghost pre2 = out@;
        proof {
            assert(pre2 =~= pre + entities_json_from(es, 0) + seq![']', ','] + quoted("relations"@)
                + seq![':', '[']);
        }
        let relations = self.relations();
        let ghost rs = gv.relations;
        let mut j: usize = 0;
        while j < relations.len()
            invariant
                0 <= j <= relations.len(),
                rs == crate::graph::relation_views(relations@),
                j == 0 ==> out@ =~= pre2,
                j > 0 ==> out@ + relations_json_from(rs, j as int) =~= pre2 + relations_json_from(
                    rs,
                    0,
                ),
            decreases relations.len() - j,
        {
            let ghost o0 = out@;
            proof {
                assert(rs[j as int] == relations@[j as int]@);
            }
            if j > 0 {
                crate::text::push_char(&mut out, ',');
            }
            let rel = &relations[j];
            crate::text::push_char(&mut out, '{');
            push_quoted(&mut out, "head");
            crate::text::push_char(&mut out, ':');
            push_quoted(&mut out, rel.head().name());
            crate::text::push_char(&mut out, ',');
            push_quoted(&mut out, "tail");
            crate::text::push_char(&mut out, ':');
            push_quoted(&mut out, rel.tail().name());
            crate::text::push_char(&mut out, ',');
            push_quoted(&mut out, "relation");
            crate::text::push_char(&mut out, ':');
            push_quoted(&mut out, rel.label());
            crate::text::push_char(&mut out, '}');
            proof {
                if j == 0 {
                    assert(out@ =~= o0 + relation_json(rs[0]));
                    assert(relations_json_from(rs, 0) == relation_json(rs[0])
                        + relations_json_from(rs, 1));
                } else {
                    assert(out@ =~= o0 + (seq![','] + relation_json(rs[j as int])));
                    assert(relations_json_from(rs, j as int) == seq![','] + relation_json(
                        rs[j as int],
                    ) + relations_json_from(rs, j + 1));
                }
                assert(out@ + relations_json_from(rs, j + 1 as int) =~= pre2 + relations_json_from(
                    rs,
                    0,
                ));
            }
            j += 1;
        }
        proof {
            if rs.len() == 0 {
                assert(relations_json_from(rs, 0) =~= Seq::<char>::empty());
            } else {
                assert(relations_json_from(rs, rs.len() as int) =~= Seq::<char>::empty());
            }
            assert(out@ =~= pre2 + relations_json_from(rs, 0));
        }
        crate::text::push_char(&mut out, ']');
        crate::text::push_char(&mut out, '}');
        proof {
            assert(out@ =~= kg_json(gv));
        }
        out
    }
}

} // verus!
