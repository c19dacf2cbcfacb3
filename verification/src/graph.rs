//! The knowledge-graph value type: entities, directed labeled relations, and
//! the structural invariant that every relation's endpoints are listed as
//! entities.

use vstd::prelude::*;

use crate::builder::builder_wf;
use crate::builder::has_label;
use crate::builder::EdgeView;
use crate::builder::Neo4jQueryBuilder;
use crate::builder::NodeView;

verus! {

broadcast use vstd::seq_lib::lemma_seq_contains_after_push;

/// A short opaque string identifier.  Equality is by string equality.
#[derive(Debug, Clone, PartialEq, Eq, Hash)]
pub struct Entity {
    name: String,
}

impl View for Entity {
    type V = Seq<char>;

    closed spec fn view(&self) -> Seq<char> {
        self.name@
    }
}

impl Entity {
    pub fn new(content: &str) -> (e: Entity)
        ensures
            e@ == content@,
    {
        Entity { name: content.to_owned() }
    }

    /// The identifier as a string slice.
    pub fn name(&self) -> (r: &str)
        ensures
            r@ == self@,
    {
        self.name.as_str()
    }
}

/// The mathematical value of a [`Relation`]: a directed edge between two
/// entity names, carrying a label.
#[verifier::ext_equal]
pub ghost struct RelationView {
    pub head: Seq<char>,
    pub tail: Seq<char>,
    pub relation: Seq<char>,
}

/// A directed edge `(head, tail)` carrying a label.  Valid only inside a
/// [`KnowledgeGraph`] whose entity list contains both endpoints.
#[derive(Debug, Clone, PartialEq, Eq)]
pub struct Relation {
    head: Entity,
    tail: Entity,
    relation: String,
}

impl View for Relation {
    type V = RelationView;

    closed spec fn view(&self) -> RelationView {
        RelationView { head: self.head@, tail: self.tail@, relation: self.relation@ }
    }
}

impl Relation {
    pub fn new(head: Entity, tail: Entity, relation: &str) -> (r: Relation)
        ensures
            r@.head == head@,
            r@.tail == tail@,
            r@.relation == relation@,
    {
        Relation { head, tail, relation: relation.to_owned() }
    }

    pub fn head(&self) -> (r: &Entity)
        ensures
            r@ == self@.head,
    {
        &self.head
    }

    pub fn tail(&self) -> (r: &Entity)
        ensures
            r@ == self@.tail,
    {
        &self.tail
    }

    pub fn label(&self) -> (r: &str)
        ensures
            r@ == self@.relation,
    {
        self.relation.as_str()
    }
}

/// The names of the entities of `es`, in order.
pub open spec fn entity_names(es: Seq<Entity>) -> Seq<Seq<char>> {
    es.map_values(|e: Entity| e@)
}

/// The views of the relations of `rs`, in order.
pub open spec fn relation_views(rs: Seq<Relation>) -> Seq<RelationView> {
    rs.map_values(|r: Relation| r@)
}

/// The mathematical value of a [`KnowledgeGraph`].
#[verifier::ext_equal]
pub ghost struct KnowledgeGraphView {
    pub entities: Seq<Seq<char>>,
    pub relations: Seq<RelationView>,
}

/// The structural invariant: every relation's head and tail appear in the
/// entity list.
pub open spec fn kg_wf(g: KnowledgeGraphView) -> bool {
    forall|i: int|
        0 <= i < g.relations.len() ==> {
            &&& g.entities.contains((#[trigger] g.relations[i]).head)
            &&& g.entities.contains(g.relations[i].tail)
        }
}

/// An ordered list of entities and an ordered list of relations, with the
/// invariant that every relation's endpoints appear in the entity list.
#[derive(Debug, PartialEq, Eq)]
pub struct KnowledgeGraph {
    entities: Vec<Entity>,
    relations: Vec<Relation>,
}

impl View for KnowledgeGraph {
    type V = KnowledgeGraphView;

    closed spec fn view(&self) -> KnowledgeGraphView {
        KnowledgeGraphView {
            entities: entity_names(self.entities@),
            relations: relation_views(self.relations@),
        }
    }
}

/// The structural error: the named relation refers to an entity that is not
/// in the entity list.
#[derive(Debug, Clone, PartialEq, Eq)]
pub enum KgError {
    /// The document is not a well-formed knowledge-graph document.
    Parse,
    /// The carried relation has an endpoint outside the entity list.
    Invariant(Relation),
}

/// Whether the entity list of `g` contains the name `n`.
pub open spec fn kg_has_entity(g: KnowledgeGraphView, n: Seq<char>) -> bool {
    g.entities.contains(n)
}

/// Whether `names` contains `n`.
pub open spec fn names_contain(names: Seq<Seq<char>>, n: Seq<char>) -> bool {
    names.contains(n)
}

/// No name occurs twice in `names`.
pub open spec fn names_distinct(names: Seq<Seq<char>>) -> bool {
    forall|i: int, j: int| 0 <= i < j < names.len() ==> names[i] != names[j]
}

/// Whether `n` is an endpoint of some relation in `rels`.
pub open spec fn is_endpoint(rels: Seq<RelationView>, n: Seq<char>) -> bool {
    exists|i: int| 0 <= i < rels.len() && ((#[trigger] rels[i]).head == n || rels[i].tail == n)
}

/// Linear scan of an entity list for a name.
fn entities_contain(entities: &Vec<Entity>, name: &String) -> (r: bool)
    ensures
        r == names_contain(entity_names(entities@), name@),
{
    let ghost names = entity_names(entities@);
    let mut i: usize = 0;
    while i < entities.len()
        invariant
            0 <= i <= entities.len(),
            names == entity_names(entities@),
            forall|j: int| 0 <= j < i ==> names[j] != name@,
        decreases entities.len() - i,
    {
        if entities[i].name == *name {
            assert(names[i as int] == name@);
            return true;
        }
        i += 1;
    }
    assert(forall|j: int| 0 <= j < names.len() ==> names[j] != name@);
    false
}

impl KnowledgeGraph {
    /// Builds the graph without checking the invariant.  The caller answers
    /// for the endpoints being listed.
    pub fn new_unchecked(entities: Vec<Entity>, relations: Vec<Relation>) -> (g: KnowledgeGraph)
        ensures
            g@.entities == entity_names(entities@),
            g@.relations == relation_views(relations@),
    {
        KnowledgeGraph { entities, relations }
    }

    /// Checked construction: succeeds exactly when every relation's head and
    /// tail appear in the entity list, and reports the first offending
    /// relation otherwise.
    pub fn new(entities: Vec<Entity>, relations: Vec<Relation>) -> (r: Result<
        KnowledgeGraph,
        KgError,
    >)
        ensures
            match r {
                Ok(g) => {
                    &&& kg_wf(g@)
                    &&& g@.entities == entity_names(entities@)
                    &&& g@.relations == relation_views(relations@)
                },
                Err(e) => {
                    &&& !kg_wf(
                        KnowledgeGraphView {
                            entities: entity_names(entities@),
                            relations: relation_views(relations@),
                        },
                    )
                    &&& e matches KgError::Invariant(rel) && exists|i: int|
                        {
                            &&& 0 <= i < relation_views(relations@).len()
                            &&& rel@ == #[trigger] relation_views(relations@)[i]
                            &&& !(entity_names(entities@).contains(rel@.head) && entity_names(
                                entities@,
                            ).contains(rel@.tail))
                        }
                },
            },
    {
        let ghost names = entity_names(entities@);
        let ghost rels = relation_views(relations@);
        let mut i: usize = 0;
        while i < relations.len()
            invariant
                0 <= i <= relations.len(),
                names == entity_names(entities@),
                rels == relation_views(relations@),
                forall|j: int|
                    0 <= j < i ==> {
                        &&& names.contains((#[trigger] rels[j]).head)
                        &&& names.contains(rels[j].tail)
                    },
            decreases relations.len() - i,
        {
            let rel = &relations[i];
            let head_ok = entities_contain(&entities, &rel.head.name);
            let tail_ok = entities_contain(&entities, &rel.tail.name);
            if !head_ok || !tail_ok {
                proof {
                    let gv = KnowledgeGraphView { entities: names, relations: rels };
                    assert(rels[i as int] == rel@);
                    assert(!(gv.entities.contains(gv.relations[i as int].head)
                        && gv.entities.contains(gv.relations[i as int].tail)));
                    assert(!kg_wf(gv));
                }
                let offender = Relation::new(
                    Entity::new(rel.head.name.as_str()),
                    Entity::new(rel.tail.name.as_str()),
                    rel.relation.as_str(),
                );
                proof {
                    assert(offender@ == rels[i as int]);
                }
                return Err(KgError::Invariant(offender));
            }
            i += 1;
        }
        Ok(KnowledgeGraph { entities, relations })
    }

    /// Derived construction: the entity list is computed as the set of all
    /// relation endpoints, heads first, each kept once in first-seen order.
    pub fn from_relations(relations: Vec<Relation>) -> (g: KnowledgeGraph)
        ensures
            g@.relations == relation_views(relations@),
            kg_wf(g@),
            names_distinct(g@.entities),
            forall|n: Seq<char>| #[trigger] g@.entities.contains(n) ==> is_endpoint(g@.relations, n),
    {
        let ghost rels = relation_views(relations@);
        let mut entities: Vec<Entity> = Vec::new();
        let mut i: usize = 0;
        while i < relations.len()
            invariant
                0 <= i <= relations.len(),
                rels == relation_views(relations@),
                forall|j: int|
                    0 <= j < i ==> entity_names(entities@).contains(
                        (#[trigger] rels[j]).head,
                    ),
                forall|n: Seq<char>|
                    #[trigger] entity_names(entities@).contains(n) ==> is_endpoint(
                        rels,
                        n,
                    ),
                names_distinct(entity_names(entities@)),
            decreases relations.len() - i,
        {
            let ghost names = entity_names(entities@);
            let rel = &relations[i];
            if !entities_contain(&entities, &rel.head.name) {
                let ent = Entity::new(rel.head.name.as_str());
                proof {
                    assert(rels[i as int] == rel@);
                }
                entities.push(ent);
                proof {
                    assert(entity_names(entities@) =~= names.push(rel@.head));
                    assert(0 <= i < rels.len() && (rels[i as int].head == rel@.head
                        || rels[i as int].tail == rel@.head));
                }
            }
            i += 1;
        }
        let mut i: usize = 0;
        while i < relations.len()
            invariant
                0 <= i <= relations.len(),
                rels == relation_views(relations@),
                forall|j: int|
                    0 <= j < rels.len() ==> entity_names(entities@).contains(
                        (#[trigger] rels[j]).head,
                    ),
                forall|j: int|
                    0 <= j < i ==> entity_names(entities@).contains(
                        (#[trigger] rels[j]).tail,
                    ),
                forall|n: Seq<char>|
                    #[trigger] entity_names(entities@).contains(n) ==> is_endpoint(
                        rels,
                        n,
                    ),
                names_distinct(entity_names(entities@)),
            decreases relations.len() - i,
        {
            let ghost names = entity_names(entities@);
            let rel = &relations[i];
            if !entities_contain(&entities, &rel.tail.name) {
                let ent = Entity::new(rel.tail.name.as_str());
                proof {
                    assert(rels[i as int] == rel@);
                }
                entities.push(ent);
                proof {
                    assert(entity_names(entities@) =~= names.push(rel@.tail));
                    assert(0 <= i < rels.len() && (rels[i as int].head == rel@.tail
                        || rels[i as int].tail == rel@.tail));
                }
            }
            i += 1;
        }
        KnowledgeGraph { entities, relations }
    }

    /// Collates a stream of `(head, tail, relation)` rows into the
    /// neighborhood graph they describe: entities are collected once each in
    /// first-seen order, the head of a row before its tail.
    pub fn from_triples(rows: &Vec<(String, String, String)>) -> (g: KnowledgeGraph)
        ensures
            g@.relations == rows@.map_values(
                |t: (String, String, String)| RelationView { head: t.0@, tail: t.1@, relation: t.2@ },
            ),
            kg_wf(g@),
            names_distinct(g@.entities),
            forall|n: Seq<char>| #[trigger] g@.entities.contains(n) ==> is_endpoint(g@.relations, n),
    {
        let ghost rels = rows@.map_values(
            |t: (String, String, String)| RelationView { head: t.0@, tail: t.1@, relation: t.2@ },
        );
        let mut entities: Vec<Entity> = Vec::new();
        let mut relations: Vec<Relation> = Vec::new();
        let mut i: usize = 0;
        while i < rows.len()
            invariant
                0 <= i <= rows.len(),
                rels == rows@.map_values(
                    |t: (String, String, String)| RelationView {
                        head: t.0@,
                        tail: t.1@,
                        relation: t.2@,
                    },
                ),
                relation_views(relations@) =~= rels.subrange(0, i as int),
                forall|j: int|
                    0 <= j < i ==> {
                        &&& entity_names(entities@).contains((#[trigger] rels[j]).head)
                        &&& entity_names(entities@).contains(rels[j].tail)
                    },
                forall|n: Seq<char>|
                    #[trigger] entity_names(entities@).contains(n) ==> is_endpoint(
                        rels.subrange(0, i as int),
                        n,
                    ),
                names_distinct(entity_names(entities@)),
            decreases rows.len() - i,
        {
            let ghost names0 = entity_names(entities@);
            let row = &rows[i];
            proof {
                assert(rels[i as int] == RelationView {
                    head: row.0@,
                    tail: row.1@,
                    relation: row.2@,
                });
            }
            if !entities_contain(&entities, &row.0) {
                let ghost names = entity_names(entities@);
                entities.push(Entity::new(row.0.as_str()));
                proof {
                    assert(entity_names(entities@) =~= names.push(row.0@));
                }
            }
            if !entities_contain(&entities, &row.1) {
                let ghost names = entity_names(entities@);
                entities.push(Entity::new(row.1.as_str()));
                proof {
                    assert(entity_names(entities@) =~= names.push(row.1@));
                }
            }
            let ghost rv0 = relation_views(relations@);
            relations.push(
                Relation::new(Entity::new(row.0.as_str()), Entity::new(row.1.as_str()), row.2.as_str()),
            );
            proof {
                assert(relation_views(relations@) =~= rv0.push(rels[i as int]));
                assert(relation_views(relations@) =~= rels.subrange(0, i + 1 as int));
                assert forall|n: Seq<char>|
                    #[trigger] entity_names(entities@).contains(n) implies is_endpoint(
                    rels.subrange(0, i + 1 as int),
                    n,
                ) by {
                    if names0.contains(n) {
                        let w = choose|w: int|
                            0 <= w < i && ((#[trigger] rels.subrange(0, i as int)[w]).head == n
                                || rels.subrange(0, i as int)[w].tail == n);
                        assert(rels.subrange(0, i + 1 as int)[w] == rels[w]);
                    } else {
                        assert(rels.subrange(0, i + 1 as int)[i as int] == rels[i as int]);
                        assert(n == rels[i as int].head || n == rels[i as int].tail);
                    }
                }
            }
            i += 1;
        }
        proof {
            assert(rels.subrange(0, rels.len() as int) =~= rels);
        }
        KnowledgeGraph { entities, relations }
    }

    /// Appends an entity to the entity list.
    pub fn add_new_edge(&mut self, entity: Entity)
        ensures
            final(self)@.entities == old(self)@.entities.push(entity@),
            final(self)@.relations == old(self)@.relations,
    {
        let ghost names = entity_names(self.entities@);
        self.entities.push(entity);
        proof {
            assert(entity_names(self.entities@) =~= names.push(entity@));
        }
    }

    /// Appends a relation, succeeding exactly when both of its endpoints are
    /// already in the entity list; the graph is unchanged on failure.
    pub fn add_new_relation(&mut self, relation: Relation) -> (r: Result<(), KgError>)
        ensures
            match r {
                Ok(()) => {
                    &&& final(self)@.entities == old(self)@.entities
                    &&& final(self)@.relations == old(self)@.relations.push(relation@)
                    &&& old(self)@.entities.contains(relation@.head)
                    &&& old(self)@.entities.contains(relation@.tail)
                },
                Err(e) => {
                    &&& *final(self) == *old(self)
                    &&& !(old(self)@.entities.contains(relation@.head)
                        && old(self)@.entities.contains(relation@.tail))
                    &&& e == KgError::Invariant(relation)
                },
            },
    {
        let ghost rels = relation_views(self.relations@);
        if !entities_contain(&self.entities, &relation.head.name) {
            return Err(KgError::Invariant(relation));
        }
        if !entities_contain(&self.entities, &relation.tail.name) {
            return Err(KgError::Invariant(relation));
        }
        let ghost rv = relation@;
        self.relations.push(relation);
        proof {
            assert(relation_views(self.relations@) =~= rels.push(rv));
        }
        Ok(())
    }

    /// Lowers the graph into a query builder: every entity becomes a node
    /// carrying the supplied extra properties, every relation becomes an
    /// edge.
    pub fn to_cypher_query_builder(self, extra_props: &Vec<(String, String)>) -> (b:
        Neo4jQueryBuilder)
        requires
            kg_wf(self@),
        ensures
            b@.nodes == self@.entities.map_values(
                |n: Seq<char>| NodeView {
                    label: n,
                    properties: extra_props@.map_values(|p: (String, String)| (p.0@, p.1@)),
                },
            ),
            b@.edges == self@.relations.map_values(
                |r: RelationView| EdgeView { source: r.head, target: r.tail, relation: r.relation },
            ),
            b@.return_fields.len() == 0,
            b@.limit is None,
            builder_wf(b@),
    {
        let ghost gv = self@;
        let ghost pv = extra_props@.map_values(|p: (String, String)| (p.0@, p.1@));
        let ghost node_of = |n: Seq<char>| NodeView { label: n, properties: pv };
        let ghost edge_of = |r: RelationView| EdgeView {
            source: r.head,
            target: r.tail,
            relation: r.relation,
        };
        let mut builder = Neo4jQueryBuilder::new();
        let mut i: usize = 0;
        while i < self.entities.len()
            invariant
                0 <= i <= self.entities.len(),
                gv == self@,
                pv == extra_props@.map_values(|p: (String, String)| (p.0@, p.1@)),
                node_of == (|n: Seq<char>| NodeView { label: n, properties: pv }),
                builder@.nodes =~= gv.entities.subrange(0, i as int).map_values(node_of),
                builder@.edges.len() == 0,
                builder@.return_fields.len() == 0,
                builder@.limit is None,
            decreases self.entities.len() - i,
        {
            let ghost prev = builder@.nodes;
            builder = builder.create_node(self.entities[i].name.as_str(), extra_props);
            proof {
                assert(gv.entities[i as int] == self.entities@[i as int]@);
                assert(builder@.nodes =~= prev.push(node_of(gv.entities[i as int])));
                assert(gv.entities.subrange(0, i + 1 as int).map_values(node_of)
                    =~= gv.entities.subrange(0, i as int).map_values(node_of).push(
                    node_of(gv.entities[i as int]),
                ));
            }
            i += 1;
        }
        proof {
            assert(gv.entities.subrange(0, gv.entities.len() as int) =~= gv.entities);
            assert(builder@.nodes =~= gv.entities.map_values(node_of));
        }

        let mut j: usize = 0;
        while j < self.relations.len()
            invariant
                0 <= j <= self.relations.len(),
                gv == self@,
                kg_wf(gv),
                node_of == (|n: Seq<char>| NodeView { label: n, properties: pv }),
                edge_of == (|r: RelationView| EdgeView {
                    source: r.head,
                    target: r.tail,
                    relation: r.relation,
                }),
                builder@.nodes =~= gv.entities.map_values(node_of),
                builder@.edges =~= gv.relations.subrange(0, j as int).map_values(edge_of),
                builder@.return_fields.len() == 0,
                builder@.limit is None,
            decreases self.relations.len() - j,
        {
            let ghost prev = builder@.edges;
            let rel = &self.relations[j];
            proof {
                assert(gv.relations[j as int] == rel@);
                assert(gv.entities.contains(rel@.head) && gv.entities.contains(rel@.tail));
                let h = choose|k: int|
                    0 <= k < gv.entities.len() && gv.entities[k] == rel@.head;
                assert(builder@.nodes[h].label == rel@.head);
                assert(has_label(builder@.nodes, rel@.head));
                let t = choose|k: int|
                    0 <= k < gv.entities.len() && gv.entities[k] == rel@.tail;
                assert(builder@.nodes[t].label == rel@.tail);
                assert(has_label(builder@.nodes, rel@.tail));
            }
            builder = match builder.add_edge(
                &rel.head.name,
                &rel.tail.name,
                rel.relation.as_str(),
            ) {
                Ok(b) => b,
                Err(_) => {
                    proof {
                        assert(false);
                    }
                    Neo4jQueryBuilder::new()
                },
            };
            proof {
                assert(builder@.edges =~= prev.push(edge_of(gv.relations[j as int])));
                assert(gv.relations.subrange(0, j + 1 as int).map_values(edge_of)
                    =~= gv.relations.subrange(0, j as int).map_values(edge_of).push(
                    edge_of(gv.relations[j as int]),
                ));
            }
            j += 1;
        }
        proof {
            assert(gv.relations.subrange(0, gv.relations.len() as int) =~= gv.relations);
            assert(builder@.edges =~= gv.relations.map_values(edge_of));
            assert forall|k: int| 0 <= k < builder@.edges.len() implies {
                &&& has_label(builder@.nodes, (#[trigger] builder@.edges[k]).source)
                &&& has_label(builder@.nodes, builder@.edges[k].target)
            } by {
                assert(builder@.edges[k] == edge_of(gv.relations[k]));
                assert(gv.entities.contains(gv.relations[k].head));
                let h = choose|m: int|
                    0 <= m < gv.entities.len() && gv.entities[m] == gv.relations[k].head;
                assert(builder@.nodes[h].label == gv.relations[k].head);
                let t = choose|m: int|
                    0 <= m < gv.entities.len() && gv.entities[m] == gv.relations[k].tail;
                assert(builder@.nodes[t].label == gv.relations[k].tail);
            }
        }
        builder
    }

    /// The entity list, in order.
    pub fn entities(&self) -> (r: &Vec<Entity>)
        ensures
            entity_names(r@) == self@.entities,
    {
        &self.entities
    }

    /// The relation list, in order.
    pub fn relations(&self) -> (r: &Vec<Relation>)
        ensures
            relation_views(r@) == self@.relations,
    {
        &self.relations
    }
}

} // verus!
