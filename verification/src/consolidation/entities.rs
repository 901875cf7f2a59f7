//! Recording extracted entities and relations in the knowledge graph.
use crate::clock;
use crate::consolidation::turn::EntityExtractionResult;
use crate::consolidation::turn::EntityMention;
use crate::consolidation::turn::RelationMention;
use crate::knowledge_graph::changes;
use crate::knowledge_graph::graph;
use crate::knowledge_graph::graph::GraphView;
use crate::knowledge_graph::graph::KnowledgeGraph;
use crate::knowledge_graph::names;
use crate::knowledge_graph::rows::EdgeView;
use crate::knowledge_graph::rows::EventView;
use vstd::prelude::*;

verus! {

/// What an entity mention holds.
pub ghost struct MentionView {
    pub entity_type: Seq<char>,
    pub slug: Seq<char>,
    pub fact: Seq<char>,
}

impl DeepView for EntityMention {
    type V = MentionView;

    open spec fn deep_view(&self) -> MentionView {
        MentionView { entity_type: self.entity_type@, slug: self.slug@, fact: self.fact@ }
    }
}

/// What a relation mention holds.
pub ghost struct RelationView {
    pub from_slug: Seq<char>,
    pub relation: Seq<char>,
    pub to_slug: Seq<char>,
}

impl DeepView for RelationMention {
    type V = RelationView;

    open spec fn deep_view(&self) -> RelationView {
        RelationView {
            from_slug: self.from_slug@,
            relation: self.relation@,
            to_slug: self.to_slug@,
        }
    }
}

/// A fresh identifier and a time.
pub ghost struct Fresh {
    pub id: Seq<char>,
    pub now: Seq<char>,
}

/// Whether a fresh identifier and time are as the random source and the clock give them.
pub open spec fn is_fresh(f: Fresh) -> bool {
    clock::is_identifier(f.id) && clock::is_stamp(f.now)
}

/// The graph with an entity of a slug in it, and the entity's identifier, unless there is no room
/// for it. The title of a new entity is the normalized slug.
pub open spec fn entity_in(
    g: GraphView,
    slug: Seq<char>,
    entity_type: Seq<char>,
    fresh: Fresh,
) -> (GraphView, Option<Seq<char>>) {
    match changes::found_or_created(
        g,
        slug,
        entity_type,
        names::slug(slug),
        Seq::empty(),
        fresh.id,
        fresh.now,
    ) {
        Ok((after, id, created)) => (after, Some(id)),
        Err(e) => (g, None),
    }
}

/// The graph after a mention of an entity: the entity is there, with the fact on its timeline.
pub open spec fn entity_recorded(
    g: GraphView,
    m: MentionView,
    node: Fresh,
    event: Fresh,
) -> GraphView {
    let found = entity_in(g, m.slug, m.entity_type, node);
    match found.1 {
        Some(node_id) => match found.0.event_added(
            EventView {
                id: event.id,
                node_id,
                content: m.fact,
                source_message_id: None,
                session_id: None,
                created_at: event.now,
            },
        ) {
            Ok(after) => after,
            Err(e) => found.0,
        },
        None => found.0,
    }
}

/// The graph after a mention of a relation: both entities are there, with the edge between them.
pub open spec fn relation_recorded(
    g: GraphView,
    m: RelationView,
    from: Fresh,
    to: Fresh,
) -> GraphView {
    let a = entity_in(g, m.from_slug, "entity"@, from);
    let b = entity_in(a.0, m.to_slug, "entity"@, to);
    match (a.1, b.1) {
        (Some(from_id), Some(to_id)) => match b.0.edge_added(
            EdgeView { from_id, to_id, relation: names::slug(m.relation) },
        ) {
            Ok(after) => after,
            Err(e) => b.0,
        },
        _ => b.0,
    }
}

/// The graph after the mentions of entities, one after another. `fresh` supplies two identifiers
/// and times for each.
pub open spec fn entities_recorded(
    g: GraphView,
    ms: Seq<MentionView>,
    fresh: Seq<(Fresh, Fresh)>,
) -> GraphView
    decreases ms.len(),
{
    if ms.len() == 0 || fresh.len() != ms.len() {
        g
    } else {
        entity_recorded(
            entities_recorded(g, ms.drop_last(), fresh.drop_last()),
            ms.last(),
            fresh.last().0,
            fresh.last().1,
        )
    }
}

/// The graph after the mentions of relations, one after another.
pub open spec fn relations_recorded(
    g: GraphView,
    ms: Seq<RelationView>,
    fresh: Seq<(Fresh, Fresh)>,
) -> GraphView
    decreases ms.len(),
{
    if ms.len() == 0 || fresh.len() != ms.len() {
        g
    } else {
        relation_recorded(
            relations_recorded(g, ms.drop_last(), fresh.drop_last()),
            ms.last(),
            fresh.last().0,
            fresh.last().1,
        )
    }
}

/// Whether all of a supply is as the random source and the clock give it.
pub open spec fn all_fresh(s: Seq<(Fresh, Fresh)>) -> bool {
    forall|i: int| 0 <= i < s.len() ==> is_fresh((#[trigger] s[i]).0) && is_fresh(s[i].1)
}

impl KnowledgeGraph {
    /// Find the entity of a slug, or create it under a given identifier and time.
    pub fn entity_with(&mut self, slug: &str, entity_type: &str, id: String, now: &str) -> (r: Option<
        String,
    >)
        requires
            old(self).deep_view().wf(),
        ensures
            final(self).deep_view().wf(),
            (final(self).deep_view(), r.deep_view()) == entity_in(
                old(self).deep_view(),
                slug@,
                entity_type@,
                (Fresh { id: id@, now: now@ }),
            ),
    {
        proof {
            reveal_strlit("");
            assert(""@ =~= Seq::empty());
        }
        let title = names::normalize_slug(slug);
        match self.find_or_create_by_slug_with(id, now, slug, entity_type, title.as_str(), "") {
            Ok((found, _)) => Some(found),
            Err(_) => None,
        }
    }

    /// Record a mention of an entity, under given identifiers and times.
    pub fn record_entity_with(
        &mut self,
        m: &EntityMention,
        id: String,
        now: &str,
        event_id: String,
        event_now: &str,
    )
        requires
            old(self).deep_view().wf(),
        ensures
            final(self).deep_view().wf(),
            final(self).deep_view() == entity_recorded(
                old(self).deep_view(),
                m.deep_view(),
                (Fresh { id: id@, now: now@ }),
                (Fresh { id: event_id@, now: event_now@ }),
            ),
    {
        match self.entity_with(m.slug.as_str(), m.entity_type.as_str(), id, now) {
            Some(node_id) => {
                let _ = self.add_event_with(
                    event_id,
                    event_now,
                    node_id.as_str(),
                    m.fact.as_str(),
                    None,
                    None,
                );
            },
            None => {},
        }
    }

    /// Record a mention of a relation, under given identifiers and times.
    pub fn record_relation_with(
        &mut self,
        m: &RelationMention,
        from_id: String,
        from_now: &str,
        to_id: String,
        to_now: &str,
    )
        requires
            old(self).deep_view().wf(),
        ensures
            final(self).deep_view().wf(),
            final(self).deep_view() == relation_recorded(
                old(self).deep_view(),
                m.deep_view(),
                (Fresh { id: from_id@, now: from_now@ }),
                (Fresh { id: to_id@, now: to_now@ }),
            ),
    {
        let from = self.entity_with(m.from_slug.as_str(), "entity", from_id, from_now);
        let to = self.entity_with(m.to_slug.as_str(), "entity", to_id, to_now);
        match (from, to) {
            (Some(a), Some(b)) => {
                let _ = self.add_edge(a.as_str(), b.as_str(), m.relation.as_str());
            },
            _ => {},
        }
    }

    /// Record extracted entities, then the relations between them. What cannot be recorded is
    /// skipped.
    pub fn record_extraction(&mut self, extracted: &EntityExtractionResult)
        requires
            old(self).deep_view().wf(),
        ensures
            final(self).deep_view().wf(),
            exists|a: Seq<(Fresh, Fresh)>, b: Seq<(Fresh, Fresh)>|
                {
                    &&& all_fresh(a)
                    &&& all_fresh(b)
                    &&& a.len() == extracted.entities@.len()
                    &&& b.len() == extracted.relations@.len()
                    &&& final(self).deep_view() == #[trigger] relations_recorded(
                        #[trigger] entities_recorded(
                            old(self).deep_view(),
                            extracted.entities.deep_view(),
                            a,
                        ),
                        extracted.relations.deep_view(),
                        b,
                    )
                },
    {
        let ghost before = self.deep_view();
        let ghost ms = extracted.entities.deep_view();
        let ghost mut a: Seq<(Fresh, Fresh)> = Seq::empty();
        let mut i: usize = 0;
        assert(ms.take(0) =~= Seq::empty());
        while i < extracted.entities.len()
            invariant
                i <= extracted.entities@.len(),
                ms == extracted.entities.deep_view(),
                self.deep_view().wf(),
                a.len() == i,
                all_fresh(a),
                self.deep_view() == entities_recorded(before, ms.take(i as int), a),
            decreases extracted.entities@.len() - i,
        {
            let id = clock::new_id();
            let now = clock::now_rfc3339();
            let event_id = clock::new_id();
            let event_now = clock::now_rfc3339();
            proof {
                let f = (Fresh { id: id@, now: now@ }, Fresh { id: event_id@, now: event_now@ });
                let was = a;
                a = a.push(f);
                assert(a.drop_last() =~= was);
                assert(ms.take(i + 1).drop_last() =~= ms.take(i as int));
                assert(ms.take(i + 1).last() == extracted.entities@[i as int].deep_view());
            }
            self.record_entity_with(
                &extracted.entities[i],
                id,
                now.as_str(),
                event_id,
                event_now.as_str(),
            );
            i += 1;
        }
        assert(ms.take(ms.len() as int) =~= ms);
        let ghost middle = self.deep_view();
        let ghost rs = extracted.relations.deep_view();
        let ghost mut b: Seq<(Fresh, Fresh)> = Seq::empty();
        let mut j: usize = 0;
        assert(rs.take(0) =~= Seq::empty());
        while j < extracted.relations.len()
            invariant
                j <= extracted.relations@.len(),
                rs == extracted.relations.deep_view(),
                self.deep_view().wf(),
                b.len() == j,
                all_fresh(b),
                self.deep_view() == relations_recorded(middle, rs.take(j as int), b),
            decreases extracted.relations@.len() - j,
        {
            let from_id = clock::new_id();
            let from_now = clock::now_rfc3339();
            let to_id = clock::new_id();
            let to_now = clock::now_rfc3339();
            proof {
                let f = (
                    Fresh { id: from_id@, now: from_now@ },
                    Fresh { id: to_id@, now: to_now@ },
                );
                let was = b;
                b = b.push(f);
                assert(b.drop_last() =~= was);
                assert(rs.take(j + 1).drop_last() =~= rs.take(j as int));
                assert(rs.take(j + 1).last() == extracted.relations@[j as int].deep_view());
            }
            self.record_relation_with(
                &extracted.relations[j],
                from_id,
                from_now.as_str(),
                to_id,
                to_now.as_str(),
            );
            j += 1;
        }
        assert(rs.take(rs.len() as int) =~= rs);
    }
}

/// Mentioning an entity again finds the same node and adds none, however the slug is written.
pub proof fn law_second_mention_finds_the_entity(
    g: GraphView,
    slug: Seq<char>,
    again: Seq<char>,
    entity_type: Seq<char>,
    other_type: Seq<char>,
    first: Fresh,
    second: Fresh,
)
    requires
        names::slug(again) == names::slug(slug),
        entity_in(g, slug, entity_type, first).1 is Some,
    ensures
        ({
            let found = entity_in(g, slug, entity_type, first);
            entity_in(found.0, again, other_type, second) == found
        }),
{
    let e = Seq::<char>::empty();
    changes::law_same_slug_is_the_same_node(
        g,
        slug,
        again,
        entity_type,
        other_type,
        names::slug(slug),
        names::slug(again),
        e,
        e,
        first.id,
        second.id,
        first.now,
        second.now,
    );
}

} // verus!
