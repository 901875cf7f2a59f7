//! Searches that join the tables: relations, timelines and full-text hits.
use crate::clock;
use crate::knowledge_graph::graph;
use crate::knowledge_graph::graph::KnowledgeGraph;
use crate::knowledge_graph::queries;
use crate::knowledge_graph::rows;
use crate::knowledge_graph::rows::EdgeView;
use crate::knowledge_graph::rows::EventView;
use crate::knowledge_graph::rows::KnowledgeNode;
use crate::knowledge_graph::rows::NodeEvent;
use crate::knowledge_graph::rows::ResultView;
use crate::knowledge_graph::rows::SearchResult;
use crate::letters;
use crate::lists;
use crate::ordering;
use crate::render;
use crate::scores::Score;
use crate::text;
use vstd::prelude::*;

verus! {

/// A word without its quotation marks and in quotation marks.
fn quote(word: &str) -> (r: String)
    ensures
        r@ == queries::quoted(word@),
{
    let v = text::to_chars(word);
    let ghost keep = |c: char| c != '"';
    let mut out = String::new();
    out.push('"');
    let mut i: usize = 0;
    proof {
        lists::lemma_filter_empty(word@, keep);
        assert(out@ =~= seq!['"'] + word@.take(0).filter(keep));
    }
    while i < v.len()
        invariant
            i <= v@.len(),
            v@ == word@,
            keep == |c: char| c != '"',
            out@ == seq!['"'] + word@.take(i as int).filter(keep),
        decreases v@.len() - i,
    {
        proof {
            lists::lemma_filter_take(word@, keep, i as int);
        }
        let ghost before = word@.take(i as int).filter(keep);
        if v[i] != '"' {
            out.push(v[i]);
            assert(out@ =~= seq!['"'] + before.push(v@[i as int]));
        }
        i += 1;
    }
    assert(word@.take(word@.len() as int) =~= word@);
    let ghost inner = word@.filter(keep);
    out.push('"');
    assert(out@ =~= seq!['"'] + inner + seq!['"']);
    out
}

/// The full-text query for a search: each of its words in quotation marks, which takes any
/// operator of the query language out of them.
pub fn search_query(query: &str) -> (r: String)
    ensures
        r@ == queries::search_text(query@),
{
    let words = letters::split_words(query);
    let ghost all = letters::words(query@);
    let ghost wrap = |w: Seq<char>| queries::quoted(w);
    let mut parts: Vec<String> = Vec::new();
    let mut i: usize = 0;
    while i < words.len()
        invariant
            i <= words@.len(),
            all == words.deep_view(),
            wrap == |w: Seq<char>| queries::quoted(w),
            parts.deep_view() == all.take(i as int).map_values(wrap),
        decreases words@.len() - i,
    {
        let ghost before = parts.deep_view();
        let part = quote(words[i].as_str());
        let ghost made = part@;
        assert(all[i as int] == words@[i as int]@);
        assert(made == wrap(all[i as int]));
        parts.push(part);
        assert(parts.deep_view() =~= before.push(made));
        i += 1;
        assert(parts.deep_view() =~= all.take(i as int).map_values(wrap));
    }
    assert(all.take(all.len() as int) =~= all);
    render::join(&parts, " ")
}

/// The hits of a search by what they hold.
pub open spec fn hits_view(hits: Seq<(String, u64)>) -> Seq<(Seq<char>, u64)> {
    hits.map_values(|h: (String, u64)| (h.0@, h.1))
}

impl KnowledgeGraph {
    /// The node with an identifier, with a given fallback for unreadable time stamps.
    fn node_at(&self, id: &str, now: &str) -> (r: Option<KnowledgeNode>)
        ensures
            r.deep_view() == self.deep_view().node(id@, now@),
            r is Some <==> graph::has_node(self.deep_view().nodes, id@),
    {
        proof {
            graph::lemma_lookup(self.deep_view().nodes, id@);
        }
        match self.position_of(id) {
            Some(i) => {
                assert(self.deep_view().nodes[i as int] == self.nodes@[i as int].deep_view());
                Some(rows::row_to_node(&self.nodes[i], now))
            },
            None => None,
        }
    }

    /// The nodes at the ends of a node's outgoing or incoming edges, with the relations.
    fn related_on(&self, node_id: &str, outgoing: bool, now: &str) -> (r: Vec<
        (KnowledgeNode, String),
    >)
        requires
            self.deep_view().wf(),
        ensures
            outgoing ==> r.deep_view() == self.deep_view().edges.filter(
                |e: EdgeView| e.from_id == node_id@,
            ).map_values(|e: EdgeView| (self.deep_view().node(e.to_id, now@)->0, e.relation)),
            !outgoing ==> r.deep_view() == self.deep_view().edges.filter(
                |e: EdgeView| e.to_id == node_id@,
            ).map_values(|e: EdgeView| (self.deep_view().node(e.from_id, now@)->0, e.relation)),
    {
        let ghost g = self.deep_view();
        let ghost all = g.edges;
        let ghost keep = if outgoing {
            |e: EdgeView| e.from_id == node_id@
        } else {
            |e: EdgeView| e.to_id == node_id@
        };
        let ghost made = if outgoing {
            |e: EdgeView| (g.node(e.to_id, now@)->0, e.relation)
        } else {
            |e: EdgeView| (g.node(e.from_id, now@)->0, e.relation)
        };
        let mut out: Vec<(KnowledgeNode, String)> = Vec::new();
        let mut i: usize = 0;
        proof {
            lists::lemma_filter_empty(all, keep);
            assert(out.deep_view() =~= all.take(0).filter(keep).map_values(made));
        }
        while i < self.edges.len()
            invariant
                i <= self.edges@.len(),
                g == self.deep_view(),
                all == g.edges,
                g.wf(),
                keep == if outgoing {
                    |e: EdgeView| e.from_id == node_id@
                } else {
                    |e: EdgeView| e.to_id == node_id@
                },
                made == if outgoing {
                    |e: EdgeView| (g.node(e.to_id, now@)->0, e.relation)
                } else {
                    |e: EdgeView| (g.node(e.from_id, now@)->0, e.relation)
                },
                out.deep_view() == all.take(i as int).filter(keep).map_values(made),
            decreases self.edges@.len() - i,
        {
            let ghost before = out.deep_view();
            let ghost kept = all.take(i as int).filter(keep);
            proof {
                lists::lemma_filter_take(all, keep, i as int);
                assert(all[i as int] == self.edges@[i as int].deep_view());
            }
            let e = &self.edges[i];
            let own = if outgoing {
                text::same(e.from_id.as_str(), node_id)
            } else {
                text::same(e.to_id.as_str(), node_id)
            };
            assert(own == keep(all[i as int]));
            if own {
                let other = if outgoing {
                    e.to_id.as_str()
                } else {
                    e.from_id.as_str()
                };
                match self.node_at(other, now) {
                    Some(node) => {
                        let ghost item = (node.deep_view(), e.relation@);
                        assert(item == made(all[i as int]));
                        out.push((node, e.relation.clone()));
                        assert(out.deep_view() =~= before.push(item));
                        assert(kept.push(all[i as int]).map_values(made) =~= kept.map_values(
                            made,
                        ).push(made(all[i as int])));
                    },
                    None => {},
                }
            }
            i += 1;
        }
        assert(all.take(all.len() as int) =~= all);
        out
    }

    /// Find nodes directly related to the given node (both outbound and inbound edges).
    pub fn find_related(&self, node_id: &str) -> (r: Vec<(KnowledgeNode, String)>)
        requires
            self.deep_view().wf(),
        ensures
            exists|now: Seq<char>|
                clock::is_stamp(now) && r.deep_view() == #[trigger] self.deep_view().related(
                    node_id@,
                    now,
                ),
    {
        let now = clock::now_rfc3339();
        let mut out = self.related_on(node_id, true, now.as_str());
        let ghost a = out.deep_view();
        let mut incoming = self.related_on(node_id, false, now.as_str());
        let ghost b = incoming.deep_view();
        out.append(&mut incoming);
        assert(out.deep_view() =~= a + b);
        assert(out.deep_view() == self.deep_view().related(node_id@, now@));
        out
    }

    /// Returns the node plus its N most recent events.
    pub fn get_with_timeline(&self, node_id: &str, event_limit: usize) -> (r: Option<
        (KnowledgeNode, Vec<NodeEvent>),
    >)
        ensures
            exists|now: Seq<char>|
                clock::is_stamp(now) && r.deep_view() == #[trigger] self.deep_view().with_timeline(
                    node_id@,
                    event_limit as nat,
                    now,
                ),
    {
        let now = clock::now_rfc3339();
        let node = match self.node_at(node_id, now.as_str()) {
            Some(node) => node,
            None => {
                assert(self.deep_view().with_timeline(node_id@, event_limit as nat, now@) is None);
                return None;
            },
        };
        let ghost all = self.deep_view().events;
        let ghost keep = |e: EventView| e.node_id == node_id@;
        let ghost own_view = all.filter(keep);
        let mut own: Vec<usize> = Vec::new();
        let mut keys: Vec<String> = Vec::new();
        let mut i: usize = 0;
        proof {
            lists::lemma_filter_empty(all, keep);
        }
        while i < self.events.len()
            invariant
                i <= self.events@.len(),
                all == self.deep_view().events,
                keep == |e: EventView| e.node_id == node_id@,
                forall|k: int| 0 <= k < own@.len() ==> #[trigger] own@[k] < self.events@.len(),
                own@.len() == all.take(i as int).filter(keep).len(),
                own@.len() == keys@.len(),
                forall|k: int|
                    0 <= k < own@.len() ==> all[#[trigger] own@[k] as int] == all.take(
                        i as int,
                    ).filter(keep)[k],
                forall|k: int|
                    0 <= k < keys@.len() ==> (#[trigger] keys@[k])@ == all.take(i as int).filter(
                        keep,
                    )[k].created_at,
            decreases self.events@.len() - i,
        {
            proof {
                lists::lemma_filter_take(all, keep, i as int);
                assert(all[i as int] == self.events@[i as int].deep_view());
            }
            if text::same(self.events[i].node_id.as_str(), node_id) {
                own.push(i);
                keys.push(self.events[i].created_at.clone());
            }
            i += 1;
        }
        assert(all.take(all.len() as int) =~= all);
        assert(keys.deep_view() =~= own_view.map_values(|e: EventView| e.created_at));
        let order = ordering::latest_first(&keys);
        let n: usize = if order.len() <= event_limit { order.len() } else { event_limit };
        let ghost line = queries::timeline(all, node_id@);
        let ghost whole = lists::limited(line, event_limit as nat).map_values(
            |e: EventView| rows::event_of(e, now@),
        );
        proof {
            assert(ordering::as_positions(order@).map_values(|k: int| own_view[k]) =~= line);
        }
        let mut out: Vec<NodeEvent> = Vec::new();
        let mut j: usize = 0;
        while j < n
            invariant
                j <= n <= order@.len(),
                n == whole.len(),
                all == self.deep_view().events,
                order@.len() == own@.len() == own_view.len(),
                line == ordering::as_positions(order@).map_values(|k: int| own_view[k]),
                whole == lists::limited(line, event_limit as nat).map_values(
                    |e: EventView| rows::event_of(e, now@),
                ),
                forall|k: int| 0 <= k < own@.len() ==> #[trigger] own@[k] < self.events@.len(),
                forall|k: int|
                    0 <= k < own@.len() ==> all[#[trigger] own@[k] as int] == own_view[k],
                forall|k: int| 0 <= k < order@.len() ==> #[trigger] order@[k] < own@.len(),
                out.deep_view() == whole.take(j as int),
            decreases n - j,
        {
            let ghost before = out.deep_view();
            let p: usize = order[j];
            let q: usize = own[p];
            let event = rows::row_to_event(&self.events[q], now.as_str());
            let ghost made = event.deep_view();
            proof {
                assert(all[q as int] == self.events@[q as int].deep_view());
                assert(ordering::as_positions(order@)[j as int] == p);
                assert(line[j as int] == own_view[p as int]);
                assert(lists::limited(line, event_limit as nat)[j as int] == line[j as int]);
                assert(made == whole[j as int]);
            }
            out.push(event);
            assert(out.deep_view() =~= before.push(made));
            j += 1;
            assert(out.deep_view() =~= whole.take(j as int));
        }
        assert(whole.take(whole.len() as int) =~= whole);
        assert(Some((node.deep_view(), out.deep_view())) == self.deep_view().with_timeline(
            node_id@,
            event_limit as nat,
            now@,
        ));
        Some((node, out))
    }

    /// The nodes that a full-text search found. `hits` are the identifiers that the search for
    /// `search_query(query)` found and the bit patterns of their ranks, best match first; a rank
    /// is negated into a score.
    pub fn query_by_similarity(
        &self,
        query: &str,
        limit: usize,
        hits: &Vec<(String, u64)>,
    ) -> (r: Vec<SearchResult>)
        ensures
            exists|now: Seq<char>|
                clock::is_stamp(now) && r.deep_view() == #[trigger] self.deep_view().similar(
                    query@,
                    limit as nat,
                    hits_view(hits@),
                    now,
                ),
    {
        let now = clock::now_rfc3339();
        let ghost g = self.deep_view();
        let ghost all = hits_view(hits@);
        let words = letters::split_words(query);
        let mut out: Vec<SearchResult> = Vec::new();
        if words.len() == 0 {
            assert(out.deep_view() =~= g.similar(query@, limit as nat, all, now@));
            return out;
        }
        let ghost keep = |h: (Seq<char>, u64)| graph::has_node(g.nodes, h.0);
        let ghost made = |h: (Seq<char>, u64)| g.hit(h, now@);
        let mut i: usize = 0;
        proof {
            lists::lemma_filter_empty(all, keep);
            assert(out.deep_view() =~= all.take(0).filter(keep).map_values(made));
        }
        while i < hits.len()
            invariant
                i <= hits@.len(),
                g == self.deep_view(),
                all == hits_view(hits@),
                keep == |h: (Seq<char>, u64)| graph::has_node(g.nodes, h.0),
                made == |h: (Seq<char>, u64)| g.hit(h, now@),
                out.deep_view() == all.take(i as int).filter(keep).map_values(made),
            decreases hits@.len() - i,
        {
            let ghost before = out.deep_view();
            let ghost kept = all.take(i as int).filter(keep);
            proof {
                lists::lemma_filter_take(all, keep, i as int);
            }
            match self.node_at(hits[i].0.as_str(), now.as_str()) {
                Some(node) => {
                    let score = Score::Double(hits[i].1 ^ 0x8000_0000_0000_0000);
                    let ghost item = ResultView { node: node.deep_view(), score };
                    assert(item == made(all[i as int]));
                    out.push(SearchResult { node, score });
                    assert(out.deep_view() =~= before.push(item));
                    assert(kept.push(all[i as int]).map_values(made) =~= kept.map_values(
                        made,
                    ).push(made(all[i as int])));
                },
                None => {},
            }
            i += 1;
        }
        assert(all.take(all.len() as int) =~= all);
        let ghost kept = all.filter(keep);
        if out.len() > limit {
            let ghost before = out.deep_view();
            out.truncate(limit);
            assert(out.deep_view() =~= before.take(limit as int));
            assert(kept.map_values(made).take(limit as int) =~= kept.take(limit as int).map_values(
                made,
            ));
        }
        assert(out.deep_view() =~= lists::limited(kept, limit as nat).map_values(made));
        assert(out.deep_view() == g.similar(query@, limit as nat, all, now@));
        out
    }
}

} // verus!
