//! What holds of every graph and every change to it.
use crate::clock;
use crate::knowledge_graph::changes;
use crate::knowledge_graph::graph::GraphView;
use crate::knowledge_graph::graph;
use crate::knowledge_graph::names;
use crate::knowledge_graph::queries;
use crate::knowledge_graph::rows::EdgeView;
use crate::knowledge_graph::rows::ErrorView;
use crate::knowledge_graph::rows::EventView;
use crate::knowledge_graph::rows::NodeRowView;
use crate::knowledge_graph::rows::NodeView;
use crate::knowledge_graph::rows;
use crate::knowledge_graph::subgraph;
use crate::lists;
use crate::ordering;
use crate::render;
use crate::scores::Score;
use crate::text;
use vstd::prelude::*;

verus! {

// ---------------------------------------------------------------------------
// Nodes
// ---------------------------------------------------------------------------

/// A node that was added is found under its identifier, with what was written, and every other
/// node is found as before.
pub proof fn law_added_node_is_found(
    g: GraphView,
    row: NodeRowView,
    tags: Seq<Seq<char>>,
    id: Seq<char>,
    now: Seq<char>,
)
    requires
        g.node_added(row, tags) is Ok,
    ensures
        ({
            let after = g.node_added(row, tags)->Ok_0;
            &&& after.node(row.id, now) == Some(rows::node_of(row, now))
            &&& id != row.id ==> after.node(id, now) == g.node(id, now)
        }),
{
    let after = g.nodes.push(row);
    assert(after.drop_last() =~= g.nodes);
    graph::lemma_lookup(g.nodes, row.id);
    graph::lemma_lookup(g.nodes, id);
}

/// The graph never holds more nodes than it may, and an addition to a full graph is refused
/// whatever it holds.
pub proof fn law_node_limit(g: GraphView, row: NodeRowView, tags: Seq<Seq<char>>)
    ensures
        g.node_added(row, tags) matches Ok(after) ==> after.nodes.len() <= after.max_nodes,
        g.nodes.len() >= g.max_nodes ==> g.node_added(row, tags) == Err::<GraphView, ErrorView>(
            ErrorView::NodeLimitReached { count: g.nodes.len(), max: g.max_nodes },
        ),
{
}

proof fn lemma_split_extend(s: Seq<char>, w: Seq<char>, sep: char)
    requires
        !w.contains(sep),
    ensures
        render::split_on(s + w, sep) == render::split_on(s, sep).drop_last().push(
            render::split_on(s, sep).last() + w,
        ),
    decreases w.len(),
{
    render::lemma_split_on_nonempty(s, sep);
    let base = render::split_on(s, sep);
    if w.len() == 0 {
        assert(s + w =~= s);
        assert(base.last() + w =~= base.last());
        assert(base.drop_last().push(base.last()) =~= base);
    } else {
        let front = w.drop_last();
        assert forall|c: char| front.contains(c) implies w.contains(c) by {
            let i = choose|i: int| 0 <= i < front.len() && front[i] == c;
            assert(w[i] == c);
        }
        lemma_split_extend(s, front, sep);
        assert((s + w).drop_last() =~= s + front);
        assert((s + w).last() == w.last());
        assert(w.contains(w[w.len() - 1]));
        let before = base.drop_last().push(base.last() + front);
        assert(before.drop_last() =~= base.drop_last());
        assert(before.last() == base.last() + front);
        assert((base.last() + front).push(w.last()) =~= base.last() + w);
    }
}

proof fn lemma_split_of_joined(ts: Seq<Seq<char>>)
    requires
        ts.len() > 0,
        forall|i: int| 0 <= i < ts.len() ==> !(#[trigger] ts[i]).contains(','),
    ensures
        render::split_on(render::joined(ts, ","@), ',') == ts,
    decreases ts.len(),
{
    reveal_strlit(",");
    let e = Seq::<char>::empty();
    if ts.len() == 1 {
        lemma_split_extend(e, ts[0], ',');
        assert(e + ts[0] =~= ts[0]);
        assert(render::split_on(e, ',') == seq![e]);
        assert(seq![e].drop_last() =~= Seq::empty());
        assert(seq![e].last() + ts[0] =~= ts[0]);
        assert(Seq::empty().push(ts[0]) =~= ts);
    } else {
        let front = ts.drop_last();
        lemma_split_of_joined(front);
        let j = render::joined(front, ","@);
        let js = j.push(',');
        assert(j + ","@ =~= js);
        assert(js.drop_last() =~= j);
        assert(render::split_on(js, ',') == front.push(e));
        assert(!ts[ts.len() - 1].contains(','));
        lemma_split_extend(js, ts.last(), ',');
        assert(front.push(e).drop_last() =~= front);
        assert(e + ts.last() =~= ts.last());
        assert(front.push(ts.last()) =~= ts);
    }
}

/// Tags come back as they were given, trimmed and without empty ones.
pub proof fn law_tags_round_trip(tags: Seq<Seq<char>>)
    requires
        graph::comma_tag(tags) is None,
    ensures
        rows::tags_in(render::joined(tags, ","@)) == render::trimmed_nonempty(tags),
{
    lemma_no_comma(tags);
    if tags.len() > 0 {
        lemma_split_of_joined(tags);
    } else {
        let e = Seq::<char>::empty();
        assert(render::split_on(e, ',') == seq![e]);
        assert(seq![e].drop_last() =~= Seq::empty());
        assert(text::trimmed(e) =~= e);
        reveal_with_fuel(render::trimmed_nonempty, 2);
    }
}

/// A new node reads back as it was written: its type normalized, its tags trimmed and without
/// empty ones, its times those of the writing, and no synthesis yet.
pub proof fn law_new_node_reads_back(
    id: Seq<char>,
    now: Seq<char>,
    node_type: Seq<char>,
    title: Seq<char>,
    content: Seq<char>,
    tags: Seq<Seq<char>>,
    source_project: Option<Seq<char>>,
    later: Seq<char>,
)
    requires
        graph::comma_tag(tags) is None,
        clock::is_stamp(now),
        clock::plain_year(now),
    ensures
        rows::node_of(
            graph::new_row(id, now, node_type, title, content, tags, source_project),
            later,
        ) == (NodeView {
            id,
            node_type: names::slug(node_type),
            title,
            content,
            tags: render::trimmed_nonempty(tags),
            created_at: now,
            updated_at: now,
            source_project,
            synthesis: None,
            synthesis_at: None,
        }),
{
    law_tags_round_trip(tags);
}

proof fn lemma_no_comma(tags: Seq<Seq<char>>)
    requires
        graph::comma_tag(tags) is None,
    ensures
        forall|i: int| 0 <= i < tags.len() ==> !(#[trigger] tags[i]).contains(','),
    decreases tags.len(),
{
    if tags.len() > 0 {
        let front = tags.drop_last();
        lemma_no_comma(front);
        assert forall|i: int| 0 <= i < tags.len() implies !(#[trigger] tags[i]).contains(',') by {
            if i < front.len() {
                assert(front[i] == tags[i]);
            }
        }
    }
}

/// A node that was added under a title that no other had is the one found under that title.
pub proof fn law_new_title_is_found(g: GraphView, row: NodeRowView, tags: Seq<Seq<char>>)
    requires
        g.node_added(row, tags) is Ok,
        changes::titled(g.nodes, row.title) is None,
    ensures
        changes::titled(g.node_added(row, tags)->Ok_0.nodes, row.title) == Some(row),
{
    assert(g.nodes.push(row).drop_last() =~= g.nodes);
}

// ---------------------------------------------------------------------------
// Edges
// ---------------------------------------------------------------------------

/// Adding an edge a second time changes nothing.
pub proof fn law_duplicate_edge_is_ignored(g: GraphView, edge: EdgeView)
    requires
        g.edge_added(edge) is Ok,
    ensures
        g.edge_added(edge)->Ok_0.edge_added(edge) == g.edge_added(edge),
        g.edge_added(edge)->Ok_0.edges.contains(edge),
{
    let after = g.edge_added(edge)->Ok_0;
    if !g.edges.contains(edge) {
        assert(after.edges[g.edges.len() as int] == edge);
    }
}

/// The ends of an edge are related to each other, each under the edge's relation.
pub proof fn law_edge_relates_both_ends(g: GraphView, edge: EdgeView, now: Seq<char>)
    requires
        g.edges.contains(edge),
    ensures
        g.related(edge.from_id, now).contains((g.node(edge.to_id, now)->0, edge.relation)),
        g.related(edge.to_id, now).contains((g.node(edge.from_id, now)->0, edge.relation)),
{
    let out = |e: EdgeView| e.from_id == edge.from_id;
    let inc = |e: EdgeView| e.to_id == edge.to_id;
    let i = choose|i: int| 0 <= i < g.edges.len() && g.edges[i] == edge;
    g.edges.lemma_filter_contains(out, i);
    g.edges.lemma_filter_contains(inc, i);
    let outs = g.edges.filter(out);
    let incs = g.edges.filter(inc);
    let a = choose|a: int| 0 <= a < outs.len() && outs[a] == edge;
    let b = choose|b: int| 0 <= b < incs.len() && incs[b] == edge;
    assert(g.related(edge.from_id, now)[a] == (g.node(edge.to_id, now)->0, edge.relation));
    let before = g.edges.filter(|e: EdgeView| e.from_id == edge.to_id).len();
    assert(g.related(edge.to_id, now)[before + b] == (g.node(edge.from_id, now)->0, edge.relation));
}

// ---------------------------------------------------------------------------
// Events and syntheses
// ---------------------------------------------------------------------------

proof fn lemma_lookup_staled(nodes: Seq<NodeRowView>, id: Seq<char>, stamp: Seq<char>)
    ensures
        graph::lookup(graph::staled(nodes, id, stamp), id) == match graph::lookup(nodes, id) {
            Some(row) => Some(NodeRowView { synthesis_at: None, updated_at: stamp, ..row }),
            None => None,
        },
    decreases nodes.len(),
{
    if nodes.len() > 0 {
        lemma_lookup_staled(nodes.drop_last(), id, stamp);
        assert(graph::staled(nodes, id, stamp).drop_last() =~= graph::staled(
            nodes.drop_last(),
            id,
            stamp,
        ));
    }
}

/// An event marks its node stale and updated, and is on its node's timeline.
pub proof fn law_event_marks_node_stale(g: GraphView, event: EventView)
    requires
        g.event_added(event) is Ok,
    ensures
        ({
            let after = g.event_added(event)->Ok_0;
            &&& graph::lookup(after.nodes, event.node_id) matches Some(row)
            &&& row.synthesis_at is None
            &&& row.updated_at == event.created_at
            &&& queries::is_stale(row)
            &&& after.events == g.events.push(event)
            &&& after.edges == g.edges
        }),
{
    lemma_lookup_staled(g.nodes, event.node_id, event.created_at);
    graph::lemma_lookup(g.nodes, event.node_id);
}

proof fn lemma_lookup_synthesized(
    nodes: Seq<NodeRowView>,
    id: Seq<char>,
    synthesis: Seq<char>,
    now: Seq<char>,
    embedding: Option<Seq<u8>>,
)
    ensures
        graph::lookup(graph::synthesized(nodes, id, synthesis, now, embedding), id)
            == match graph::lookup(nodes, id) {
            Some(row) => Some(
                NodeRowView {
                    synthesis: Some(synthesis),
                    synthesis_at: Some(now),
                    embedding,
                    ..row
                },
            ),
            None => None,
        },
    decreases nodes.len(),
{
    if nodes.len() > 0 {
        lemma_lookup_synthesized(nodes.drop_last(), id, synthesis, now, embedding);
        assert(graph::synthesized(nodes, id, synthesis, now, embedding).drop_last()
            =~= graph::synthesized(nodes.drop_last(), id, synthesis, now, embedding));
    }
}

/// A synthesis is kept with its node, which is fresh afterwards unless it was updated at a later
/// time than that of the synthesis.
pub proof fn law_synthesis_makes_node_fresh(
    g: GraphView,
    id: Seq<char>,
    synthesis: Seq<char>,
    now: Seq<char>,
    embedding: Option<Seq<u8>>,
)
    requires
        graph::has_node(g.nodes, id),
    ensures
        ({
            let before = graph::lookup(g.nodes, id)->0;
            let after = g.synthesis_updated(id, synthesis, now, embedding);
            &&& graph::lookup(after.nodes, id) matches Some(row)
            &&& row.synthesis == Some(synthesis)
            &&& row.updated_at == before.updated_at
            &&& queries::is_stale(row) <==> text::text_less(now, before.updated_at)
        }),
{
    graph::lemma_lookup(g.nodes, id);
    lemma_lookup_synthesized(g.nodes, id, synthesis, now, embedding);
}

// ---------------------------------------------------------------------------
// Subgraphs
// ---------------------------------------------------------------------------

/// More hops reach no less.
pub proof fn law_deeper_reaches_no_less(
    edges: Seq<EdgeView>,
    a: Seq<char>,
    b: Seq<char>,
    less: nat,
    more: nat,
)
    requires
        less <= more,
        subgraph::within(edges, a, b, less),
    ensures
        subgraph::within(edges, a, b, more),
    decreases more - less,
{
    if less < more {
        law_deeper_reaches_no_less(edges, a, b, less, (more - 1) as nat);
    }
}

proof fn lemma_adjacent_both_ways(edges: Seq<EdgeView>, a: Seq<char>, b: Seq<char>)
    requires
        subgraph::adjacent(edges, a, b),
    ensures
        subgraph::adjacent(edges, b, a),
{
    let i = choose|i: int| 0 <= i < edges.len() && subgraph::joins(#[trigger] edges[i], a, b);
    assert(subgraph::joins(edges[i], b, a));
}

/// A hop in front of a way makes a way that is one hop longer.
proof fn lemma_hop_in_front(
    edges: Seq<EdgeView>,
    a: Seq<char>,
    m: Seq<char>,
    b: Seq<char>,
    depth: nat,
)
    requires
        subgraph::adjacent(edges, a, m),
        subgraph::within(edges, m, b, depth),
    ensures
        subgraph::within(edges, a, b, depth + 1),
    decreases depth,
{
    if depth == 0 {
        assert(subgraph::within(edges, a, a, 0));
        assert(subgraph::adjacent(edges, a, b));
    } else {
        let less = (depth - 1) as nat;
        if subgraph::within(edges, m, b, less) {
            lemma_hop_in_front(edges, a, m, b, less);
        } else {
            let x = choose|x: Seq<char>|
                subgraph::within(edges, m, x, less) && #[trigger] subgraph::adjacent(edges, x, b);
            lemma_hop_in_front(edges, a, m, x, less);
            assert(subgraph::within(edges, a, x, depth));
        }
    }
}

/// Traversal is bidirectional: what can be reached from a node can be reached back from, in as
/// many hops.
pub proof fn law_reach_is_symmetric(
    edges: Seq<EdgeView>,
    a: Seq<char>,
    b: Seq<char>,
    depth: nat,
)
    requires
        subgraph::within(edges, a, b, depth),
    ensures
        subgraph::within(edges, b, a, depth),
    decreases depth,
{
    if depth > 0 {
        let less = (depth - 1) as nat;
        if subgraph::within(edges, a, b, less) {
            law_reach_is_symmetric(edges, a, b, less);
        } else {
            let m = choose|m: Seq<char>|
                subgraph::within(edges, a, m, less) && #[trigger] subgraph::adjacent(edges, m, b);
            law_reach_is_symmetric(edges, a, m, less);
            lemma_adjacent_both_ways(edges, m, b);
            lemma_hop_in_front(edges, b, m, a, less);
        }
    }
}

/// The subgraph around a node that exists holds the node itself, and every edge of a subgraph ends
/// in it on both sides.
pub proof fn law_subgraph_is_closed(g: GraphView, root: Seq<char>, depth: nat, now: Seq<char>)
    ensures
        graph::has_node(g.nodes, root) ==> g.in_subgraph(root, depth, root),
        forall|i: int|
            0 <= i < g.subgraph(root, depth, now).1.len() ==> g.in_subgraph(
                root,
                depth,
                (#[trigger] g.subgraph(root, depth, now).1[i]).from_id,
            ) && g.in_subgraph(root, depth, g.subgraph(root, depth, now).1[i].to_id),
{
    law_deeper_reaches_no_less(g.edges, root, root, 0, subgraph::searched_depth(depth));
    let keep = |e: EdgeView|
        g.in_subgraph(root, depth, e.from_id) && g.in_subgraph(root, depth, e.to_id);
    assert forall|i: int| 0 <= i < g.subgraph(root, depth, now).1.len() implies g.in_subgraph(
        root,
        depth,
        (#[trigger] g.subgraph(root, depth, now).1[i]).from_id,
    ) && g.in_subgraph(root, depth, g.subgraph(root, depth, now).1[i].to_id) by {
        g.edges.lemma_filter_pred(keep, i);
    }
}

// ---------------------------------------------------------------------------
// Orders
// ---------------------------------------------------------------------------

/// The order of recency holds every node once, and none comes before one that was updated later.
pub proof fn law_recency(nodes: Seq<NodeRowView>)
    ensures
        queries::recency(nodes).len() == nodes.len(),
        forall|i: int| #[trigger] queries::recency(nodes).contains(i) <==> 0 <= i < nodes.len(),
        forall|i: int, j: int|
            0 <= i < j < nodes.len() ==> !text::text_less(
                nodes[#[trigger] queries::recency(nodes)[i]].updated_at,
                nodes[#[trigger] queries::recency(nodes)[j]].updated_at,
            ),
{
    let keys = nodes.map_values(|r: NodeRowView| r.updated_at);
    let before = ordering::later_text(keys);
    ordering::law_later_text_is_an_order(keys);
    ordering::law_ordered(nodes.len(), nodes.len(), before);
    let order = queries::recency(nodes);
    assert forall|i: int, j: int| 0 <= i < j < nodes.len() implies !text::text_less(
        nodes[#[trigger] order[i]].updated_at,
        nodes[#[trigger] order[j]].updated_at,
    ) by {
        let a = order[i];
        let b = order[j];
        assert(order.contains(a) && order.contains(b));
        assert(before(a, b));
        text::lemma_text_less_irreflexive(keys[a]);
        if text::text_less(keys[a], keys[b]) && text::text_less(keys[b], keys[a]) {
            text::lemma_text_less_transitive(keys[a], keys[b], keys[a]);
        }
    }
}

/// A timeline holds the events of its node and no others, each of them once, and none comes before
/// a later one.
pub proof fn law_timeline_is_latest_first(events: Seq<EventView>, node_id: Seq<char>)
    requires
        forall|i: int, j: int|
            0 <= i < j < events.len() ==> (#[trigger] events[i]).id != (#[trigger] events[j]).id,
    ensures
        queries::timeline(events, node_id).len() == events.filter(
            |e: EventView| e.node_id == node_id,
        ).len(),
        forall|i: int, j: int|
            0 <= i < j < queries::timeline(events, node_id).len() ==> (
            #[trigger] queries::timeline(events, node_id)[i]).id != (
            #[trigger] queries::timeline(events, node_id)[j]).id,
        forall|e: EventView| #[trigger]
            queries::timeline(events, node_id).contains(e) <==> events.contains(e) && e.node_id
                == node_id,
        forall|i: int, j: int|
            0 <= i < j < queries::timeline(events, node_id).len() ==> !text::text_less(
                (#[trigger] queries::timeline(events, node_id)[i]).created_at,
                (#[trigger] queries::timeline(events, node_id)[j]).created_at,
            ),
{
    let keep = |e: EventView| e.node_id == node_id;
    let own = events.filter(keep);
    let keys = own.map_values(|e: EventView| e.created_at);
    let before = ordering::later_text(keys);
    let order = ordering::ordered(own.len(), before);
    let out = queries::timeline(events, node_id);
    ordering::law_later_text_is_an_order(keys);
    ordering::law_ordered(own.len(), own.len(), before);
    lists::lemma_filter_keeps_order(events, keep, |a: EventView, b: EventView| a.id != b.id);
    assert forall|i: int, j: int| 0 <= i < j < out.len() implies (#[trigger] out[i]).id != (
    #[trigger] out[j]).id by {
        let a = order[i];
        let b = order[j];
        assert(order.contains(a) && order.contains(b));
        assert(before(a, b));
        text::lemma_text_less_irreflexive(keys[a]);
        assert(a != b);
        if a < b {
            assert(own[a].id != own[b].id);
        } else {
            assert(own[b].id != own[a].id);
        }
    }
    assert forall|e: EventView| #[trigger] out.contains(e) <==> events.contains(e) && e.node_id
        == node_id by {
        if out.contains(e) {
            let k = choose|k: int| 0 <= k < out.len() && out[k] == e;
            assert(order.contains(order[k]));
            events.lemma_filter_pred(keep, order[k]);
            assert(own.contains(own[order[k]]));
            events.lemma_filter_contains_rev(keep, e);
        }
        if events.contains(e) && e.node_id == node_id {
            let i = choose|i: int| 0 <= i < events.len() && events[i] == e;
            events.lemma_filter_contains(keep, i);
            let a = choose|a: int| 0 <= a < own.len() && own[a] == e;
            assert(order.contains(a));
            let k = choose|k: int| 0 <= k < order.len() && order[k] == a;
            assert(out[k] == e);
        }
    }
    assert forall|i: int, j: int| 0 <= i < j < out.len() implies !text::text_less(
        (#[trigger] out[i]).created_at,
        (#[trigger] out[j]).created_at,
    ) by {
        let a = order[i];
        let b = order[j];
        assert(order.contains(a) && order.contains(b));
        assert(before(a, b));
        text::lemma_text_less_irreflexive(keys[a]);
        if text::text_less(keys[a], keys[b]) && text::text_less(keys[b], keys[a]) {
            text::lemma_text_less_transitive(keys[a], keys[b], keys[a]);
        }
    }
}

/// Whether a list names a node.
pub open spec fn lists_node(list: Seq<NodeView>, id: Seq<char>) -> bool {
    exists|k: int| 0 <= k < list.len() && (#[trigger] list[k]).id == id
}

/// The list of stale nodes holds no more than the limit, no node twice and stale nodes only; if the
/// limit allows for all nodes it names exactly those that are stale.
pub proof fn law_stale_list(g: GraphView, limit: nat, now: Seq<char>, id: Seq<char>)
    requires
        g.wf(),
    ensures
        g.stale(limit, now).len() <= limit,
        forall|i: int, j: int|
            0 <= i < j < g.stale(limit, now).len() ==> (#[trigger] g.stale(limit, now)[i]).id != (
            #[trigger] g.stale(limit, now)[j]).id,
        lists_node(g.stale(limit, now), id) ==> (graph::lookup(g.nodes, id) matches Some(row)
            && queries::is_stale(row)),
        g.nodes.len() <= limit && (graph::lookup(g.nodes, id) matches Some(row)
            && queries::is_stale(row)) ==> lists_node(g.stale(limit, now), id),
{
    let keep = |i: int| queries::is_stale(g.nodes[i]);
    let keys = g.nodes.map_values(|r: NodeRowView| r.updated_at);
    let before = ordering::later_text(keys);
    let order = queries::recency(g.nodes);
    let kept = order.filter(keep);
    let out = g.stale(limit, now);
    law_recency(g.nodes);
    ordering::law_later_text_is_an_order(keys);
    ordering::law_ordered(g.nodes.len(), g.nodes.len(), before);
    lists::lemma_filter_keeps_order(order, keep, before);
    order.lemma_filter_len(keep);
    assert forall|k: int| 0 <= k < kept.len() implies 0 <= #[trigger] kept[k] < g.nodes.len()
        && queries::is_stale(g.nodes[kept[k]]) by {
        order.lemma_filter_pred(keep, k);
        assert(kept.contains(kept[k]));
        order.lemma_filter_contains_rev(keep, kept[k]);
        assert(order.contains(kept[k]));
    }
    assert forall|i: int, j: int| 0 <= i < j < out.len() implies (#[trigger] out[i]).id != (
    #[trigger] out[j]).id by {
        let a = kept[i];
        let b = kept[j];
        assert(before(a, b));
        text::lemma_text_less_irreflexive(keys[a]);
        assert(a != b);
        assert(out[i].id == g.nodes[a].id && out[j].id == g.nodes[b].id);
        if a < b {
            assert(g.nodes[a].id != g.nodes[b].id);
        } else {
            assert(g.nodes[b].id != g.nodes[a].id);
        }
    }
    if lists_node(out, id) {
        let k = choose|k: int| 0 <= k < out.len() && (#[trigger] out[k]).id == id;
        let a = kept[k];
        assert(out[k].id == g.nodes[a].id);
        graph::lemma_lookup_at(g.nodes, a);
    }
    if g.nodes.len() <= limit && (graph::lookup(g.nodes, id) matches Some(row)
        && queries::is_stale(row)) {
        graph::lemma_lookup(g.nodes, id);
        let row = graph::lookup(g.nodes, id)->0;
        let i = choose|i: int| 0 <= i < g.nodes.len() && g.nodes[i] == row;
        assert(order.contains(i));
        let a = choose|a: int| 0 <= a < order.len() && order[a] == i;
        order.lemma_filter_contains(keep, a);
        let k = choose|k: int| 0 <= k < kept.len() && kept[k] == i;
        assert(out[k].id == id);
    }
}

/// The most recently active node comes first: after an event, if no other node was updated later,
/// the node of the event leads the list of stale nodes, unless another that was updated at the very
/// same time does.
pub proof fn law_active_node_comes_first(
    g: GraphView,
    event: EventView,
    limit: nat,
    now: Seq<char>,
)
    requires
        g.wf(),
        g.event_added(event) is Ok,
        limit > 0,
        forall|i: int|
            0 <= i < g.nodes.len() && (#[trigger] g.nodes[i]).id != event.node_id
                ==> !text::text_less(event.created_at, g.nodes[i].updated_at),
    ensures
        ({
            let after = g.event_added(event)->Ok_0;
            let list = after.stale(limit, now);
            &&& list.len() > 0
            &&& after.node(event.node_id, now) == Some(list[0]) || exists|i: int|
                0 <= i < g.nodes.len() && (#[trigger] g.nodes[i]).id != event.node_id
                    && g.nodes[i].updated_at == event.created_at && list[0] == rows::node_of(
                    g.nodes[i],
                    now,
                )
        }),
{
    let after = g.event_added(event)->Ok_0;
    let nodes = after.nodes;
    let stamp = event.created_at;
    let keep = |i: int| queries::is_stale(nodes[i]);
    let keys = nodes.map_values(|r: NodeRowView| r.updated_at);
    let before = ordering::later_text(keys);
    let order = queries::recency(nodes);
    let kept = order.filter(keep);
    let list = after.stale(limit, now);
    let p = choose|p: int| 0 <= p < g.nodes.len() && (#[trigger] g.nodes[p]).id == event.node_id;
    assert(nodes[p].id == event.node_id && nodes[p].updated_at == stamp && queries::is_stale(
        nodes[p],
    ));
    assert forall|i: int| 0 <= i < nodes.len() && i != p implies #[trigger] nodes[i] == g.nodes[i]
        && nodes[i].id != event.node_id by {
        if i < p {
            assert(g.nodes[i].id != g.nodes[p].id);
        } else {
            assert(g.nodes[p].id != g.nodes[i].id);
        }
    }
    law_recency(nodes);
    ordering::law_later_text_is_an_order(keys);
    ordering::law_ordered(nodes.len(), nodes.len(), before);
    lists::lemma_filter_keeps_order(order, keep, before);
    assert(order.contains(p));
    let a = choose|a: int| 0 <= a < order.len() && order[a] == p;
    order.lemma_filter_contains(keep, a);
    let m = choose|m: int| 0 <= m < kept.len() && kept[m] == p;
    let first = kept[0];
    assert(kept.contains(first));
    order.lemma_filter_contains_rev(keep, first);
    assert(order.contains(first));
    assert(list[0] == rows::node_of(nodes[first], now));
    if first == p {
        graph::lemma_lookup_at(nodes, p);
    } else {
        assert(before(kept[0], kept[m]));
        assert(nodes[first] == g.nodes[first]);
        assert(g.nodes[first].id != event.node_id);
        assert(g.nodes[first].updated_at == stamp);
    }
}

// ---------------------------------------------------------------------------
// Staleness over time
// ---------------------------------------------------------------------------

/// A change that bears on whether a node is stale.
pub ghost enum Change {
    Event(EventView),
    Synthesis {
        node_id: Seq<char>,
        synthesis: Seq<char>,
        now: Seq<char>,
        embedding: Option<Seq<u8>>,
    },
}

impl Change {
    /// The node that a change is made to.
    pub open spec fn node_id(self) -> Seq<char> {
        match self {
            Change::Event(e) => e.node_id,
            Change::Synthesis { node_id, synthesis, now, embedding } => node_id,
        }
    }

    /// The time of a change.
    pub open spec fn time(self) -> Seq<char> {
        match self {
            Change::Event(e) => e.created_at,
            Change::Synthesis { node_id, synthesis, now, embedding } => now,
        }
    }
}

/// The graph after a change.
pub open spec fn changed(g: GraphView, change: Change) -> Result<GraphView, ErrorView> {
    match change {
        Change::Event(e) => g.event_added(e),
        Change::Synthesis { node_id, synthesis, now, embedding } => Ok(
            g.synthesis_updated(node_id, synthesis, now, embedding),
        ),
    }
}

/// The graph after changes one after another, none of them refused.
pub open spec fn all_changed(g: GraphView, changes: Seq<Change>) -> Result<GraphView, ErrorView>
    decreases changes.len(),
{
    if changes.len() == 0 {
        Ok(g)
    } else {
        match all_changed(g, changes.drop_last()) {
            Ok(before) => changed(before, changes.last()),
            Err(e) => Err(e),
        }
    }
}

/// Whether a node that was never synthesized before is due for a synthesis after changes: there was
/// none among them, or an event came after the last one.
pub open spec fn is_due(changes: Seq<Change>, id: Seq<char>) -> bool
    decreases changes.len(),
{
    if changes.len() == 0 {
        true
    } else if changes.last().node_id() == id {
        changes.last() is Event
    } else {
        is_due(changes.drop_last(), id)
    }
}

/// When a node was last updated, if it was updated at `stamp` before changes: at the last event.
pub open spec fn last_update(stamp: Seq<char>, changes: Seq<Change>, id: Seq<char>) -> Seq<char>
    decreases changes.len(),
{
    if changes.len() == 0 {
        stamp
    } else if changes.last().node_id() == id && changes.last() is Event {
        changes.last().time()
    } else {
        last_update(stamp, changes.drop_last(), id)
    }
}

/// When a node was last synthesized among changes.
pub open spec fn last_synthesis(changes: Seq<Change>, id: Seq<char>) -> Option<Seq<char>>
    decreases changes.len(),
{
    if changes.len() == 0 {
        None
    } else if changes.last().node_id() == id && changes.last() is Synthesis {
        Some(changes.last().time())
    } else {
        last_synthesis(changes.drop_last(), id)
    }
}

/// Whether the last change to a node is a synthesis with a time before the update that it follows:
/// the clock was set back between them.
pub open spec fn is_backdated(stamp: Seq<char>, changes: Seq<Change>, id: Seq<char>) -> bool {
    !is_due(changes, id) && text::text_less(
        last_synthesis(changes, id)->0,
        last_update(stamp, changes, id),
    )
}

proof fn lemma_lookup_other_staled(
    nodes: Seq<NodeRowView>,
    other: Seq<char>,
    stamp: Seq<char>,
    id: Seq<char>,
)
    requires
        other != id,
    ensures
        graph::lookup(graph::staled(nodes, other, stamp), id) == graph::lookup(nodes, id),
    decreases nodes.len(),
{
    if nodes.len() > 0 {
        lemma_lookup_other_staled(nodes.drop_last(), other, stamp, id);
        assert(graph::staled(nodes, other, stamp).drop_last() =~= graph::staled(
            nodes.drop_last(),
            other,
            stamp,
        ));
    }
}

proof fn lemma_lookup_other_synthesized(
    nodes: Seq<NodeRowView>,
    other: Seq<char>,
    synthesis: Seq<char>,
    now: Seq<char>,
    embedding: Option<Seq<u8>>,
    id: Seq<char>,
)
    requires
        other != id,
    ensures
        graph::lookup(graph::synthesized(nodes, other, synthesis, now, embedding), id)
            == graph::lookup(nodes, id),
    decreases nodes.len(),
{
    if nodes.len() > 0 {
        lemma_lookup_other_synthesized(nodes.drop_last(), other, synthesis, now, embedding, id);
        assert(graph::synthesized(nodes, other, synthesis, now, embedding).drop_last()
            =~= graph::synthesized(nodes.drop_last(), other, synthesis, now, embedding));
    }
}

/// What one change does to the row of a node.
proof fn lemma_row_after_change(g: GraphView, change: Change, id: Seq<char>)
    requires
        changed(g, change) is Ok,
        graph::lookup(g.nodes, id) is Some,
    ensures
        ({
            let row = graph::lookup(g.nodes, id)->0;
            &&& graph::lookup(changed(g, change)->Ok_0.nodes, id) matches Some(after)
            &&& change.node_id() != id ==> after == row
            &&& change.node_id() == id && change is Event ==> after.synthesis_at is None
                && after.updated_at == change.time()
            &&& change.node_id() == id && !(change is Event) ==> after.synthesis_at == Some(
                change.time(),
            ) && after.updated_at == row.updated_at
        }),
{
    match change {
        Change::Event(e) => {
            if e.node_id == id {
                lemma_lookup_staled(g.nodes, id, e.created_at);
            } else {
                lemma_lookup_other_staled(g.nodes, e.node_id, e.created_at, id);
            }
        },
        Change::Synthesis { node_id, synthesis, now, embedding } => {
            if node_id == id {
                lemma_lookup_synthesized(g.nodes, id, synthesis, now, embedding);
            } else {
                lemma_lookup_other_synthesized(
                    g.nodes,
                    node_id,
                    synthesis,
                    now,
                    embedding,
                    id,
                );
            }
        },
    }
}

proof fn lemma_changed_wf(g: GraphView, change: Change)
    requires
        g.wf(),
        changed(g, change) is Ok,
    ensures
        changed(g, change)->Ok_0.wf(),
        changed(g, change)->Ok_0.nodes.len() == g.nodes.len(),
{
    let after = changed(g, change)->Ok_0;
    match change {
        Change::Event(e) => {
            let written = g.event_written(e)->Ok_0;
            assert forall|i: int, j: int| 0 <= i < j < written.events.len() implies (
            #[trigger] written.events[i]).id != (#[trigger] written.events[j]).id by {
                if j < g.events.len() {
                    assert(g.events[i].id != g.events[j].id);
                } else {
                    assert(g.events[i].id != e.id);
                }
            }
            assert forall|i: int| 0 <= i < written.events.len() implies graph::has_node(
                written.nodes,
                (#[trigger] written.events[i]).node_id,
            ) by {
                if i < g.events.len() {
                    assert(graph::has_node(g.nodes, g.events[i].node_id));
                }
            }
            assert(written.wf());
            changes::lemma_wf_same_ids(written, after.nodes);
        },
        Change::Synthesis { node_id, synthesis, now, embedding } => {
            changes::lemma_wf_same_ids(g, after.nodes);
        },
    }
}

proof fn lemma_all_changed_wf(g: GraphView, made: Seq<Change>)
    requires
        g.wf(),
        all_changed(g, made) is Ok,
    ensures
        all_changed(g, made)->Ok_0.wf(),
        all_changed(g, made)->Ok_0.nodes.len() == g.nodes.len(),
    decreases made.len(),
{
    if made.len() > 0 {
        lemma_all_changed_wf(g, made.drop_last());
        lemma_changed_wf(all_changed(g, made.drop_last())->Ok_0, made.last());
    }
}

/// What changes do to the row of a node that was never synthesized before.
proof fn lemma_row_after_changes(g: GraphView, changes: Seq<Change>, id: Seq<char>)
    requires
        graph::lookup(g.nodes, id) matches Some(row) && row.synthesis_at is None,
        all_changed(g, changes) is Ok,
    ensures
        ({
            let row = graph::lookup(g.nodes, id)->0;
            &&& graph::lookup(all_changed(g, changes)->Ok_0.nodes, id) matches Some(after)
            &&& after.updated_at == last_update(row.updated_at, changes, id)
            &&& is_due(changes, id) ==> after.synthesis_at is None
            &&& !is_due(changes, id) ==> last_synthesis(changes, id) is Some && after.synthesis_at
                == last_synthesis(changes, id)
        }),
    decreases changes.len(),
{
    if changes.len() > 0 {
        lemma_row_after_changes(g, changes.drop_last(), id);
        lemma_row_after_change(all_changed(g, changes.drop_last())->Ok_0, changes.last(), id);
    }
}

/// After any changes, a node that was never synthesized before is stale if and only if there was no
/// synthesis of it, or an event came after the last one, or the last one has a time before that of
/// the update that it follows.
pub proof fn law_stale_until_synthesized(g: GraphView, changes: Seq<Change>, id: Seq<char>)
    requires
        graph::lookup(g.nodes, id) matches Some(row) && row.synthesis_at is None,
        all_changed(g, changes) is Ok,
    ensures
        ({
            let row = graph::lookup(g.nodes, id)->0;
            &&& graph::lookup(all_changed(g, changes)->Ok_0.nodes, id) matches Some(after)
            &&& queries::is_stale(after) <==> is_due(changes, id) || is_backdated(
                row.updated_at,
                changes,
                id,
            )
        }),
{
    lemma_row_after_changes(g, changes, id);
}

/// After any changes the list of stale nodes, if the limit allows for all nodes, names a node that
/// was never synthesized before if and only if there was no synthesis of it or an event came after
/// the last one. The exception is a synthesis with a time before that of the update that it
/// follows.
pub proof fn law_due_nodes_are_listed(
    g: GraphView,
    changes: Seq<Change>,
    id: Seq<char>,
    limit: nat,
    now: Seq<char>,
)
    requires
        g.wf(),
        g.nodes.len() <= limit,
        graph::lookup(g.nodes, id) matches Some(row) && row.synthesis_at is None && !is_backdated(
            row.updated_at,
            changes,
            id,
        ),
        all_changed(g, changes) is Ok,
    ensures
        lists_node(all_changed(g, changes)->Ok_0.stale(limit, now), id) <==> is_due(changes, id),
{
    law_stale_until_synthesized(g, changes, id);
    lemma_all_changed_wf(g, changes);
    law_stale_list(all_changed(g, changes)->Ok_0, limit, now, id);
}

/// Where the times of the changes do not run backwards, no synthesis has a time before that of the
/// update that it follows.
pub proof fn law_steady_clock_backdates_nothing(
    stamp: Seq<char>,
    changes: Seq<Change>,
    id: Seq<char>,
)
    requires
        forall|i: int|
            0 <= i < changes.len() ==> !text::text_less((#[trigger] changes[i]).time(), stamp),
        forall|i: int, j: int|
            0 <= i < j < changes.len() ==> !text::text_less(
                (#[trigger] changes[j]).time(),
                (#[trigger] changes[i]).time(),
            ),
    ensures
        !is_backdated(stamp, changes, id),
    decreases changes.len(),
{
    if changes.len() > 0 {
        let front = changes.drop_last();
        let last = changes.last();
        if last.node_id() == id {
            lemma_last_update_is_a_time(stamp, changes, id);
        } else {
            assert forall|i: int| 0 <= i < front.len() implies !text::text_less(
                (#[trigger] front[i]).time(),
                stamp,
            ) by {
                assert(front[i] == changes[i]);
            }
            assert forall|i: int, j: int| 0 <= i < j < front.len() implies !text::text_less(
                (#[trigger] front[j]).time(),
                (#[trigger] front[i]).time(),
            ) by {
                assert(front[i] == changes[i] && front[j] == changes[j]);
            }
            law_steady_clock_backdates_nothing(stamp, front, id);
        }
    }
}

proof fn lemma_last_update_is_a_time(stamp: Seq<char>, changes: Seq<Change>, id: Seq<char>)
    ensures
        last_update(stamp, changes, id) == stamp || exists|i: int|
            0 <= i < changes.len() && changes[i] is Event && (#[trigger] changes[i]).time()
                == last_update(stamp, changes, id),
    decreases changes.len(),
{
    if changes.len() > 0 {
        let front = changes.drop_last();
        lemma_last_update_is_a_time(stamp, front, id);
        if last_update(stamp, changes, id) != stamp {
            if changes.last().node_id() == id && changes.last() is Event {
                assert(changes[changes.len() - 1].time() == last_update(stamp, changes, id));
            } else {
                let i = choose|i: int|
                    0 <= i < front.len() && front[i] is Event && (#[trigger] front[i]).time()
                        == last_update(stamp, front, id);
                assert(changes[i] == front[i]);
            }
        }
    }
}

// ---------------------------------------------------------------------------
// Statistics
// ---------------------------------------------------------------------------

/// The numbers of a tally added up.
pub open spec fn total(tally: Seq<(Seq<char>, nat)>) -> nat
    decreases tally.len(),
{
    if tally.len() == 0 {
        0
    } else {
        total(tally.drop_last()) + tally.last().1
    }
}

proof fn lemma_total_update(tally: Seq<(Seq<char>, nat)>, k: int, entry: (Seq<char>, nat))
    requires
        0 <= k < tally.len(),
        entry.1 == tally[k].1 + 1,
    ensures
        total(tally.update(k, entry)) == total(tally) + 1,
    decreases tally.len(),
{
    let after = tally.update(k, entry);
    if k == tally.len() - 1 {
        assert(after.drop_last() =~= tally.drop_last());
    } else {
        lemma_total_update(tally.drop_last(), k, entry);
        assert(after.drop_last() =~= tally.drop_last().update(k, entry));
    }
}

/// A tally names every item once and counts every occurrence once.
pub proof fn law_tally_is_complete(list: Seq<Seq<char>>)
    ensures
        total(lists::tallied(list)) == list.len(),
        forall|i: int, j: int|
            0 <= i < j < lists::tallied(list).len() ==> (#[trigger] lists::tallied(list)[i]).0 != (
            #[trigger] lists::tallied(list)[j]).0,
    decreases list.len(),
{
    lists::lemma_distinct(list);
    assert forall|i: int, j: int| 0 <= i < j < lists::tallied(list).len() implies (
    #[trigger] lists::tallied(list)[i]).0 != (#[trigger] lists::tallied(list)[j]).0 by {
        assert(lists::distinct(list)[i] != lists::distinct(list)[j]);
    }
    if list.len() > 0 {
        let front = list.drop_last();
        law_tally_is_complete(front);
        let d = lists::distinct(front);
        if d.contains(list.last()) {
            let k = choose|k: int| 0 <= k < d.len() && d[k] == list.last();
            lists::lemma_tally_step(list, k);
            assert(lists::tallied(front)[k] == (d[k], lists::occurrences(front, d[k])));
            lemma_total_update(
                lists::tallied(front),
                k,
                (list.last(), lists::occurrences(front, list.last()) + 1),
            );
        } else {
            lists::lemma_tally_step(list, 0);
            let after = lists::tallied(front).push((list.last(), 1));
            assert(after.drop_last() =~= lists::tallied(front));
        }
    } else {
        assert(lists::tallied(list).len() == 0);
    }
}

/// The most frequent entries of a tally come first. There are as many as the tally has, but at most
/// `n`; none is there twice, and none that is left out is more frequent than one that is there.
pub proof fn law_most_frequent_come_first(tally: Seq<(Seq<char>, nat)>, n: nat)
    requires
        forall|i: int| 0 <= i < tally.len() ==> (#[trigger] tally[i]).1 <= u128::MAX,
        forall|i: int, j: int|
            0 <= i < j < tally.len() ==> (#[trigger] tally[i]).0 != (#[trigger] tally[j]).0,
    ensures
        ({
            let out = queries::most_frequent(tally, n);
            &&& out.len() == if tally.len() < n {
                tally.len()
            } else {
                n
            }
            &&& forall|i: int| 0 <= i < out.len() ==> tally.contains(#[trigger] out[i])
            &&& forall|i: int, j: int|
                0 <= i < j < out.len() ==> (#[trigger] out[i]).0 != (#[trigger] out[j]).0
                    && out[i].1 >= out[j].1
            &&& forall|i: int, a: int|
                0 <= i < out.len() && 0 <= a < tally.len() && !out.contains(tally[a]) ==> (
                #[trigger] tally[a]).1 <= (#[trigger] out[i]).1
        }),
{
    let keys = tally.map_values(|p: (Seq<char>, nat)| p.1 as u128);
    let before = ordering::larger_number(keys);
    ordering::law_larger_number_is_an_order(keys);
    ordering::law_ordered(tally.len(), tally.len(), before);
    ordering::lemma_ordered_range(tally.len(), before);
    let order = ordering::ordered(tally.len(), before);
    let out = queries::most_frequent(tally, n);
    assert forall|i: int| 0 <= i < out.len() implies tally.contains(#[trigger] out[i]) by {
        assert(out[i] == tally[order[i]]);
    }
    assert forall|i: int, j: int| 0 <= i < j < out.len() implies (#[trigger] out[i]).0 != (
    #[trigger] out[j]).0 && out[i].1 >= out[j].1 by {
        let a = order[i];
        let b = order[j];
        assert(before(a, b));
        assert(out[i] == tally[a] && out[j] == tally[b]);
        assert(keys[a] >= keys[b]);
        if a < b {
            assert(tally[a].0 != tally[b].0);
        } else {
            assert(tally[b].0 != tally[a].0);
        }
    }
    assert forall|i: int, a: int|
        0 <= i < out.len() && 0 <= a < tally.len() && !out.contains(tally[a]) implies (
    #[trigger] tally[a]).1 <= (#[trigger] out[i]).1 by {
        assert(order.contains(a));
        let k = choose|k: int| 0 <= k < order.len() && order[k] == a;
        if k < out.len() {
            assert(out[k] == tally[a]);
        }
        assert(before(order[i], order[k]));
        assert(out[i] == tally[order[i]]);
        assert(keys[order[i]] >= keys[a]);
    }
}

proof fn lemma_authored_bound(
    nodes: Seq<NodeRowView>,
    edges: Seq<EdgeView>,
    tags: Seq<Seq<char>>,
    expert: Seq<char>,
)
    ensures
        queries::authored(nodes, edges, tags, expert) <= edges.len(),
    decreases edges.len(),
{
    if edges.len() > 0 {
        lemma_authored_bound(nodes, edges.drop_last(), tags, expert);
    }
}

/// Experts come with the number of their contributions, those with more of them first.
pub proof fn law_experts_rank_by_contributions(
    g: GraphView,
    tags: Seq<Seq<char>>,
    now: Seq<char>,
)
    requires
        g.edges.len() <= u64::MAX,
    ensures
        ({
            let out = g.experts(tags, now);
            let count = |i: int| queries::authored(g.nodes, g.edges, tags, out[i].node.id);
            &&& out.len() == g.authors(tags).len()
            &&& forall|i: int|
                0 <= i < out.len() ==> (#[trigger] out[i]).score == Score::Count(count(i) as u64)
            &&& forall|i: int, j: int|
                0 <= i < j < out.len() ==> queries::authored(
                    g.nodes,
                    g.edges,
                    tags,
                    (#[trigger] out[i]).node.id,
                ) >= queries::authored(g.nodes, g.edges, tags, (#[trigger] out[j]).node.id)
        }),
{
    let found = g.authors(tags);
    let keys = found.map_values(
        |i: int| queries::authored(g.nodes, g.edges, tags, g.nodes[i].id) as u128,
    );
    let before = ordering::larger_number(keys);
    ordering::law_larger_number_is_an_order(keys);
    ordering::law_ordered(found.len(), found.len(), before);
    ordering::lemma_ordered_range(found.len(), before);
    let order = ordering::ordered(found.len(), before);
    let out = g.experts(tags, now);
    assert forall|i: int| 0 <= i < out.len() implies (#[trigger] out[i]).node.id == g.nodes[found[order[i]]].id
        && keys[order[i]] == queries::authored(g.nodes, g.edges, tags, out[i].node.id) && out[i].score
        == Score::Count(keys[order[i]] as u64) by {
        lemma_authored_bound(g.nodes, g.edges, tags, g.nodes[found[order[i]]].id);
    }
    assert forall|i: int, j: int| 0 <= i < j < out.len() implies queries::authored(
        g.nodes,
        g.edges,
        tags,
        (#[trigger] out[i]).node.id,
    ) >= queries::authored(g.nodes, g.edges, tags, (#[trigger] out[j]).node.id) by {
        assert(before(order[i], order[j]));
    }
}

} // verus!
