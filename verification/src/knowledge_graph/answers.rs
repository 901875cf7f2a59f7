//! What the queries of the graph answer, in terms of its rows.
use crate::clock;
use crate::knowledge_graph::graph;
use crate::knowledge_graph::graph::GraphView;
use crate::knowledge_graph::laws;
use crate::knowledge_graph::queries;
use crate::knowledge_graph::rows;
use crate::knowledge_graph::rows::EdgeView;
use crate::knowledge_graph::rows::EventView;
use crate::knowledge_graph::rows::NodeRowView;
use crate::knowledge_graph::rows::NodeView;
use crate::knowledge_graph::rows::ResultView;
use crate::knowledge_graph::subgraph;
use crate::letters;
use crate::lists;
use crate::ordering;
use crate::render;
use crate::scores::Score;
use crate::text;
use crate::text_laws;
use vstd::prelude::*;

verus! {

// ---------------------------------------------------------------------------
// Rows
// ---------------------------------------------------------------------------

/// A time stamp as it is read: in its canonical form, or the given time if it is none.
pub open spec fn read_stamp(stored: Seq<char>, now: Seq<char>) -> Seq<char> {
    if clock::rfc3339_in_utc(stored) is Some {
        clock::rfc3339_in_utc(stored)->0
    } else {
        now
    }
}

/// A node is read from its row column by column: the texts as they are, the tags one by one, and
/// the stamps in their canonical form.
pub proof fn law_node_is_read_column_by_column(row: NodeRowView, now: Seq<char>)
    ensures
        ({
            let node = rows::node_of(row, now);
            &&& node.id == row.id
            &&& node.node_type == row.node_type
            &&& node.title == row.title
            &&& node.content == row.content
            &&& node.tags == render::trimmed_nonempty(render::split_on(row.tags, ','))
            &&& node.created_at == read_stamp(row.created_at, now)
            &&& node.updated_at == read_stamp(row.updated_at, now)
            &&& node.source_project == row.source_project
            &&& node.synthesis == row.synthesis
            &&& row.synthesis_at is None ==> node.synthesis_at is None
            &&& row.synthesis_at matches Some(s) ==> node.synthesis_at == clock::rfc3339_in_utc(s)
        }),
{
}

/// An event is read as it was written, with its stamp in the canonical form.
pub proof fn law_event_is_read_as_written(row: EventView, now: Seq<char>)
    ensures
        rows::event_of(row, now) == (EventView {
            id: row.id,
            node_id: row.node_id,
            content: row.content,
            source_message_id: row.source_message_id,
            session_id: row.session_id,
            created_at: read_stamp(row.created_at, now),
        }),
{
}

/// The node with an identifier is read from the row that has it, and there is none without such a
/// row.
pub proof fn law_node_is_found_by_its_identifier(g: GraphView, i: int, id: Seq<char>, now: Seq<char>)
    requires
        g.wf(),
    ensures
        0 <= i < g.nodes.len() ==> g.node(g.nodes[i].id, now) == Some(rows::node_of(g.nodes[i], now)),
        (forall|k: int| 0 <= k < g.nodes.len() ==> (#[trigger] g.nodes[k]).id != id) ==> g.node(
            id,
            now,
        ) is None,
{
    if 0 <= i < g.nodes.len() {
        assert forall|k: int| 0 <= k < i implies (#[trigger] g.nodes[k]).id != g.nodes[i].id by {}
        graph::lemma_lookup_at(g.nodes, i);
    }
    graph::lemma_lookup(g.nodes, id);
}

// ---------------------------------------------------------------------------
// Lists of nodes
// ---------------------------------------------------------------------------

/// Whether a list of nodes is read from the rows at some positions.
pub open spec fn are_rows(
    nodes: Seq<NodeRowView>,
    at: Seq<int>,
    list: Seq<NodeView>,
    now: Seq<char>,
) -> bool {
    &&& list.len() == at.len()
    &&& forall|k: int|
        0 <= k < at.len() ==> #[trigger] list[k] == rows::node_of(nodes[at[k]], now)
}

/// Whether positions are those of the rows with a property, each once and the one updated last
/// first, up to a limit: one that is left out has no place, and was not updated later than any that
/// is there.
pub open spec fn is_listing(
    nodes: Seq<NodeRowView>,
    keep: spec_fn(NodeRowView) -> bool,
    limit: nat,
    at: Seq<int>,
) -> bool {
    &&& at.len() <= limit
    &&& forall|k: int|
        0 <= k < at.len() ==> 0 <= #[trigger] at[k] < nodes.len() && keep(nodes[at[k]])
    &&& forall|k: int, l: int|
        0 <= k < l < at.len() ==> #[trigger] at[k] != #[trigger] at[l] && !text::text_less(
            nodes[at[k]].updated_at,
            nodes[at[l]].updated_at,
        )
    &&& forall|i: int|
        0 <= i < nodes.len() && keep(#[trigger] nodes[i]) && !at.contains(i) ==> at.len() == limit
    &&& forall|i: int, k: int|
        0 <= i < nodes.len() && keep(#[trigger] nodes[i]) && !at.contains(i) && 0 <= k < at.len()
            ==> !text::text_less(nodes[#[trigger] at[k]].updated_at, nodes[i].updated_at)
}

proof fn lemma_listing(nodes: Seq<NodeRowView>, keep: spec_fn(NodeRowView) -> bool, limit: nat)
    ensures
        is_listing(
            nodes,
            keep,
            limit,
            lists::limited(
                queries::recency(nodes).filter(|i: int| keep(nodes[i])),
                limit,
            ),
        ),
{
    let order = queries::recency(nodes);
    let pick = |i: int| keep(nodes[i]);
    let all = order.filter(pick);
    let at = lists::limited(all, limit);
    let keys = nodes.map_values(|r: NodeRowView| r.updated_at);
    let before = ordering::later_text(keys);
    ordering::law_later_text_is_an_order(keys);
    ordering::law_ordered(nodes.len(), nodes.len(), before);
    laws::law_recency(nodes);
    lists::lemma_filter_keeps_order(order, pick, before);
    assert forall|k: int| 0 <= k < all.len() implies 0 <= #[trigger] all[k] < nodes.len() && keep(
        nodes[all[k]],
    ) by {
        assert(all.contains(all[k]));
        order.lemma_filter_contains_rev(pick, all[k]);
        order.lemma_filter_pred(pick, k);
        assert(order.contains(all[k]));
    }
    assert forall|k: int, l: int| 0 <= k < l < all.len() implies #[trigger] all[k]
        != #[trigger] all[l] && !text::text_less(
        nodes[all[k]].updated_at,
        nodes[all[l]].updated_at,
    ) by {
        let a = all[k];
        let b = all[l];
        assert(before(a, b));
        text::lemma_text_less_irreflexive(keys[a]);
        if text::text_less(keys[a], keys[b]) && text::text_less(keys[b], keys[a]) {
            text::lemma_text_less_transitive(keys[a], keys[b], keys[a]);
        }
    }
    assert forall|i: int| 0 <= i < nodes.len() && keep(#[trigger] nodes[i]) && !at.contains(
        i,
    ) implies at.len() == limit && exists|m: int| at.len() <= m < all.len() && all[m] == i by {
        assert(order.contains(i));
        let o = choose|o: int| 0 <= o < order.len() && order[o] == i;
        order.lemma_filter_contains(pick, o);
        let m = choose|m: int| 0 <= m < all.len() && all[m] == i;
        if m < at.len() {
            assert(at[m] == i);
        }
    }
    assert forall|i: int, k: int|
        0 <= i < nodes.len() && keep(#[trigger] nodes[i]) && !at.contains(i) && 0 <= k
            < at.len() implies !text::text_less(
        nodes[#[trigger] at[k]].updated_at,
        nodes[i].updated_at,
    ) by {
        let m = choose|m: int| at.len() <= m < all.len() && all[m] == i;
        assert(all[k] == at[k]);
        assert(all[k] != all[m]);
    }
}

/// Whether all of the listed tags are among the tags of a row.
pub open spec fn carries(row: NodeRowView, tags: Seq<Seq<char>>) -> bool {
    forall|i: int|
        0 <= i < tags.len() ==> render::trimmed_nonempty(
            render::split_on(row.tags, ','),
        ).contains(#[trigger] tags[i])
}

/// A query by tags lists the nodes that carry all of the tags, and no others, each once, the one
/// updated last first.
pub proof fn law_tagged_nodes_carry_all_tags(g: GraphView, tags: Seq<Seq<char>>, now: Seq<char>)
    ensures
        exists|at: Seq<int>| #[trigger]
            are_rows(g.nodes, at, g.tagged(tags, now), now) && is_listing(
                g.nodes,
                |row: NodeRowView| carries(row, tags),
                g.nodes.len(),
                at,
            ),
{
    let keep = |row: NodeRowView| carries(row, tags);
    let order = queries::recency(g.nodes);
    let pick = |i: int| keep(g.nodes[i]);
    let theirs = |i: int| queries::has_tags(g.nodes[i], tags);
    assert forall|i: int| #[trigger] theirs(i) == pick(i) by {}
    assert(theirs =~= pick);
    laws::law_recency(g.nodes);
    order.lemma_filter_len(pick);
    lemma_listing(g.nodes, keep, g.nodes.len());
    let at = order.filter(pick);
    assert(lists::limited(at, g.nodes.len()) == at);
    assert(are_rows(g.nodes, at, g.tagged(tags, now), now));
}

/// A node is in the answer to a query by tags if and only if each of the tags is among its own, in
/// whatever order they are listed.
pub proof fn law_node_is_found_by_its_tags(
    g: GraphView,
    tags: Seq<Seq<char>>,
    now: Seq<char>,
    i: int,
)
    requires
        g.wf(),
        0 <= i < g.nodes.len(),
    ensures
        laws::lists_node(g.tagged(tags, now), g.nodes[i].id) <==> forall|t: int|
            0 <= t < tags.len() ==> rows::node_of(g.nodes[i], now).tags.contains(#[trigger] tags[t]),
{
    law_tagged_nodes_carry_all_tags(g, tags, now);
    let list = g.tagged(tags, now);
    let at = choose|at: Seq<int>| #[trigger]
        are_rows(g.nodes, at, list, now) && is_listing(
            g.nodes,
            |row: NodeRowView| carries(row, tags),
            g.nodes.len(),
            at,
        );
    let keep = |row: NodeRowView| carries(row, tags);
    if laws::lists_node(list, g.nodes[i].id) {
        let k = choose|k: int| 0 <= k < list.len() && (#[trigger] list[k]).id == g.nodes[i].id;
        let j = at[k];
        assert(g.nodes[j].id == g.nodes[i].id);
        if i < j {
            assert(g.nodes[i].id != g.nodes[j].id);
        } else if j < i {
            assert(g.nodes[j].id != g.nodes[i].id);
        }
        assert(keep(g.nodes[i]));
    }
    if forall|t: int|
        0 <= t < tags.len() ==> rows::node_of(g.nodes[i], now).tags.contains(#[trigger] tags[t]) {
        assert(keep(g.nodes[i]));
        if at.contains(i) {
            let k = choose|k: int| 0 <= k < at.len() && at[k] == i;
            assert(list[k].id == g.nodes[i].id);
        } else {
            assert(at.len() == g.nodes.len());
            lemma_too_many(at, g.nodes.len(), i);
        }
    }
}

/// As many different positions as there are leave none out.
proof fn lemma_too_many(at: Seq<int>, n: nat, i: int)
    requires
        at.len() == n,
        0 <= i < n,
        forall|k: int| 0 <= k < at.len() ==> 0 <= #[trigger] at[k] < n,
        forall|k: int, l: int| 0 <= k < l < at.len() ==> #[trigger] at[k] != #[trigger] at[l],
    ensures
        at.contains(i),
{
    let range = Set::new(|x: int| 0 <= x < n);
    vstd::set_lib::lemma_int_range(0, n as int);
    assert(vstd::set_lib::set_int_range(0, n as int) =~= range);
    at.unique_seq_to_set();
    assert(at.no_duplicates());
    assert(at.to_set().subset_of(range));
    vstd::set_lib::lemma_subset_equality(at.to_set(), range);
    assert(at.to_set().contains(i));
}

/// Whether a row is stale: it was never synthesized, or updated after its synthesis.
pub open spec fn is_behind(row: NodeRowView) -> bool {
    row.synthesis_at matches Some(t) ==> text::text_less(t, row.updated_at)
}

/// The list of stale nodes holds those that were never synthesized or were updated since, and no
/// others, each once, the one updated last first, up to the limit.
pub proof fn law_stale_nodes_are_those_behind(g: GraphView, limit: nat, now: Seq<char>)
    ensures
        exists|at: Seq<int>| #[trigger]
            are_rows(g.nodes, at, g.stale(limit, now), now) && is_listing(
                g.nodes,
                |row: NodeRowView| is_behind(row),
                limit,
                at,
            ),
{
    let keep = |row: NodeRowView| is_behind(row);
    let pick = |i: int| keep(g.nodes[i]);
    let theirs = |i: int| queries::is_stale(g.nodes[i]);
    assert forall|i: int| #[trigger] theirs(i) == pick(i) by {}
    assert(theirs =~= pick);
    lemma_listing(g.nodes, keep, limit);
    let at = lists::limited(queries::recency(g.nodes).filter(pick), limit);
    assert(are_rows(g.nodes, at, g.stale(limit, now), now));
}

/// Whether pairs are the titles and types of the rows at some positions.
pub open spec fn are_titles(
    nodes: Seq<NodeRowView>,
    at: Seq<int>,
    list: Seq<(Seq<char>, Seq<char>)>,
) -> bool {
    &&& list.len() == at.len()
    &&& forall|k: int|
        0 <= k < at.len() ==> #[trigger] list[k] == (nodes[at[k]].title, nodes[at[k]].node_type)
}

/// The list of entities names the title and type of every node, the one updated last first, up to
/// the limit.
pub proof fn law_entities_are_listed_by_recency(g: GraphView, limit: nat)
    ensures
        exists|at: Seq<int>| #[trigger]
            are_titles(g.nodes, at, g.entity_slugs(limit)) && is_listing(
                g.nodes,
                |row: NodeRowView| true,
                limit,
                at,
            ),
{
    let keep = |row: NodeRowView| true;
    let pick = |i: int| keep(g.nodes[i]);
    let order = queries::recency(g.nodes);
    lemma_all_kept(order, pick);
    lemma_listing(g.nodes, keep, limit);
    let at = lists::limited(order, limit);
    assert(are_titles(g.nodes, at, g.entity_slugs(limit)));
}

proof fn lemma_all_kept(s: Seq<int>, keep: spec_fn(int) -> bool)
    requires
        forall|i: int| 0 <= i < s.len() ==> keep(#[trigger] s[i]),
    ensures
        s.filter(keep) == s,
    decreases s.len(),
{
    reveal(Seq::filter);
    if s.len() > 0 {
        let front = s.drop_last();
        assert forall|i: int| 0 <= i < front.len() implies keep(#[trigger] front[i]) by {
            assert(keep(s[i]));
        }
        lemma_all_kept(front, keep);
        assert(keep(s[s.len() - 1]));
        assert(front.push(s.last()) =~= s);
    }
}

// ---------------------------------------------------------------------------
// Relations, timelines, experts
// ---------------------------------------------------------------------------

/// The nodes related to one are those at the other ends of its edges, with the name of the edge:
/// first those that edges from it lead to, then those that edges to it come from, one for each edge
/// and in the order of the edges.
pub proof fn law_related_nodes_are_at_the_other_ends(g: GraphView, id: Seq<char>, now: Seq<char>)
    ensures
        ({
            let out = g.edges.filter(|e: EdgeView| e.from_id == id);
            let back = g.edges.filter(|e: EdgeView| e.to_id == id);
            let found = g.related(id, now);
            &&& found.len() == out.len() + back.len()
            &&& forall|k: int|
                0 <= k < out.len() ==> #[trigger] found[k] == (
                    g.node(out[k].to_id, now)->0,
                    out[k].relation,
                )
            &&& forall|k: int|
                out.len() <= k < found.len() ==> #[trigger] found[k] == (
                    g.node(back[k - out.len()].from_id, now)->0,
                    back[k - out.len()].relation,
                )
        }),
{
}

/// A node comes with the latest of its events, up to the limit, and with all of them if the limit
/// allows.
pub proof fn law_timeline_comes_with_its_node(
    g: GraphView,
    id: Seq<char>,
    limit: nat,
    now: Seq<char>,
)
    ensures
        g.node(id, now) is None ==> g.with_timeline(id, limit, now) is None,
        g.node(id, now) matches Some(node) ==> {
            let line = queries::timeline(g.events, id);
            &&& g.with_timeline(id, limit, now) matches Some(found)
            &&& found.0 == node
            &&& found.1.len() == if line.len() < limit {
                line.len()
            } else {
                limit
            }
            &&& forall|k: int|
                0 <= k < found.1.len() ==> #[trigger] found.1[k] == rows::event_of(line[k], now)
        },
{
}

/// Whether an edge says that an expert authored a node that carries the tags.
pub open spec fn credits(
    nodes: Seq<NodeRowView>,
    e: EdgeView,
    tags: Seq<Seq<char>>,
    expert: Seq<char>,
) -> bool {
    &&& e.to_id == expert
    &&& e.relation == "authored_by"@
    &&& graph::lookup(nodes, e.from_id) matches Some(row)
    &&& carries(row, tags)
}

proof fn lemma_authored(
    nodes: Seq<NodeRowView>,
    edges: Seq<EdgeView>,
    tags: Seq<Seq<char>>,
    expert: Seq<char>,
)
    ensures
        queries::authored(nodes, edges, tags, expert) == edges.filter(
            |e: EdgeView| credits(nodes, e, tags, expert),
        ).len(),
    decreases edges.len(),
{
    reveal(Seq::filter);
    if edges.len() > 0 {
        lemma_authored(nodes, edges.drop_last(), tags, expert);
        assert(queries::is_authorship(nodes, edges.last(), tags, expert) == credits(
            nodes,
            edges.last(),
            tags,
            expert,
        ));
    }
}

/// Experts are the nodes of that type to which an edge credits a node that carries all of the tags.
/// Each comes with the number of such edges, and those with more come first.
pub proof fn law_experts_are_credited(g: GraphView, tags: Seq<Seq<char>>, now: Seq<char>, i: int)
    requires
        g.wf(),
        g.edges.len() <= u64::MAX,
        0 <= i < g.nodes.len(),
    ensures
        ({
            let count = |id: Seq<char>| g.edges.filter(|e: EdgeView| credits(g.nodes, e, tags, id)).len();
            let out = g.experts(tags, now);
            &&& g.nodes[i].node_type == "expert"@ && count(g.nodes[i].id) > 0 <==> exists|k: int|
                0 <= k < out.len() && (#[trigger] out[k]).node == rows::node_of(g.nodes[i], now)
            &&& forall|k: int|
                0 <= k < out.len() ==> (#[trigger] out[k]).score == Score::Count(
                    count(out[k].node.id) as u64,
                )
            &&& forall|k: int, l: int|
                0 <= k < l < out.len() ==> count((#[trigger] out[k]).node.id) >= count(
                    (#[trigger] out[l]).node.id,
                )
        }),
{
    let count = |id: Seq<char>| g.edges.filter(|e: EdgeView| credits(g.nodes, e, tags, id)).len();
    let out = g.experts(tags, now);
    let found = g.authors(tags);
    let all = Seq::new(g.nodes.len(), |i: int| i);
    let keep = |i: int|
        g.nodes[i].node_type == "expert"@ && queries::authored(
            g.nodes,
            g.edges,
            tags,
            g.nodes[i].id,
        ) > 0;
    let counts = found.map_values(
        |i: int| queries::authored(g.nodes, g.edges, tags, g.nodes[i].id) as u128,
    );
    let before = ordering::larger_number(counts);
    let order = ordering::ordered(found.len(), before);
    ordering::law_larger_number_is_an_order(counts);
    ordering::law_ordered(found.len(), found.len(), before);
    laws::law_experts_rank_by_contributions(g, tags, now);
    assert forall|id: Seq<char>| #[trigger] count(id) == queries::authored(
        g.nodes,
        g.edges,
        tags,
        id,
    ) by {
        lemma_authored(g.nodes, g.edges, tags, id);
    }
    assert forall|k: int, l: int| 0 <= k < l < out.len() implies count((#[trigger] out[k]).node.id)
        >= count((#[trigger] out[l]).node.id) by {}
    assert forall|k: int| 0 <= k < out.len() implies (#[trigger] out[k]).score == Score::Count(
        count(out[k].node.id) as u64,
    ) by {}
    if keep(i) {
        assert(all[i] == i);
        all.lemma_filter_contains(keep, i);
        let f = choose|f: int| 0 <= f < found.len() && found[f] == i;
        assert(order.contains(f));
        let k = choose|k: int| 0 <= k < order.len() && order[k] == f;
        assert(out[k].node == rows::node_of(g.nodes[i], now));
    }
    if exists|k: int|
        0 <= k < out.len() && (#[trigger] out[k]).node == rows::node_of(g.nodes[i], now) {
        let k = choose|k: int|
            0 <= k < out.len() && (#[trigger] out[k]).node == rows::node_of(g.nodes[i], now);
        assert(order.contains(order[k]));
        let j = found[order[k]];
        assert(found.contains(j));
        all.lemma_filter_contains_rev(keep, j);
        all.lemma_filter_pred(keep, order[k]);
        assert(all.contains(j));
        assert(g.nodes[j].id == g.nodes[i].id);
        if i < j {
            assert(g.nodes[i].id != g.nodes[j].id);
        } else if j < i {
            assert(g.nodes[j].id != g.nodes[i].id);
        }
    }
}

// ---------------------------------------------------------------------------
// Searches
// ---------------------------------------------------------------------------

/// A search with words in it answers the hits that are nodes of the graph, in the order in which
/// they came and up to the limit, each with its node and the negative of its rank. A search without
/// words answers nothing.
pub proof fn law_search_answers_its_hits(
    g: GraphView,
    query: Seq<char>,
    limit: nat,
    hits: Seq<(Seq<char>, u64)>,
    now: Seq<char>,
)
    ensures
        ({
            let known = hits.filter(|h: (Seq<char>, u64)| graph::has_node(g.nodes, h.0));
            let out = g.similar(query, limit, hits, now);
            &&& text_laws::is_blank(query) ==> out.len() == 0
            &&& !text_laws::is_blank(query) ==> out.len() == if known.len() < limit {
                known.len()
            } else {
                limit
            }
            &&& forall|k: int|
                0 <= k < out.len() ==> (#[trigger] out[k]) == (ResultView {
                    node: g.node(known[k].0, now)->0,
                    score: Score::Double(known[k].1 ^ 0x8000_0000_0000_0000),
                })
        }),
{
    text_laws::law_blank_texts_have_no_words(query);
}

/// Every word of a search is searched for literally: it stands between quotes, with the quotes
/// inside it left out.
pub proof fn law_search_quotes_every_word(query: Seq<char>)
    ensures
        queries::search_text(query) == render::joined(
            letters::words(query).map_values(
                |w: Seq<char>| seq!['"'] + w.filter(|c: char| c != '"') + seq!['"'],
            ),
            seq![' '],
        ),
{
    reveal_strlit(" ");
    assert(" "@ =~= seq![' ']);
    assert(letters::words(query).map_values(|w: Seq<char>| queries::quoted(w))
        =~= letters::words(query).map_values(
        |w: Seq<char>| seq!['"'] + w.filter(|c: char| c != '"') + seq!['"'],
    ));
}

// ---------------------------------------------------------------------------
// Subgraphs and statistics
// ---------------------------------------------------------------------------

/// Whether nodes are neighbours: an edge leads from one to the other, in whatever direction.
pub open spec fn are_neighbours(edges: Seq<EdgeView>, a: Seq<char>, b: Seq<char>) -> bool {
    exists|i: int|
        0 <= i < edges.len() && ((#[trigger] edges[i]).from_id == a && edges[i].to_id == b
            || edges[i].from_id == b && edges[i].to_id == a)
}

/// Whether a path leads over neighbours from one node to another.
pub open spec fn is_path(
    edges: Seq<EdgeView>,
    path: Seq<Seq<char>>,
    a: Seq<char>,
    b: Seq<char>,
) -> bool {
    &&& path.len() > 0
    &&& path[0] == a
    &&& path.last() == b
    &&& forall|i: int|
        0 <= i < path.len() - 1 ==> #[trigger] is_hop(edges, path, i)
}

/// Whether a path goes on to a neighbour.
pub open spec fn is_hop(edges: Seq<EdgeView>, path: Seq<Seq<char>>, i: int) -> bool {
    are_neighbours(edges, path[i], path[i + 1])
}

proof fn lemma_neighbours(edges: Seq<EdgeView>, a: Seq<char>, b: Seq<char>)
    ensures
        subgraph::adjacent(edges, a, b) <==> are_neighbours(edges, a, b),
{
    if subgraph::adjacent(edges, a, b) {
        let i = choose|i: int| 0 <= i < edges.len() && subgraph::joins(#[trigger] edges[i], a, b);
        assert(edges[i].from_id == a && edges[i].to_id == b || edges[i].from_id == b
            && edges[i].to_id == a);
    }
    if are_neighbours(edges, a, b) {
        let i = choose|i: int|
            0 <= i < edges.len() && ((#[trigger] edges[i]).from_id == a && edges[i].to_id == b
                || edges[i].from_id == b && edges[i].to_id == a);
        assert(subgraph::joins(edges[i], a, b));
    }
}

/// A node is within some number of steps of another if and only if a path of no more edges leads
/// from one to the other.
pub proof fn law_reach_is_by_paths(
    edges: Seq<EdgeView>,
    a: Seq<char>,
    b: Seq<char>,
    depth: nat,
)
    ensures
        subgraph::within(edges, a, b, depth) <==> exists|path: Seq<Seq<char>>|
            is_path(edges, path, a, b) && path.len() <= depth + 1,
    decreases depth,
{
    if subgraph::within(edges, a, b, depth) {
        if depth == 0 {
            assert(is_path(edges, seq![a], a, b));
        } else {
            let less = (depth - 1) as nat;
            if subgraph::within(edges, a, b, less) {
                law_reach_is_by_paths(edges, a, b, less);
            } else {
                let m = choose|m: Seq<char>|
                    subgraph::within(edges, a, m, less) && #[trigger] subgraph::adjacent(
                        edges,
                        m,
                        b,
                    );
                law_reach_is_by_paths(edges, a, m, less);
                lemma_neighbours(edges, m, b);
                let front = choose|path: Seq<Seq<char>>|
                    is_path(edges, path, a, m) && path.len() <= less + 1;
                let path = front.push(b);
                assert forall|i: int| 0 <= i < path.len() - 1 implies #[trigger] is_hop(
                    edges,
                    path,
                    i,
                ) by {
                    if i < front.len() - 1 {
                        assert(is_hop(edges, front, i));
                    }
                }
                assert(is_path(edges, path, a, b));
            }
        }
    }
    if exists|path: Seq<Seq<char>>| is_path(edges, path, a, b) && path.len() <= depth + 1 {
        let path = choose|path: Seq<Seq<char>>|
            is_path(edges, path, a, b) && path.len() <= depth + 1;
        if path.len() == 1 {
            laws::law_deeper_reaches_no_less(edges, a, b, 0, depth);
        } else {
            let less = (depth - 1) as nat;
            let front = path.drop_last();
            let m = front.last();
            assert forall|i: int| 0 <= i < front.len() - 1 implies #[trigger] is_hop(
                edges,
                front,
                i,
            ) by {
                assert(is_hop(edges, path, i));
            }
            assert(is_path(edges, front, a, m));
            law_reach_is_by_paths(edges, a, m, less);
            assert(is_hop(edges, path, path.len() - 2));
            lemma_neighbours(edges, m, b);
            assert(subgraph::adjacent(edges, m, b));
        }
    }
}

/// A subgraph holds the nodes within the depth of its root, a hundred steps at most, each once and in
/// the order of the table, and the edges between them, all of them.
pub proof fn law_subgraph_holds_what_is_near(
    g: GraphView,
    root: Seq<char>,
    depth: nat,
    now: Seq<char>,
    i: int,
    e: int,
)
    requires
        g.wf(),
    ensures
        ({
            let steps = if depth < 100 {
                depth
            } else {
                100
            };
            let near = |id: Seq<char>|
                graph::has_node(g.nodes, id) && subgraph::within(g.edges, root, id, steps);
            let (nodes, edges) = g.subgraph(root, depth, now);
            &&& 0 <= i < g.nodes.len() ==> (near(g.nodes[i].id) <==> nodes.contains(
                rows::node_of(g.nodes[i], now),
            ))
            &&& forall|k: int| 0 <= k < nodes.len() ==> near((#[trigger] nodes[k]).id)
            &&& forall|k: int, l: int|
                0 <= k < l < nodes.len() ==> (#[trigger] nodes[k]).id != (#[trigger] nodes[l]).id
            &&& 0 <= e < g.edges.len() ==> (near(g.edges[e].from_id) && near(g.edges[e].to_id)
                <==> edges.contains(g.edges[e]))
            &&& edges.len() <= g.edges.len()
            &&& forall|k: int| 0 <= k < edges.len() ==> g.edges.contains(#[trigger] edges[k])
        }),
{
    let (nodes, edges) = g.subgraph(root, depth, now);
    let all = Seq::new(g.nodes.len(), |i: int| i);
    let pick = |i: int| g.in_subgraph(root, depth, g.nodes[i].id);
    let at = all.filter(pick);
    let both = |e: EdgeView|
        g.in_subgraph(root, depth, e.from_id) && g.in_subgraph(root, depth, e.to_id);
    lists::lemma_filter_keeps_order(all, pick, |a: int, b: int| a < b);
    assert forall|k: int| 0 <= k < at.len() implies 0 <= #[trigger] at[k] < g.nodes.len()
        && g.in_subgraph(root, depth, g.nodes[at[k]].id) by {
        assert(at.contains(at[k]));
        all.lemma_filter_contains_rev(pick, at[k]);
        all.lemma_filter_pred(pick, k);
    }
    assert forall|k: int, l: int| 0 <= k < l < nodes.len() implies (#[trigger] nodes[k]).id != (
    #[trigger] nodes[l]).id by {
        assert(at[k] < at[l]);
        assert(g.nodes[at[k]].id != g.nodes[at[l]].id);
    }
    if 0 <= i < g.nodes.len() {
        if pick(i) {
            assert(all[i] == i);
            all.lemma_filter_contains(pick, i);
            let k = choose|k: int| 0 <= k < at.len() && at[k] == i;
            assert(nodes[k] == rows::node_of(g.nodes[i], now));
        }
        if nodes.contains(rows::node_of(g.nodes[i], now)) {
            let k = choose|k: int|
                0 <= k < nodes.len() && nodes[k] == rows::node_of(g.nodes[i], now);
            assert(g.nodes[at[k]].id == g.nodes[i].id);
        }
    }
    g.edges.lemma_filter_len(both);
    if 0 <= e < g.edges.len() {
        if both(g.edges[e]) {
            g.edges.lemma_filter_contains(both, e);
        }
        if edges.contains(g.edges[e]) {
            let k = choose|k: int| 0 <= k < edges.len() && edges[k] == g.edges[e];
            g.edges.lemma_filter_pred(both, k);
        }
    }
    assert forall|k: int| 0 <= k < edges.len() implies g.edges.contains(#[trigger] edges[k]) by {
        assert(edges.contains(edges[k]));
        g.edges.lemma_filter_contains_rev(both, edges[k]);
    }
}

/// The tags that are counted are those of every node.
pub proof fn law_tags_of_every_node_are_counted(nodes: Seq<NodeRowView>, row: NodeRowView)
    ensures
        queries::all_tags(Seq::<NodeRowView>::empty()) == Seq::<Seq<char>>::empty(),
        queries::all_tags(nodes.push(row)) == queries::all_tags(nodes) + render::trimmed_nonempty(
            render::split_on(row.tags, ','),
        ),
{
    assert(nodes.push(row).drop_last() =~= nodes);
}

} // verus!
