//! What each write does to the graph, and what it leaves as it is.
use crate::knowledge_graph::changes;
use crate::knowledge_graph::graph;
use crate::knowledge_graph::graph::GraphView;
use crate::knowledge_graph::names;
use crate::knowledge_graph::rows;
use crate::knowledge_graph::rows::EdgeView;
use crate::knowledge_graph::rows::ErrorView;
use crate::knowledge_graph::rows::EventView;
use crate::knowledge_graph::rows::NodeRowView;
use crate::letters;
use crate::render;
use vstd::prelude::*;

verus! {

/// Whether a tag is the first one with a comma in it.
pub open spec fn is_first_with_comma(tags: Seq<Seq<char>>, i: int) -> bool {
    &&& 0 <= i < tags.len()
    &&& tags[i].contains(',')
    &&& forall|k: int| 0 <= k < i ==> !(#[trigger] tags[k]).contains(',')
}

/// The tag that a refusal names is the first one with a comma in it, and there is none if no tag has
/// one.
pub proof fn law_comma_is_found(tags: Seq<Seq<char>>, i: int)
    ensures
        is_first_with_comma(tags, i) ==> graph::comma_tag(tags) == Some(tags[i]),
        (forall|k: int| 0 <= k < tags.len() ==> !(#[trigger] tags[k]).contains(','))
            ==> graph::comma_tag(tags) is None,
    decreases tags.len(),
{
    if tags.len() > 0 {
        let front = tags.drop_last();
        law_comma_is_found(front, i);
        if is_first_with_comma(tags, i) {
            if i < front.len() {
                assert forall|k: int| 0 <= k < i implies !(#[trigger] front[k]).contains(',') by {
                    assert(!tags[k].contains(','));
                }
                assert(is_first_with_comma(front, i));
            } else {
                assert forall|k: int| 0 <= k < front.len() implies !(
                #[trigger] front[k]).contains(',') by {
                    assert(!tags[k].contains(','));
                }
            }
        }
        if forall|k: int| 0 <= k < tags.len() ==> !(#[trigger] tags[k]).contains(',') {
            assert forall|k: int| 0 <= k < front.len() implies !(#[trigger] front[k]).contains(
                ',',
            ) by {
                assert(!tags[k].contains(','));
            }
            assert(!tags[tags.len() - 1].contains(','));
        }
    }
}

/// A node is added unless the graph is full, a tag holds a comma or the identifier is taken. It is
/// added behind the others, and nothing else changes.
pub proof fn law_node_is_added(g: GraphView, row: NodeRowView, tags: Seq<Seq<char>>)
    ensures
        g.nodes.len() >= g.max_nodes ==> g.node_added(row, tags) == Err::<GraphView, ErrorView>(
            ErrorView::NodeLimitReached { count: g.nodes.len(), max: g.max_nodes },
        ),
        forall|i: int|
            g.nodes.len() < g.max_nodes && #[trigger] is_first_with_comma(tags, i) ==> g.node_added(
                row,
                tags,
            ) == Err::<GraphView, ErrorView>(ErrorView::TagContainsComma(tags[i])),
        g.nodes.len() < g.max_nodes && (forall|k: int|
            0 <= k < tags.len() ==> !(#[trigger] tags[k]).contains(',')) ==> if exists|i: int|
            0 <= i < g.nodes.len() && (#[trigger] g.nodes[i]).id == row.id {
            g.node_added(row, tags) == Err::<GraphView, ErrorView>(ErrorView::DuplicateId(row.id))
        } else {
            g.node_added(row, tags) == Ok::<GraphView, ErrorView>(
                GraphView {
                    nodes: g.nodes.push(row),
                    edges: g.edges,
                    events: g.events,
                    max_nodes: g.max_nodes,
                },
            )
        },
{
    law_comma_is_found(tags, 0);
    assert forall|i: int| #[trigger] is_first_with_comma(tags, i) implies graph::comma_tag(tags)
        == Some(tags[i]) by {
        law_comma_is_found(tags, i);
    }
}

/// The row of a new node: its type is normalized, the tags stand with commas between them, both
/// stamps are the time, and it has no synthesis.
pub proof fn law_new_row(
    id: Seq<char>,
    now: Seq<char>,
    node_type: Seq<char>,
    title: Seq<char>,
    content: Seq<char>,
    tags: Seq<Seq<char>>,
    source_project: Option<Seq<char>>,
)
    ensures
        graph::new_row(id, now, node_type, title, content, tags, source_project) == (NodeRowView {
            id,
            node_type: names::slug(node_type),
            title,
            content,
            tags: render::joined(tags, seq![',']),
            created_at: now,
            updated_at: now,
            source_project,
            synthesis: None,
            synthesis_at: None,
            embedding: None,
        }),
{
    reveal_strlit(",");
    assert(","@ =~= seq![',']);
}

/// An edge is added between nodes that exist, behind the others and only once, and nothing else
/// changes. It is refused for the end that does not exist, its beginning first.
pub proof fn law_edge_is_added(g: GraphView, edge: EdgeView)
    ensures
        ({
            let known = |id: Seq<char>|
                exists|i: int| 0 <= i < g.nodes.len() && (#[trigger] g.nodes[i]).id == id;
            let result = g.edge_added(edge);
            if !known(edge.from_id) {
                result == Err::<GraphView, ErrorView>(ErrorView::SourceNotFound(edge.from_id))
            } else if !known(edge.to_id) {
                result == Err::<GraphView, ErrorView>(ErrorView::TargetNotFound(edge.to_id))
            } else {
                &&& result is Ok
                &&& result->Ok_0.nodes == g.nodes
                &&& result->Ok_0.events == g.events
                &&& result->Ok_0.max_nodes == g.max_nodes
                &&& result->Ok_0.edges == if g.edges.contains(edge) {
                    g.edges
                } else {
                    g.edges.push(edge)
                }
            }
        }),
{
}

/// An event is added to a node that exists, behind the others. The node is marked as updated at the
/// time of the event and as not synthesized since; its other columns, the other rows and the edges
/// stay as they are.
pub proof fn law_event_is_added(g: GraphView, event: EventView)
    ensures
        ({
            let known = exists|i: int|
                0 <= i < g.nodes.len() && (#[trigger] g.nodes[i]).id == event.node_id;
            let taken = exists|i: int|
                0 <= i < g.events.len() && (#[trigger] g.events[i]).id == event.id;
            let result = g.event_added(event);
            if !known {
                result == Err::<GraphView, ErrorView>(ErrorView::UnknownNode(event.node_id))
            } else if taken {
                result == Err::<GraphView, ErrorView>(ErrorView::DuplicateId(event.id))
            } else {
                &&& result is Ok
                &&& result->Ok_0.events == g.events.push(event)
                &&& result->Ok_0.edges == g.edges
                &&& result->Ok_0.max_nodes == g.max_nodes
                &&& result->Ok_0.nodes.len() == g.nodes.len()
                &&& forall|i: int|
                    0 <= i < g.nodes.len() ==> #[trigger] result->Ok_0.nodes[i] == if g.nodes[i].id
                        == event.node_id {
                        NodeRowView {
                            updated_at: event.created_at,
                            synthesis_at: None,
                            ..g.nodes[i]
                        }
                    } else {
                        g.nodes[i]
                    }
            }
        }),
{
}

/// A restored row or event is put back as it was, and marks nothing as updated.
pub proof fn law_restoring_changes_nothing_else(
    g: GraphView,
    row: NodeRowView,
    event: EventView,
)
    ensures
        (forall|i: int| 0 <= i < g.nodes.len() ==> (#[trigger] g.nodes[i]).id != row.id)
            ==> g.row_added(row) == Ok::<GraphView, ErrorView>(
            GraphView { nodes: g.nodes.push(row), ..g },
        ),
        (exists|i: int| 0 <= i < g.nodes.len() && (#[trigger] g.nodes[i]).id == event.node_id) && (
        forall|i: int| 0 <= i < g.events.len() ==> (#[trigger] g.events[i]).id != event.id)
            ==> g.event_written(event) == Ok::<GraphView, ErrorView>(
            GraphView { events: g.events.push(event), ..g },
        ),
{
}

/// A synthesis, its time and its embedding are kept with their node; its other columns, the other
/// rows, the edges and the events stay as they are.
pub proof fn law_synthesis_is_kept(
    g: GraphView,
    id: Seq<char>,
    synthesis: Seq<char>,
    now: Seq<char>,
    embedding: Option<Seq<u8>>,
)
    ensures
        ({
            let after = g.synthesis_updated(id, synthesis, now, embedding);
            &&& after.edges == g.edges
            &&& after.events == g.events
            &&& after.max_nodes == g.max_nodes
            &&& after.nodes.len() == g.nodes.len()
            &&& forall|i: int|
                0 <= i < g.nodes.len() ==> #[trigger] after.nodes[i] == if g.nodes[i].id == id {
                    NodeRowView {
                        synthesis: Some(synthesis),
                        synthesis_at: Some(now),
                        embedding,
                        ..g.nodes[i]
                    }
                } else {
                    g.nodes[i]
                }
        }),
{
}

// ---------------------------------------------------------------------------
// Slugs
// ---------------------------------------------------------------------------

/// Whether a row is the first one with a title.
pub open spec fn is_first_titled(nodes: Seq<NodeRowView>, title: Seq<char>, i: int) -> bool {
    &&& 0 <= i < nodes.len()
    &&& nodes[i].title == title
    &&& forall|k: int| 0 <= k < i ==> (#[trigger] nodes[k]).title != title
}

/// Whether a row is the first one whose title is a spelling of a slug.
pub open spec fn is_first_spelled(nodes: Seq<NodeRowView>, slug: Seq<char>, i: int) -> bool {
    &&& 0 <= i < nodes.len()
    &&& names::slug(nodes[i].title) == slug
    &&& forall|k: int| 0 <= k < i ==> names::slug((#[trigger] nodes[k]).title) != slug
}

proof fn lemma_titled(nodes: Seq<NodeRowView>, title: Seq<char>, i: int)
    ensures
        is_first_titled(nodes, title, i) ==> changes::titled(nodes, title) == Some(nodes[i]),
        changes::titled(nodes, title) is Some ==> exists|k: int| is_first_titled(nodes, title, k),
        changes::titled(nodes, title) matches Some(row) ==> nodes.contains(row),
    decreases nodes.len(),
{
    if nodes.len() > 0 {
        let front = nodes.drop_last();
        lemma_titled(front, title, i);
        if is_first_titled(nodes, title, i) {
            assert forall|k: int| 0 <= k < i implies (#[trigger] front[k]).title != title by {
                assert(nodes[k].title != title);
            }
            if i < front.len() {
                assert(is_first_titled(front, title, i));
            } else if changes::titled(front, title) is Some {
                let k = choose|k: int| is_first_titled(front, title, k);
                assert(nodes[k].title == title);
            }
        }
        if changes::titled(front, title) is Some {
            let k = choose|k: int| is_first_titled(front, title, k);
            assert forall|j: int| 0 <= j < k implies (#[trigger] nodes[j]).title != title by {
                assert(front[j].title != title);
            }
            assert(is_first_titled(nodes, title, k));
            let row = changes::titled(front, title)->0;
            let m = choose|m: int| 0 <= m < front.len() && front[m] == row;
            assert(nodes[m] == row);
        } else if nodes.last().title == title {
            let n = nodes.len() - 1;
            assert forall|j: int| 0 <= j < n implies (#[trigger] nodes[j]).title != title by {
                if nodes[j].title == title {
                    lemma_titled_exists(front, title, j);
                }
            }
            assert(is_first_titled(nodes, title, n));
            assert(nodes[n] == nodes.last());
        }
    }
}

proof fn lemma_titled_exists(nodes: Seq<NodeRowView>, title: Seq<char>, j: int)
    requires
        0 <= j < nodes.len(),
        nodes[j].title == title,
    ensures
        changes::titled(nodes, title) is Some,
    decreases nodes.len(),
{
    if j < nodes.len() - 1 {
        lemma_titled_exists(nodes.drop_last(), title, j);
    }
}

proof fn lemma_spelled(nodes: Seq<NodeRowView>, slug: Seq<char>, i: int)
    ensures
        is_first_spelled(nodes, slug, i) ==> changes::slugged(nodes, slug) == Some(nodes[i]),
        changes::slugged(nodes, slug) is Some ==> exists|k: int| is_first_spelled(nodes, slug, k),
        changes::slugged(nodes, slug) matches Some(row) ==> nodes.contains(row),
    decreases nodes.len(),
{
    if nodes.len() > 0 {
        let front = nodes.drop_last();
        lemma_spelled(front, slug, i);
        if is_first_spelled(nodes, slug, i) {
            assert forall|k: int| 0 <= k < i implies names::slug((#[trigger] front[k]).title)
                != slug by {
                assert(names::slug(nodes[k].title) != slug);
            }
            if i < front.len() {
                assert(is_first_spelled(front, slug, i));
            } else if changes::slugged(front, slug) is Some {
                let k = choose|k: int| is_first_spelled(front, slug, k);
                assert(names::slug(nodes[k].title) == slug);
            }
        }
        if changes::slugged(front, slug) is Some {
            let k = choose|k: int| is_first_spelled(front, slug, k);
            assert forall|j: int| 0 <= j < k implies names::slug((#[trigger] nodes[j]).title)
                != slug by {
                assert(names::slug(front[j].title) != slug);
            }
            assert(is_first_spelled(nodes, slug, k));
            let row = changes::slugged(front, slug)->0;
            let m = choose|m: int| 0 <= m < front.len() && front[m] == row;
            assert(nodes[m] == row);
        } else if names::slug(nodes.last().title) == slug {
            let n = nodes.len() - 1;
            assert forall|j: int| 0 <= j < n implies names::slug((#[trigger] nodes[j]).title)
                != slug by {
                if names::slug(nodes[j].title) == slug {
                    lemma_spelled_exists(front, slug, j);
                }
            }
            assert(is_first_spelled(nodes, slug, n));
            assert(nodes[n] == nodes.last());
        }
    }
}

proof fn lemma_spelled_exists(nodes: Seq<NodeRowView>, slug: Seq<char>, j: int)
    requires
        0 <= j < nodes.len(),
        names::slug(nodes[j].title) == slug,
    ensures
        changes::slugged(nodes, slug) is Some,
    decreases nodes.len(),
{
    if j < nodes.len() - 1 {
        lemma_spelled_exists(nodes.drop_last(), slug, j);
    }
}

/// A slug finds the first node that has the normalized slug for its title, or else the first one
/// whose title is a spelling of it; nothing is created then, and the graph stays as it is.
pub proof fn law_slug_finds_its_node(
    g: GraphView,
    slug: Seq<char>,
    node_type: Seq<char>,
    title: Seq<char>,
    content: Seq<char>,
    id: Seq<char>,
    now: Seq<char>,
    i: int,
)
    requires
        is_first_titled(g.nodes, names::slug(slug), i) || (is_first_spelled(
            g.nodes,
            names::slug(slug),
            i,
        ) && forall|k: int|
            0 <= k < g.nodes.len() ==> (#[trigger] g.nodes[k]).title != names::slug(slug)),
    ensures
        changes::found_or_created(g, slug, node_type, title, content, id, now) == Ok::<
            (GraphView, Seq<char>, bool),
            ErrorView,
        >((g, g.nodes[i].id, false)),
{
    let s = names::slug(slug);
    lemma_titled(g.nodes, s, i);
    lemma_spelled(g.nodes, s, i);
    if !is_first_titled(g.nodes, s, i) && changes::titled(g.nodes, s) is Some {
        let k = choose|k: int| is_first_titled(g.nodes, s, k);
        assert(g.nodes[k].title == s);
    }
}

/// A slug that no title spells creates a node with the given title, the normalized type, the given
/// content, no tags and no project, if there is room for it.
pub proof fn law_new_slug_creates_its_node(
    g: GraphView,
    slug: Seq<char>,
    node_type: Seq<char>,
    title: Seq<char>,
    content: Seq<char>,
    id: Seq<char>,
    now: Seq<char>,
)
    requires
        forall|k: int|
            0 <= k < g.nodes.len() ==> (#[trigger] g.nodes[k]).title != names::slug(slug)
                && names::slug(g.nodes[k].title) != names::slug(slug) && g.nodes[k].id != id,
    ensures
        ({
            let result = changes::found_or_created(g, slug, node_type, title, content, id, now);
            let row = NodeRowView {
                id,
                node_type: names::slug(names::slug(node_type)),
                title,
                content,
                tags: Seq::empty(),
                created_at: now,
                updated_at: now,
                source_project: None,
                synthesis: None,
                synthesis_at: None,
                embedding: None,
            };
            if g.nodes.len() < g.max_nodes {
                result == Ok::<(GraphView, Seq<char>, bool), ErrorView>(
                    (GraphView { nodes: g.nodes.push(row), ..g }, id, true),
                )
            } else {
                result == Err::<(GraphView, Seq<char>, bool), ErrorView>(
                    ErrorView::NodeLimitReached { count: g.nodes.len(), max: g.max_nodes },
                )
            }
        }),
{
    let s = names::slug(slug);
    lemma_titled(g.nodes, s, 0);
    lemma_spelled(g.nodes, s, 0);
    if changes::titled(g.nodes, s) is Some {
        let k = choose|k: int| is_first_titled(g.nodes, s, k);
        assert(g.nodes[k].title == s);
    }
    if changes::slugged(g.nodes, s) is Some {
        let k = choose|k: int| is_first_spelled(g.nodes, s, k);
        assert(names::slug(g.nodes[k].title) == s);
    }
    let e = Seq::<Seq<char>>::empty();
    law_comma_is_found(e, 0);
    assert(render::joined(e, ","@) =~= Seq::empty());
}

/// What a slug finds or creates is in the graph.
pub proof fn law_found_node_is_there(
    g: GraphView,
    slug: Seq<char>,
    node_type: Seq<char>,
    title: Seq<char>,
    content: Seq<char>,
    id: Seq<char>,
    now: Seq<char>,
)
    requires
        changes::found_or_created(g, slug, node_type, title, content, id, now) is Ok,
    ensures
        ({
            let found = changes::found_or_created(
                g,
                slug,
                node_type,
                title,
                content,
                id,
                now,
            )->Ok_0;
            &&& graph::has_node(found.0.nodes, found.1)
            &&& found.0.events == g.events
            &&& found.0.edges == g.edges
            &&& forall|known: Seq<char>| #[trigger]
                graph::has_node(g.nodes, known) ==> graph::has_node(found.0.nodes, known)
        }),
{
    let s = names::slug(slug);
    lemma_titled(g.nodes, s, 0);
    lemma_spelled(g.nodes, s, 0);
    let found = changes::found_or_created(g, slug, node_type, title, content, id, now)->Ok_0;
    match changes::named(g.nodes, s) {
        Some(row) => {
            let m = choose|m: int| 0 <= m < g.nodes.len() && g.nodes[m] == row;
            assert(g.nodes[m].id == row.id);
        },
        None => {
            assert(found.0.nodes[g.nodes.len() as int].id == id);
            assert forall|known: Seq<char>| #[trigger]
                graph::has_node(g.nodes, known) implies graph::has_node(found.0.nodes, known) by {
                let k = choose|k: int|
                    0 <= k < g.nodes.len() && (#[trigger] g.nodes[k]).id == known;
                assert(found.0.nodes[k].id == known);
            }
        },
    }
}

// ---------------------------------------------------------------------------
// Names
// ---------------------------------------------------------------------------

/// Whether a text is made of letters and digits alone.
pub open spec fn is_letters(s: Seq<char>) -> bool {
    s.len() > 0 && forall|i: int| 0 <= i < s.len() ==> letters::alphanumeric(#[trigger] s[i])
}

proof fn lemma_runs_of_parts(a: Seq<char>, c: char, b: Seq<char>, keep: spec_fn(char) -> bool)
    requires
        !keep(c),
    ensures
        ({
            let left = letters::runs(a, keep);
            let right = letters::run_state(b, keep);
            letters::run_state(a + seq![c] + b, keep) == (left + right.0, right.1)
        }),
    decreases b.len(),
{
    let s = a + seq![c] + b;
    let left = letters::runs(a, keep);
    if b.len() == 0 {
        assert(s.drop_last() =~= a);
        assert(s.last() == c);
        let right = letters::run_state(b, keep);
        assert(left + right.0 =~= left);
        let state = letters::run_state(a, keep);
        assert(right.1 =~= Seq::empty());
    } else {
        let front = b.drop_last();
        lemma_runs_of_parts(a, c, front, keep);
        assert(s.drop_last() =~= a + seq![c] + front);
        assert(s.last() == b.last());
        let before = letters::run_state(front, keep);
        assert((left + before.0).push(before.1) =~= left + before.0.push(before.1));
    }
}

proof fn lemma_joined_parts(xs: Seq<Seq<char>>, ys: Seq<Seq<char>>, sep: Seq<char>)
    requires
        xs.len() > 0,
        ys.len() > 0,
    ensures
        render::joined(xs + ys, sep) == render::joined(xs, sep) + sep + render::joined(ys, sep),
    decreases ys.len(),
{
    if ys.len() == 1 {
        assert((xs + ys).drop_last() =~= xs);
    } else {
        lemma_joined_parts(xs, ys.drop_last(), sep);
        assert((xs + ys).drop_last() =~= xs + ys.drop_last());
        let x = render::joined(xs, sep);
        let y = render::joined(ys.drop_last(), sep);
        assert((x + sep + y) + sep + ys.last() =~= x + sep + (y + sep + ys.last()));
    }
}

proof fn lemma_lowered_parts(a: Seq<char>, b: Seq<char>)
    requires
        letters::all_ascii(a),
        letters::all_ascii(b),
    ensures
        letters::all_ascii(a + b),
        letters::lowered(a + b) == letters::lowered(a) + letters::lowered(b),
{
    assert forall|i: int| 0 <= i < (a + b).len() implies letters::ascii(#[trigger] (a + b)[i]) by {
        if i < a.len() {
            assert((a + b)[i] == a[i]);
        } else {
            assert((a + b)[i] == b[i - a.len()]);
        }
    }
    assert(letters::lowered(a + b) =~= letters::lowered(a) + letters::lowered(b));
}

/// What a slug is made of: a word of letters and digits is its own slug in lower case, nothing is the
/// slug of nothing, and whatever stands between two parts of a text becomes one underscore between
/// their slugs, or nothing where one of them is empty.
pub proof fn law_slug_joins_the_parts(s: Seq<char>, a: Seq<char>, c: char, b: Seq<char>)
    requires
        !letters::alphanumeric(c),
        letters::lowered(s) == letters::lowered(a) + seq![c] + letters::lowered(b),
    ensures
        is_letters(letters::lowered(a)) ==> names::slug(a) == letters::lowered(a),
        letters::lowered(a).len() == 0 ==> names::slug(a) == Seq::<char>::empty(),
        names::slug(s) == if names::slug(a).len() == 0 {
            names::slug(b)
        } else if names::slug(b).len() == 0 {
            names::slug(a)
        } else {
            names::slug(a) + seq!['_'] + names::slug(b)
        },
{
    let keep = |c: char| letters::alphanumeric(c);
    let u = seq!['_'];
    let one = seq![c];
    let la = letters::lowered(a);
    let lb = letters::lowered(b);
    lemma_runs_of_parts(la, c, lb, keep);
    let ra = letters::runs(la, keep);
    let rb = letters::runs(lb, keep);
    let end = letters::run_state(lb, keep);
    assert(letters::runs(la + one + lb, keep) =~= ra + rb) by {
        if end.1.len() > 0 {
            assert((ra + end.0).push(end.1) =~= ra + end.0.push(end.1));
        }
    }
    letters::lemma_runs_kept(la, keep);
    letters::lemma_runs_kept(lb, keep);
    lemma_joined_nonempty(ra, u);
    lemma_joined_nonempty(rb, u);
    if ra.len() == 0 {
        assert(ra + rb =~= rb);
    } else if rb.len() == 0 {
        assert(ra + rb =~= ra);
    } else {
        lemma_joined_parts(ra, rb, u);
    }
    if is_letters(la) {
        assert forall|i: int| 0 <= i < la.len() implies keep(#[trigger] la[i]) by {}
        lemma_one_run(la, keep);
    }
    if la.len() == 0 {
        assert(ra =~= Seq::empty());
    }
}

/// The slug of a text without letters and digits is empty, and so is that of nothing.
pub proof fn law_slug_of_separators_is_empty(s: Seq<char>)
    requires
        forall|i: int|
            0 <= i < letters::lowered(s).len() ==> !letters::alphanumeric(
                #[trigger] letters::lowered(s)[i],
            ),
    ensures
        names::slug(s) == Seq::<char>::empty(),
{
    let keep = |c: char| letters::alphanumeric(c);
    lemma_no_run_state(letters::lowered(s), keep);
    assert(letters::letter_runs(letters::lowered(s)) =~= Seq::empty());
}

proof fn lemma_no_run_state(s: Seq<char>, keep: spec_fn(char) -> bool)
    requires
        forall|i: int| 0 <= i < s.len() ==> !keep(#[trigger] s[i]),
    ensures
        letters::run_state(s, keep) == (Seq::<Seq<char>>::empty(), Seq::<char>::empty()),
    decreases s.len(),
{
    if s.len() > 0 {
        let front = s.drop_last();
        assert forall|i: int| 0 <= i < front.len() implies !keep(#[trigger] front[i]) by {
            assert(!keep(s[i]));
        }
        lemma_no_run_state(front, keep);
        assert(!keep(s[s.len() - 1]));
    }
}

/// A slug in ASCII text: letters and digits are kept in lower case, and whatever stands between two
/// words becomes one underscore, while what stands around them is dropped.
pub proof fn law_slug_joins_the_words(a: Seq<char>, c: char, b: Seq<char>)
    requires
        letters::all_ascii(a),
        letters::all_ascii(b),
        (c as u32) < 128,
        !letters::alphanumeric(c),
    ensures
        is_letters(a) ==> names::slug(a) == letters::lowered(a),
        names::slug(Seq::<char>::empty()) == Seq::<char>::empty(),
        names::slug(a + seq![c] + b) == if names::slug(a).len() == 0 {
            names::slug(b)
        } else if names::slug(b).len() == 0 {
            names::slug(a)
        } else {
            names::slug(a) + seq!['_'] + names::slug(b)
        },
{
    let e = Seq::<char>::empty();
    let one = seq![c];
    assert(letters::all_ascii(one));
    lemma_lowered_parts(a, one);
    lemma_lowered_parts(a + one, b);
    let la = letters::lowered(a);
    assert(letters::lowered(one) =~= one);
    law_slug_joins_the_parts(a + one + b, a, c, b);
    if is_letters(a) {
        assert forall|i: int| 0 <= i < la.len() implies letters::alphanumeric(
            #[trigger] la[i],
        ) by {
            assert(letters::alphanumeric(a[i]));
        }
        assert(is_letters(la));
    }
    assert(letters::lowered(e) =~= e);
    law_slug_of_separators_is_empty(e);
}

proof fn lemma_joined_nonempty(ws: Seq<Seq<char>>, sep: Seq<char>)
    requires
        forall|i: int| 0 <= i < ws.len() ==> (#[trigger] ws[i]).len() > 0,
    ensures
        render::joined(ws, sep).len() == 0 <==> ws.len() == 0,
{
    if ws.len() > 0 {
        assert(ws[ws.len() - 1].len() > 0);
    }
}

proof fn lemma_one_run(s: Seq<char>, keep: spec_fn(char) -> bool)
    requires
        s.len() > 0,
        forall|i: int| 0 <= i < s.len() ==> keep(#[trigger] s[i]),
    ensures
        letters::runs(s, keep) == seq![s],
{
    lemma_one_run_state(s, keep);
    assert(Seq::<Seq<char>>::empty().push(s) =~= seq![s]);
}

proof fn lemma_one_run_state(s: Seq<char>, keep: spec_fn(char) -> bool)
    requires
        forall|i: int| 0 <= i < s.len() ==> keep(#[trigger] s[i]),
    ensures
        letters::run_state(s, keep) == (Seq::<Seq<char>>::empty(), s),
    decreases s.len(),
{
    if s.len() > 0 {
        let front = s.drop_last();
        assert forall|i: int| 0 <= i < front.len() implies keep(#[trigger] front[i]) by {
            assert(keep(s[i]));
        }
        lemma_one_run_state(front, keep);
        assert(keep(s[s.len() - 1]));
        assert(front.push(s.last()) =~= s);
    } else {
        assert(s =~= Seq::empty());
    }
}

/// What a refusal says.
pub proof fn law_refusals_say_why(count: nat, max: nat, what: Seq<char>)
    ensures
        rows::error_message(ErrorView::NodeLimitReached { count, max })
            == "knowledge graph node limit reached ("@ + render::decimal(count) + "/"@
            + render::decimal(max) + ")"@,
        rows::error_message(ErrorView::TagContainsComma(what)) == "tag '"@ + what
            + "' contains a comma, which is used as the tag separator"@,
        rows::error_message(ErrorView::SourceNotFound(what)) == "source node not found: "@ + what,
        rows::error_message(ErrorView::TargetNotFound(what)) == "target node not found: "@ + what,
        rows::error_message(ErrorView::ZeroDepth) == "subgraph depth must be greater than 0"@,
        rows::error_message(ErrorView::DuplicateId(what)) == "duplicate id: "@ + what,
        rows::error_message(ErrorView::UnknownNode(what)) == "event for unknown node: "@ + what,
{
}

} // verus!
