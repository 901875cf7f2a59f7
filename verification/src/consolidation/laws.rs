//! What a consolidation and a dream cycle do, from what came in to what is stored and asked.
use crate::clock;
use crate::consolidation::dream;
use crate::consolidation::dream::DreamView;
use crate::consolidation::entities;
use crate::consolidation::entities::Fresh;
use crate::consolidation::entities::MentionView;
use crate::consolidation::entities::RelationView;
use crate::consolidation::media;
use crate::consolidation::turn;
use crate::consolidation::turn::EntityExtractionResult;
use crate::consolidation::turn::ExtractView;
use crate::consolidation::turn::TurnActionView;
use crate::consolidation::turn::TurnEventView;
use crate::consolidation::turn::TurnPhaseView;
use crate::consolidation::turn::TurnView;
use crate::knowledge_graph::graph;
use crate::knowledge_graph::graph::GraphView;
use crate::knowledge_graph::laws as graph_laws;
use crate::knowledge_graph::names;
use crate::knowledge_graph::queries;
use crate::knowledge_graph::rows;
use crate::knowledge_graph::rows::EdgeView;
use crate::knowledge_graph::rows::EventView;
use crate::knowledge_graph::rows::NodeView;
use crate::knowledge_graph::writes;
use crate::ordering;
use crate::patterns;
use crate::render;
use crate::text;
use crate::text_laws;
use vstd::prelude::*;

verus! {

// ---------------------------------------------------------------------------
// Turns
// ---------------------------------------------------------------------------

/// Whether a step ends a consolidation, as a success or not.
pub open spec fn ends(run: TurnView, ok: bool, after: (TurnView, TurnActionView)) -> bool {
    after == (TurnView { phase: TurnPhaseView::Finished, ..run }, TurnActionView::Finish(ok))
}

/// Whether a step goes on to the entities: with a knowledge graph the model is asked for those of
/// the turn, without one the consolidation is over.
pub open spec fn goes_on_to_entities(run: TurnView, after: (TurnView, TurnActionView)) -> bool {
    if run.with_knowledge {
        after == (
            TurnView { phase: TurnPhaseView::ExtractingEntities, ..run },
            TurnActionView::ExtractEntities { prompt: render::truncated(run.text, 4000, "…"@) },
        )
    } else {
        ends(run, true, after)
    }
}

/// What was extracted of a turn goes to the daily log, and the update waits for its turn. If the
/// response was malformed the beginning of the turn itself goes there. If there was none the
/// consolidation fails.
pub proof fn law_extraction_goes_to_the_daily_log(
    run: TurnView,
    event: TurnEventView,
    date: Seq<char>,
    id: Seq<char>,
)
    requires
        run.phase is Extracting,
    ensures
        ({
            let after = run.next(event, date, id);
            match event {
                TurnEventView::Extracted(Some(found)) => after == (
                    TurnView { phase: TurnPhaseView::StoringDaily(found.memory_update), ..run },
                    TurnActionView::StoreDaily {
                        key: "daily_"@ + date + "_"@ + id,
                        content: found.history_entry,
                    },
                ),
                TurnEventView::Extracted(None) => after == (
                    TurnView { phase: TurnPhaseView::StoringDaily(None), ..run },
                    TurnActionView::StoreDaily {
                        key: "daily_"@ + date + "_"@ + id,
                        content: render::truncated(run.text, 200, "…"@),
                    },
                ),
                _ => ends(run, false, after),
            }
        }),
{
}

/// An update that is not blank is checked for conflicts and then stored among the core memories, as
/// it is and under one new key.
pub proof fn law_update_goes_to_the_core_memories(
    run: TurnView,
    update: Seq<char>,
    event: TurnEventView,
    date: Seq<char>,
    id: Seq<char>,
    later_date: Seq<char>,
    later_id: Seq<char>,
)
    requires
        run.phase == TurnPhaseView::StoringDaily(Some(update)),
        !text_laws::is_blank(update),
    ensures
        ({
            let asked = run.next(TurnEventView::Done, date, id);
            let stored = asked.0.next(event, later_date, later_id);
            &&& asked.1 == TurnActionView::ResolveConflicts {
                key: "core_"@ + id,
                content: update,
            }
            &&& stored.1 == TurnActionView::StoreCore { key: "core_"@ + id, content: update }
            &&& stored.0 == TurnView { phase: TurnPhaseView::StoringCore, ..run }
        }),
{
    text_laws::law_blank_texts_trim_to_nothing(update);
}

/// A turn whose stores work always comes to its entities: at once if there is no update or a blank
/// one, and once the update is stored if there is one.
pub proof fn law_stored_turn_comes_to_its_entities(
    run: TurnView,
    update: Option<Seq<char>>,
    date: Seq<char>,
    id: Seq<char>,
)
    ensures
        run.phase is StoringCore ==> goes_on_to_entities(
            run,
            run.next(TurnEventView::Done, date, id),
        ),
        run.phase == TurnPhaseView::StoringDaily(update) && (update matches Some(u)
            ==> text_laws::is_blank(u)) ==> goes_on_to_entities(
            run,
            run.next(TurnEventView::Done, date, id),
        ),
{
    if update is Some {
        text_laws::law_blank_texts_trim_to_nothing(update->0);
    }
}

/// A store that does not work ends the consolidation as a failure.
pub proof fn law_failed_store_fails_the_turn(
    run: TurnView,
    event: TurnEventView,
    date: Seq<char>,
    id: Seq<char>,
)
    requires
        run.phase is StoringDaily || run.phase is StoringCore,
        !(event is Done),
    ensures
        ends(run, false, run.next(event, date, id)),
{
}

/// The entities that were found are recorded just as they were found. Without any the consolidation
/// is over and has worked.
pub proof fn law_found_entities_are_recorded(
    run: TurnView,
    event: TurnEventView,
    date: Seq<char>,
    id: Seq<char>,
)
    requires
        run.phase is ExtractingEntities,
    ensures
        ({
            let after = run.next(event, date, id);
            match event {
                TurnEventView::Entities(Some(found)) => after == (
                    TurnView { phase: TurnPhaseView::Finished, ..run },
                    TurnActionView::Record(found),
                ),
                _ => ends(run, true, after),
            }
        }),
{
}

/// A whole turn with an update: if everything works, the daily entry, the update and the entities
/// that were found are all stored, each as it came back.
pub proof fn law_whole_turn_is_consolidated(
    run: TurnView,
    found: ExtractView,
    entities: EntityExtractionResult,
    checked: TurnEventView,
    date: Seq<char>,
    id: Seq<char>,
)
    requires
        run.phase is Extracting,
        run.with_knowledge,
        found.memory_update matches Some(u) && !text_laws::is_blank(u),
    ensures
        ({
            let first = run.next(TurnEventView::Extracted(Some(found)), date, id);
            let second = first.0.next(TurnEventView::Done, date, id);
            let third = second.0.next(checked, date, id);
            let fourth = third.0.next(TurnEventView::Done, date, id);
            let fifth = fourth.0.next(TurnEventView::Entities(Some(entities)), date, id);
            &&& first.1 is StoreDaily && first.1->StoreDaily_content == found.history_entry
            &&& second.1 is ResolveConflicts && second.1->ResolveConflicts_content
                == found.memory_update->0
            &&& third.1 is StoreCore && third.1->StoreCore_content == found.memory_update->0
                && third.1->StoreCore_key == second.1->ResolveConflicts_key
            &&& fourth.1 == TurnActionView::ExtractEntities {
                prompt: render::truncated(run.text, 4000, "…"@),
            }
            &&& fifth.1 == TurnActionView::Record(entities)
            &&& fifth.0.phase is Finished
        }),
{
    text_laws::law_blank_texts_trim_to_nothing(found.memory_update->0);
}

/// A well-formed response is kept as it is. A malformed one is made up for by the beginning of the
/// turn, with nothing to remember.
pub proof fn law_well_formed_response_is_kept(
    decoded: Option<ExtractView>,
    fallback: Seq<char>,
)
    ensures
        decoded matches Some(r) ==> turn::kept(decoded, fallback) == r,
        decoded is None ==> turn::kept(decoded, fallback) == (ExtractView {
            history_entry: render::truncated(fallback, 200, "…"@),
            memory_update: None,
            facts: Seq::empty(),
            trend: None,
        }),
{
}

// ---------------------------------------------------------------------------
// Media markers and code fences
// ---------------------------------------------------------------------------

/// A text without an opening bracket is left as it is, and so is one before a text that is replaced.
proof fn lemma_plain_head(head: Seq<char>, tail: Seq<char>, r: Seq<char>)
    requires
        !head.contains('['),
    ensures
        patterns::media_replaced(head + tail, r) == head + patterns::media_replaced(tail, r),
    decreases head.len(),
{
    if head.len() == 0 {
        assert(head + tail =~= tail);
        assert(head + patterns::media_replaced(tail, r) =~= patterns::media_replaced(tail, r));
    } else {
        let s = head + tail;
        assert(s[0] == head[0]);
        assert(head.contains(head[0]));
        assert(!patterns::begins_as_marker(s)) by {
            if patterns::begins_as_marker(s) {
                media::lemma_marker_kind_letter(s);
            }
        }
        assert(s.skip(1) =~= head.skip(1) + tail);
        assert(!head.skip(1).contains('[')) by {
            if head.skip(1).contains('[') {
                let i = choose|i: int| 0 <= i < head.skip(1).len() && head.skip(1)[i] == '[';
                assert(head[i + 1] == '[');
            }
        }
        lemma_plain_head(head.skip(1), tail, r);
        assert(seq![s[0]] + (head.skip(1) + patterns::media_replaced(tail, r)) =~= head
            + patterns::media_replaced(tail, r));
    }
}

/// What a text says besides its markers stays word for word: a marker of a known kind becomes a
/// note, and what stands around it is kept.
pub proof fn law_only_markers_are_replaced(
    head: Seq<char>,
    kind: Seq<char>,
    path: Seq<char>,
    tail: Seq<char>,
)
    requires
        !head.contains('['),
        kind == "IMAGE"@ || kind == "DOCUMENT"@ || kind == "FILE"@ || kind == "VIDEO"@ || kind
            == "VOICE"@ || kind == "AUDIO"@,
        !path.contains(']'),
    ensures
        patterns::media_replaced(head, media::attachment()) == head,
        patterns::media_replaced(
            head + (seq!['['] + kind + seq![':'] + path + seq![']']) + tail,
            media::attachment(),
        ) == head + "[media attachment]"@ + patterns::media_replaced(tail, media::attachment()),
{
    let e = Seq::<char>::empty();
    let r = media::attachment();
    let m = seq!['['] + kind + seq![':'] + path + seq![']'];
    lemma_plain_head(head, e, r);
    assert(head + e =~= head);
    assert(patterns::media_replaced(e, r) =~= e);
    lemma_plain_head(head, m + tail, r);
    assert(head + m + tail =~= head + (m + tail));
    media::lemma_marker_first(kind, path, tail);
    assert(head + (r + patterns::media_replaced(tail, r)) =~= head + r + patterns::media_replaced(
        tail,
        r,
    ));
}

/// Whether a media marker of a known kind begins somewhere in a text.
pub open spec fn has_opening(s: Seq<char>) -> bool {
    ||| render::contains_text(s, seq!['['] + "IMAGE"@ + seq![':'])
    ||| render::contains_text(s, seq!['['] + "DOCUMENT"@ + seq![':'])
    ||| render::contains_text(s, seq!['['] + "FILE"@ + seq![':'])
    ||| render::contains_text(s, seq!['['] + "VIDEO"@ + seq![':'])
    ||| render::contains_text(s, seq!['['] + "VOICE"@ + seq![':'])
    ||| render::contains_text(s, seq!['['] + "AUDIO"@ + seq![':'])
}

/// A text in which no marker begins, or none ends, is left as it is, whatever other brackets it
/// holds.
pub proof fn law_other_brackets_are_kept(s: Seq<char>, r: Seq<char>)
    requires
        !has_opening(s) || !s.contains(']'),
    ensures
        patterns::media_replaced(s, r) == s,
    decreases s.len(),
{
    if s.len() > 0 {
        let rest = s.skip(1);
        if !has_opening(s) {
            lemma_no_opening(s, "IMAGE"@);
            lemma_no_opening(s, "DOCUMENT"@);
            lemma_no_opening(s, "FILE"@);
            lemma_no_opening(s, "VIDEO"@);
            lemma_no_opening(s, "VOICE"@);
            lemma_no_opening(s, "AUDIO"@);
        } else {
            if rest.contains(']') {
                let i = choose|i: int| 0 <= i < rest.len() && rest[i] == ']';
                assert(s[i + 1] == ']');
            }
        }
        law_other_brackets_are_kept(rest, r);
        assert(seq![s[0]] + rest =~= s);
    }
}

proof fn lemma_no_opening(s: Seq<char>, kind: Seq<char>)
    requires
        s.len() > 0,
        !render::contains_text(s, seq!['['] + kind + seq![':']),
    ensures
        !patterns::begins_with_kind(s, kind),
        !render::contains_text(s.skip(1), seq!['['] + kind + seq![':']),
{
    let n = seq!['['] + kind + seq![':'];
    if patterns::begins_with_kind(s, kind) {
        assert(s.subrange(0, n.len() as int) =~= s.take((kind.len() + 2) as int));
        assert(render::occurs_at(s, n, 0));
    }
    if render::contains_text(s.skip(1), n) {
        let i = choose|i: int| render::occurs_at(s.skip(1), n, i);
        assert(s.subrange(i + 1, i + 1 + n.len()) =~= s.skip(1).subrange(i, i + n.len()));
        assert(render::occurs_at(s, n, i + 1));
    }
}

/// The text of a turn tells both messages, the user's first, each without its markers.
pub proof fn law_turn_tells_both_messages(user: Seq<char>, assistant: Seq<char>)
    ensures
        turn::turn_text(user, assistant) == "User: "@ + patterns::media_replaced(
            user,
            media::attachment(),
        ) + "\nAssistant: "@ + patterns::media_replaced(assistant, media::attachment()),
        !user.contains('[') && !assistant.contains('[') ==> turn::turn_text(user, assistant)
            == "User: "@ + user + "\nAssistant: "@ + assistant,
{
    let e = Seq::<char>::empty();
    if !user.contains('[') && !assistant.contains('[') {
        lemma_plain_head(user, e, media::attachment());
        lemma_plain_head(assistant, e, media::attachment());
        assert(user + e =~= user && assistant + e =~= assistant);
        assert(patterns::media_replaced(e, media::attachment()) =~= e);
    }
}

/// Code fences around a response are taken off, with or without the name of the language, and a
/// response without them is left as it is.
pub proof fn law_fences_are_taken_off(body: Seq<char>)
    requires
        body.len() > 0,
        !text::whitespace(body[0]),
        !text::whitespace(body.last()),
        body[0] != '`',
        body.last() != '`',
    ensures
        media::unfenced(body) == body,
        media::unfenced("```json\n"@ + body + "\n```"@) == body,
        media::unfenced("```\n"@ + body + "\n```"@) == body,
{
    reveal_strlit("```json\n");
    reveal_strlit("```json");
    reveal_strlit("```\n");
    reveal_strlit("\n```");
    reveal_strlit("```");
    let e = Seq::<char>::empty();
    let long = "```json"@;
    let short = "```"@;
    let nl = seq!['\n'];
    // Without fences.
    text_laws::law_trimming_takes_the_blank_ends(e, body, e);
    assert(e + body + e =~= body);
    lemma_no_front(body, long);
    lemma_no_front(body, short);
    lemma_no_back(body, short);
    // The body with the line breaks that fences leave.
    let inner = nl + body + nl;
    assert(text_laws::is_blank(nl));
    text_laws::law_trimming_takes_the_blank_ends(nl, body, nl);
    assert(inner[0] == '\n' && inner.last() == '\n');
    lemma_no_front(inner + short, long);
    lemma_no_front(inner + short, short);
    lemma_one_back(inner, short);
    // With the name of the language.
    let named = "```json\n"@ + body + "\n```"@;
    assert(named =~= long + (inner + short));
    assert(named[0] == '`' && named.last() == '`');
    text_laws::law_trimming_takes_the_blank_ends(e, named, e);
    assert(e + named + e =~= named);
    assert((inner + short)[0] == '\n');
    lemma_one_front(inner + short, long);
    // Without it.
    let plain = "```\n"@ + body + "\n```"@;
    assert(plain =~= short + (inner + short));
    assert(plain[0] == '`' && plain.last() == '`');
    text_laws::law_trimming_takes_the_blank_ends(e, plain, e);
    assert(e + plain + e =~= plain);
    assert(media::without_front(plain, long) == plain) by {
        if plain.len() >= long.len() && plain.take(long.len() as int) == long {
            assert(plain.take(long.len() as int)[3] == '\n');
            assert(long[3] == 'j');
        }
    }
    lemma_one_front(inner + short, short);
}

proof fn lemma_no_front(s: Seq<char>, p: Seq<char>)
    requires
        s.len() > 0,
        p.len() > 0,
        s[0] != p[0],
    ensures
        media::without_front(s, p) == s,
{
    if p.len() <= s.len() && s.take(p.len() as int) == p {
        assert(s.take(p.len() as int)[0] == s[0]);
    }
}

proof fn lemma_no_back(s: Seq<char>, p: Seq<char>)
    requires
        s.len() > 0,
        p.len() > 0,
        s.last() != p.last(),
    ensures
        media::without_back(s, p) == s,
{
    if p.len() <= s.len() && s.skip(s.len() - p.len()) == p {
        assert(s.skip(s.len() - p.len())[p.len() - 1] == s.last());
    }
}

proof fn lemma_one_front(s: Seq<char>, p: Seq<char>)
    requires
        s.len() > 0,
        p.len() > 0,
        s[0] != p[0],
    ensures
        media::without_front(p + s, p) == s,
{
    assert((p + s).take(p.len() as int) =~= p);
    assert((p + s).skip(p.len() as int) =~= s);
    lemma_no_front(s, p);
}

proof fn lemma_one_back(s: Seq<char>, p: Seq<char>)
    requires
        s.len() > 0,
        p.len() > 0,
        s.last() != p.last(),
    ensures
        media::without_back(s + p, p) == s,
{
    assert((s + p).skip((s + p).len() - p.len()) =~= p);
    assert((s + p).take((s + p).len() - p.len()) =~= s);
    lemma_no_back(s, p);
}

// ---------------------------------------------------------------------------
// Entities
// ---------------------------------------------------------------------------

/// A mention of an entity puts its fact on the timeline of the entity's node, and on no other.
pub proof fn law_mention_puts_the_fact_on_the_timeline(
    g: GraphView,
    m: MentionView,
    node: Fresh,
    event: Fresh,
)
    requires
        entities::entity_in(g, m.slug, m.entity_type, node).1 is Some,
        !graph::has_event(g.events, event.id),
    ensures
        entities::entity_recorded(g, m, node, event).events == g.events.push(
            EventView {
                id: event.id,
                node_id: entities::entity_in(g, m.slug, m.entity_type, node).1->0,
                content: m.fact,
                source_message_id: None,
                session_id: None,
                created_at: event.now,
            },
        ),
        entities::entity_recorded(g, m, node, event).edges == g.edges,
{
    writes::law_found_node_is_there(
        g,
        m.slug,
        m.entity_type,
        names::slug(m.slug),
        Seq::empty(),
        node.id,
        node.now,
    );
}

/// A mention of a relation leads from the entity of the first slug to that of the second, under the
/// normalized name of the relation.
pub proof fn law_relation_leads_from_first_to_second(
    g: GraphView,
    m: RelationView,
    from: Fresh,
    to: Fresh,
)
    requires
        ({
            let a = entities::entity_in(g, m.from_slug, "entity"@, from);
            let b = entities::entity_in(a.0, m.to_slug, "entity"@, to);
            a.1 is Some && b.1 is Some
        }),
    ensures
        ({
            let a = entities::entity_in(g, m.from_slug, "entity"@, from);
            let b = entities::entity_in(a.0, m.to_slug, "entity"@, to);
            let after = entities::relation_recorded(g, m, from, to);
            &&& after.edges.contains(
                EdgeView { from_id: a.1->0, to_id: b.1->0, relation: names::slug(m.relation) },
            )
            &&& after.nodes == b.0.nodes
            &&& after.events == g.events
        }),
{
    let a = entities::entity_in(g, m.from_slug, "entity"@, from);
    let b = entities::entity_in(a.0, m.to_slug, "entity"@, to);
    let e = Seq::<char>::empty();
    let first = names::slug(m.from_slug);
    let second = names::slug(m.to_slug);
    writes::law_found_node_is_there(g, m.from_slug, "entity"@, first, e, from.id, from.now);
    writes::law_found_node_is_there(a.0, m.to_slug, "entity"@, second, e, to.id, to.now);
    let edge = EdgeView { from_id: a.1->0, to_id: b.1->0, relation: names::slug(m.relation) };
    let pushed = b.0.edges.push(edge);
    assert(pushed[b.0.edges.len() as int] == edge);
}

/// What cannot be recorded is skipped: without its entity a mention changes nothing, and without
/// either of its entities a relation adds no edge.
pub proof fn law_what_has_no_room_is_skipped(
    g: GraphView,
    m: MentionView,
    r: RelationView,
    a: Fresh,
    b: Fresh,
)
    ensures
        entities::entity_in(g, m.slug, m.entity_type, a).1 is None ==> entities::entity_recorded(
            g,
            m,
            a,
            b,
        ) == g,
        ({
            let from = entities::entity_in(g, r.from_slug, "entity"@, a);
            let to = entities::entity_in(from.0, r.to_slug, "entity"@, b);
            from.1 is None || to.1 is None ==> entities::relation_recorded(g, r, a, b) == to.0
                && to.0.edges == g.edges
        }),
{
    let e = Seq::<char>::empty();
    let from = entities::entity_in(g, r.from_slug, "entity"@, a);
    if from.1 is Some {
        writes::law_found_node_is_there(
            g,
            r.from_slug,
            "entity"@,
            names::slug(r.from_slug),
            e,
            a.id,
            a.now,
        );
    }
    let to = entities::entity_in(from.0, r.to_slug, "entity"@, b);
    if to.1 is Some {
        writes::law_found_node_is_there(
            from.0,
            r.to_slug,
            "entity"@,
            names::slug(r.to_slug),
            e,
            b.id,
            b.now,
        );
    }
}

/// The entity that a mention finds or creates is the one of its slug: a node that has the slug for
/// its title, or a spelling of it, or else a new one with the normalized slug for its title and the
/// normalized type.
pub proof fn law_mention_is_of_its_slug(
    g: GraphView,
    slug: Seq<char>,
    entity_type: Seq<char>,
    fresh: Fresh,
    i: int,
)
    ensures
        writes::is_first_titled(g.nodes, names::slug(slug), i) || (writes::is_first_spelled(
            g.nodes,
            names::slug(slug),
            i,
        ) && forall|k: int|
            0 <= k < g.nodes.len() ==> (#[trigger] g.nodes[k]).title != names::slug(slug))
            ==> entities::entity_in(g, slug, entity_type, fresh) == (g, Some(g.nodes[i].id)),
        (forall|k: int|
            0 <= k < g.nodes.len() ==> (#[trigger] g.nodes[k]).title != names::slug(slug)
                && names::slug(g.nodes[k].title) != names::slug(slug) && g.nodes[k].id != fresh.id)
            && g.nodes.len() < g.max_nodes ==> {
            let after = entities::entity_in(g, slug, entity_type, fresh);
            &&& after.1 == Some(fresh.id)
            &&& after.0.nodes.len() == g.nodes.len() + 1
            &&& after.0.nodes.last().id == fresh.id
            &&& after.0.nodes.last().title == names::slug(slug)
            &&& after.0.nodes.last().node_type == names::slug(names::slug(entity_type))
        },
{
    let e = Seq::<char>::empty();
    let title = names::slug(slug);
    if writes::is_first_titled(g.nodes, title, i) || (writes::is_first_spelled(g.nodes, title, i)
        && forall|k: int| 0 <= k < g.nodes.len() ==> (#[trigger] g.nodes[k]).title != title) {
        writes::law_slug_finds_its_node(
            g,
            slug,
            entity_type,
            title,
            e,
            fresh.id,
            fresh.now,
            i,
        );
    }
    if forall|k: int|
        0 <= k < g.nodes.len() ==> (#[trigger] g.nodes[k]).title != title && names::slug(
            g.nodes[k].title,
        ) != title && g.nodes[k].id != fresh.id {
        writes::law_new_slug_creates_its_node(
            g,
            slug,
            entity_type,
            title,
            e,
            fresh.id,
            fresh.now,
        );
    }
}

/// Mentions are recorded one after another, every one of them.
pub proof fn law_every_mention_is_recorded(
    g: GraphView,
    ms: Seq<MentionView>,
    fresh: Seq<(Fresh, Fresh)>,
    m: MentionView,
    f: (Fresh, Fresh),
    rs: Seq<RelationView>,
    r: RelationView,
)
    requires
        ms.len() == fresh.len(),
        rs.len() == fresh.len(),
    ensures
        entities::entities_recorded(g, Seq::empty(), Seq::empty()) == g,
        entities::relations_recorded(g, Seq::empty(), Seq::empty()) == g,
        entities::entities_recorded(g, ms.push(m), fresh.push(f)) == entities::entity_recorded(
            entities::entities_recorded(g, ms, fresh),
            m,
            f.0,
            f.1,
        ),
        entities::relations_recorded(g, rs.push(r), fresh.push(f)) == entities::relation_recorded(
            entities::relations_recorded(g, rs, fresh),
            r,
            f.0,
            f.1,
        ),
{
    assert(ms.push(m).drop_last() =~= ms);
    assert(rs.push(r).drop_last() =~= rs);
    assert(fresh.push(f).drop_last() =~= fresh);
}

// ---------------------------------------------------------------------------
// Dream cycle
// ---------------------------------------------------------------------------

/// The line that tells an event: when it was recorded and what it says.
pub open spec fn event_line(e: EventView, now: Seq<char>) -> Seq<char> {
    "- ["@ + clock::shown(
        match clock::rfc3339_in_utc(e.created_at) {
            Some(t) => t,
            None => now,
        },
    ) + "] "@ + e.content + "\n"@
}

/// The lines that tell events, in the reverse of their order.
pub open spec fn told_backwards(events: Seq<EventView>, now: Seq<char>) -> Seq<Seq<char>> {
    Seq::new(events.len(), |i: int| event_line(events[events.len() - 1 - i], now))
}

proof fn lemma_event_lines(events: Seq<EventView>, now: Seq<char>)
    ensures
        dream::event_lines(
            events.map_values(|e: EventView| rows::event_of(e, now)),
        ) == render::joined(told_backwards(events, now), Seq::empty()),
    decreases events.len(),
{
    let e = Seq::<char>::empty();
    let read = events.map_values(
        |e: EventView| rows::event_of(e, now),
    );
    let told = told_backwards(events, now);
    if events.len() > 0 {
        let rest = events.skip(1);
        lemma_event_lines(rest, now);
        assert(read.skip(1) =~= rest.map_values(
            |e: EventView| rows::event_of(e, now),
        ));
        assert(told.drop_last() =~= told_backwards(rest, now));
        let line = event_line(events[0], now);
        assert(told.last() == line);
        assert(read[0].content == events[0].content);
        let before = render::joined(told.drop_last(), e);
        assert(dream::event_lines(read) =~= before + line);
        if told.len() == 1 {
            assert(before =~= e);
            assert(e + line =~= line);
        } else {
            assert(before + e + line =~= before + line);
        }
    }
}

/// The prompt for a node tells every event of the node, each once in a line of its own, the latest
/// last, and no others.
pub proof fn law_prompt_tells_every_event(g: GraphView, node: NodeView, now: Seq<char>)
    requires
        graph::has_node(g.nodes, node.id),
        g.events.len() <= usize::MAX,
        g.events.filter(|e: EventView| e.node_id == node.id).len() > 0,
    ensures
        dream::dream_prompt(g, node, now) == "Synthesize everything known about "@ + node.title
            + " ("@ + node.node_type + "). Preserve all facts and dates.\n\nEvents:\n"@
            + render::joined(
            told_backwards(queries::timeline(g.events, node.id), now),
            Seq::empty(),
        ),
        queries::timeline(g.events, node.id).len() == g.events.filter(
            |e: EventView| e.node_id == node.id,
        ).len(),
{
    let line = queries::timeline(g.events, node.id);
    let own = g.events.filter(|e: EventView| e.node_id == node.id);
    g.events.lemma_filter_len(|e: EventView| e.node_id == node.id);
    ordering::lemma_ordered_range(
        own.len(),
        ordering::later_text(own.map_values(|e: EventView| e.created_at)),
    );
    assert(line.len() == own.len());
    graph::lemma_lookup(g.nodes, node.id);
    lemma_event_lines(line, now);
    let head = "Synthesize everything known about "@ + node.title + " ("@ + node.node_type;
    let lines = render::joined(told_backwards(line, now), Seq::empty());
    assert(head + ("). Preserve all facts and dates.\n\nEvents:\n"@ + lines) =~= head
        + "). Preserve all facts and dates.\n\nEvents:\n"@ + lines);
}

/// Each event of a node stands in the node's prompt.
pub proof fn law_prompt_holds_each_event(g: GraphView, node: NodeView, now: Seq<char>, i: int)
    requires
        g.wf(),
        graph::has_node(g.nodes, node.id),
        g.events.len() <= usize::MAX,
        0 <= i < g.events.len(),
        g.events[i].node_id == node.id,
    ensures
        render::contains_text(dream::dream_prompt(g, node, now), event_line(g.events[i], now)),
{
    let keep = |e: EventView| e.node_id == node.id;
    let own = g.events.filter(keep);
    g.events.lemma_filter_contains(keep, i);
    law_prompt_tells_every_event(g, node, now);
    let line = queries::timeline(g.events, node.id);
    graph_laws::law_timeline_is_latest_first(g.events, node.id);
    assert(g.events.contains(g.events[i]));
    assert(line.contains(g.events[i]));
    let k = choose|k: int| 0 <= k < line.len() && line[k] == g.events[i];
    let told = told_backwards(line, now);
    let at = line.len() - 1 - k;
    assert(told[at] == event_line(g.events[i], now));
    text_laws::law_joined_text_holds_every_part(told, Seq::empty(), at);
    let lines = render::joined(told, Seq::empty());
    let (a, b) = choose|a: Seq<char>, b: Seq<char>| lines == #[trigger] (a + told[at] + b);
    let head = "Synthesize everything known about "@ + node.title + " ("@ + node.node_type
        + "). Preserve all facts and dates.\n\nEvents:\n"@;
    assert(dream::dream_prompt(g, node, now) =~= (head + a) + told[at] + b);
    text_laws::law_text_is_contained(head + a, told[at], b);
}

/// A node without events is said to have none.
pub proof fn law_prompt_of_eventless_node(g: GraphView, node: NodeView, now: Seq<char>)
    requires
        g.events.filter(|e: EventView| e.node_id == node.id).len() == 0,
    ensures
        dream::dream_prompt(g, node, now) == "Synthesize everything known about "@ + node.title
            + " ("@ + node.node_type + ").\n\nNo events recorded yet."@,
{
    let own = g.events.filter(|e: EventView| e.node_id == node.id);
    ordering::lemma_ordered_range(
        own.len(),
        ordering::later_text(own.map_values(|e: EventView| e.created_at)),
    );
    assert(queries::timeline(g.events, node.id).len() == 0);
}

/// A run takes the most recently active of the stale nodes, as many as allowed in a run, or five
/// times as many if there are more stale nodes than that, and none of them is processed yet.
pub proof fn law_run_takes_the_most_recent_stale_nodes(
    g: GraphView,
    max_per_run: nat,
    now: Seq<char>,
)
    ensures
        ({
            let total = g.stale(g.nodes.len(), now).len();
            let run = dream::dream_begun(g, max_per_run, now);
            let allowed = if total > 5 * max_per_run {
                5 * max_per_run
            } else {
                max_per_run
            };
            &&& run.nodes == g.stale(allowed, now)
            &&& run.next == 0
            &&& run.processed == 0
            &&& run.remaining + run.nodes.len() == total
            &&& run.nodes.len() == if total < allowed {
                total
            } else {
                allowed
            }
        }),
{
    let keep = |i: int| queries::is_stale(g.nodes[i]);
    let order = queries::recency(g.nodes);
    order.lemma_filter_len(keep);
    graph_laws::law_recency(g.nodes);
}

/// Taking a node's synthesis goes on to the next node, and counts the node if there was one.
pub proof fn law_each_node_is_taken_once(run: DreamView, synthesized: bool)
    ensures
        dream::dream_next(run, synthesized) == (DreamView {
            nodes: run.nodes,
            next: run.next + 1,
            processed: run.processed + if synthesized {
                1nat
            } else {
                0
            },
            remaining: run.remaining,
        }),
{
}

/// An embedding is stored with four bytes for each number, the lowest first. An empty one is not
/// stored.
pub proof fn law_embedding_bytes(words: Seq<u32>, i: int)
    ensures
        words.len() == 0 ==> dream::stored_embedding(words) is None,
        words.len() > 0 ==> dream::stored_embedding(words) == Some(graph::little_endian(words)),
        graph::little_endian(words).len() == 4 * words.len(),
        0 <= i < words.len() ==> graph::little_endian(words).subrange(4 * i, 4 * i + 4)
            == vstd::bytes::spec_u32_to_le_bytes(words[i]),
    decreases words.len(),
{
    if words.len() > 0 {
        let front = words.drop_last();
        law_embedding_bytes(front, i);
        vstd::bytes::lemma_auto_spec_u32_to_from_le_bytes();
        let all = graph::little_endian(words);
        assert(vstd::bytes::spec_u32_to_le_bytes(words.last()).len() == 4);
        if 0 <= i < front.len() {
            assert(all.subrange(4 * i, 4 * i + 4) =~= graph::little_endian(front).subrange(
                4 * i,
                4 * i + 4,
            ));
        } else if i == front.len() {
            assert(all.subrange(4 * i, 4 * i + 4) =~= vstd::bytes::spec_u32_to_le_bytes(
                words.last(),
            ));
        }
    }
}

/// A stamp is shown with its date, its time and the name of the zone.
pub proof fn law_stamps_are_shown_with_spaces(date: Seq<char>, time: Seq<char>)
    requires
        !date.contains('T'),
        !time.contains('T'),
    ensures
        clock::shown(date + seq!['T'] + time + "+00:00"@) == date + seq![' '] + time + " UTC"@,
{
    reveal_strlit("+00:00");
    let s = date + seq!['T'] + time + "+00:00"@;
    let n = s.len() - 6;
    assert(s.skip(n) =~= "+00:00"@);
    let head = s.take(n);
    let shown = head.map_values(|c: char| if c == 'T' { ' ' } else { c });
    assert forall|i: int| 0 <= i < shown.len() implies #[trigger] shown[i] == (date + seq![' ']
        + time)[i] by {
        if i < date.len() {
            assert(date.contains(date[i]));
        } else if i > date.len() {
            assert(time.contains(time[i - date.len() - 1]));
        }
    }
    assert(shown =~= date + seq![' '] + time);
}

/// A text that does not end with the offset of UTC is shown as it is.
pub proof fn law_other_texts_are_shown_as_they_are(s: Seq<char>)
    requires
        s.len() < 6 || s.skip(s.len() - 6) != "+00:00"@,
    ensures
        clock::shown(s) == s,
{
}

/// A consolidation that is over stays over.
pub proof fn law_finished_turn_stays_finished(
    run: TurnView,
    event: TurnEventView,
    date: Seq<char>,
    id: Seq<char>,
)
    requires
        run.phase is Finished,
    ensures
        run.next(event, date, id).0 == run,
        run.next(event, date, id).1 is Finish,
{
}

} // verus!
