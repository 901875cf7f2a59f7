//! Consolidating a turn: what is asked, what is stored, and in which order.
use crate::clock;
use crate::consolidation::media;
use crate::patterns;
use crate::render;
use crate::text;
use vstd::prelude::*;

verus! {

/// The system prompt that extracts what a turn was about.
pub const CONSOLIDATION_SYSTEM_PROMPT: &'static str =
    "You are a memory consolidation engine. Given a conversation turn, extract:\n1. \"history_entry\": A brief summary of what happened in this turn (1-2 sentences). Include the key topic or action.\n2. \"memory_update\": Any NEW facts, preferences, decisions, or commitments worth remembering long-term. Return null if nothing new was learned.\n\nRespond ONLY with valid JSON: {\"history_entry\": \"...\", \"memory_update\": \"...\" or null}\nDo not include any text outside the JSON object.";

/// The system prompt that extracts the entities and relations of a turn.
pub const ENTITY_EXTRACTION_SYSTEM_PROMPT: &'static str =
    "You are an entity extraction engine. Given a conversation turn, identify named entities (people, projects, technologies, organizations, concepts) and factual relationships between them.\n\nReturn ONLY valid JSON:\n{\n  \"entities\": [\n    {\"entity_type\": \"person|project|technology|...\", \"slug\": \"snake_case_identifier\", \"fact\": \"short fact observed\"}\n  ],\n  \"relations\": [\n    {\"from_slug\": \"slug_a\", \"relation\": \"uses|extends|depends_on|...\", \"to_slug\": \"slug_b\"}\n  ]\n}\n\nRules:\n- slug must be lowercase snake_case, no spaces\n- entity_type must be lowercase\n- Only extract entities clearly mentioned; return empty arrays if nothing notable\n- Keep facts to one sentence\n- Do not include any text outside the JSON";

/// A single entity mention extracted from a conversation turn.
#[derive(Debug)]
pub struct EntityMention {
    /// Free-form entity type (e.g. "person", "project", "technology").
    pub entity_type: String,
    /// Normalized slug identifier (e.g. "alice_smith", "zeroclaw").
    pub slug: String,
    /// Short fact about the entity observed in this turn.
    pub fact: String,
}

/// A directed relation between two entities.
#[derive(Debug)]
pub struct RelationMention {
    pub from_slug: String,
    pub relation: String,
    pub to_slug: String,
}

/// Result of the entity extraction LLM call.
#[derive(Debug)]
pub struct EntityExtractionResult {
    pub entities: Vec<EntityMention>,
    pub relations: Vec<RelationMention>,
}

/// Output of consolidation extraction.
#[derive(Debug)]
pub struct ConsolidationResult {
    /// Brief timestamped summary for the conversation history log.
    pub history_entry: String,
    /// New facts/preferences/decisions to store long-term, or None.
    pub memory_update: Option<String>,
    /// Atomic facts extracted from the turn.
    pub facts: Vec<String>,
    /// Observed trend or pattern.
    pub trend: Option<String>,
}

/// What an extraction holds.
pub ghost struct ExtractView {
    pub history_entry: Seq<char>,
    pub memory_update: Option<Seq<char>>,
    pub facts: Seq<Seq<char>>,
    pub trend: Option<Seq<char>>,
}

impl DeepView for ConsolidationResult {
    type V = ExtractView;

    open spec fn deep_view(&self) -> ExtractView {
        ExtractView {
            history_entry: self.history_entry@,
            memory_update: self.memory_update.deep_view(),
            facts: self.facts.deep_view(),
            trend: self.trend.deep_view(),
        }
    }
}

/// The text of a turn, without media markers.
pub open spec fn turn_text(user: Seq<char>, assistant: Seq<char>) -> Seq<char> {
    "User: "@ + patterns::media_replaced(user, media::attachment()) + "\nAssistant: "@
        + patterns::media_replaced(assistant, media::attachment())
}

/// What is kept of an extraction. Where the response was none, the turn's own text stands for it,
/// cut to 200 bytes.
pub open spec fn kept(decoded: Option<ExtractView>, fallback: Seq<char>) -> ExtractView {
    match decoded {
        Some(r) => r,
        None => ExtractView {
            history_entry: render::truncated(fallback, 200, "…"@),
            memory_update: None,
            facts: Seq::empty(),
            trend: None,
        },
    }
}

/// The text of a turn, without media markers.
pub fn render_turn(user_message: &str, assistant_response: &str) -> (r: String)
    ensures
        r@ == turn_text(user_message@, assistant_response@),
{
    let user = media::strip_media_markers(user_message);
    let assistant = media::strip_media_markers(assistant_response);
    let mut out = "User: ".to_owned();
    out.append(user.as_str());
    out.append("\nAssistant: ");
    out.append(assistant.as_str());
    out
}

/// Parse the LLM's consolidation response, with fallback for malformed JSON. `decoded` is what the
/// response without its code fences decodes to, if it is well-formed.
pub fn parse_consolidation_response(
    decoded: Option<ConsolidationResult>,
    fallback_text: &str,
) -> (r: ConsolidationResult)
    ensures
        r.deep_view() == kept(decoded.deep_view(), fallback_text@),
{
    match decoded {
        Some(r) => r,
        None => {
            let facts: Vec<String> = Vec::new();
            assert(facts.deep_view() =~= Seq::empty());
            ConsolidationResult {
                history_entry: render::truncate_with(fallback_text, 200, "…"),
                memory_update: None,
                facts,
                trend: None,
            }
        },
    }
}

// ---------------------------------------------------------------------------
// The order of things
// ---------------------------------------------------------------------------

/// What a consolidation waits for.
#[derive(Debug)]
pub enum TurnPhase {
    /// The extraction of the turn.
    Extracting,
    /// Word that the daily entry was stored. The update is what may be remembered after it.
    StoringDaily(Option<String>),
    /// Word that conflicts of the update were looked for.
    ResolvingConflicts { key: String, update: String },
    /// Word that the update was stored.
    StoringCore,
    /// The entities of the turn.
    ExtractingEntities,
    /// Nothing.
    Finished,
}

/// What a phase holds.
pub ghost enum TurnPhaseView {
    Extracting,
    StoringDaily(Option<Seq<char>>),
    ResolvingConflicts { key: Seq<char>, update: Seq<char> },
    StoringCore,
    ExtractingEntities,
    Finished,
}

impl DeepView for TurnPhase {
    type V = TurnPhaseView;

    open spec fn deep_view(&self) -> TurnPhaseView {
        match *self {
            TurnPhase::Extracting => TurnPhaseView::Extracting,
            TurnPhase::StoringDaily(u) => TurnPhaseView::StoringDaily(u.deep_view()),
            TurnPhase::ResolvingConflicts { key, update } => TurnPhaseView::ResolvingConflicts {
                key: key@,
                update: update@,
            },
            TurnPhase::StoringCore => TurnPhaseView::StoringCore,
            TurnPhase::ExtractingEntities => TurnPhaseView::ExtractingEntities,
            TurnPhase::Finished => TurnPhaseView::Finished,
        }
    }
}

/// A consolidation under way.
#[derive(Debug)]
pub struct TurnRun {
    /// The text of the turn.
    pub text: String,
    /// Whether there is a knowledge graph to fill.
    pub with_knowledge: bool,
    pub phase: TurnPhase,
}

/// What a consolidation under way holds.
pub ghost struct TurnView {
    pub text: Seq<char>,
    pub with_knowledge: bool,
    pub phase: TurnPhaseView,
}

impl DeepView for TurnRun {
    type V = TurnView;

    open spec fn deep_view(&self) -> TurnView {
        TurnView {
            text: self.text@,
            with_knowledge: self.with_knowledge,
            phase: self.phase.deep_view(),
        }
    }
}

/// What is to be done next for a consolidation.
#[derive(Debug)]
pub enum TurnAction {
    /// Ask for the extraction of the turn, under `CONSOLIDATION_SYSTEM_PROMPT`.
    Extract { prompt: String },
    /// Store the entry of the daily log.
    StoreDaily { key: String, content: String },
    /// Look for core memories that conflict with an update. The update is stored whatever comes
    /// of it.
    ResolveConflicts { key: String, content: String },
    /// Store an update among the core memories.
    StoreCore { key: String, content: String },
    /// Ask for the entities of the turn, under `ENTITY_EXTRACTION_SYSTEM_PROMPT`.
    ExtractEntities { prompt: String },
    /// Record what was extracted in the knowledge graph; the consolidation is over.
    Record(EntityExtractionResult),
    /// The consolidation is over; whether it worked.
    Finish(bool),
}

/// What an action says.
pub ghost enum TurnActionView {
    Extract { prompt: Seq<char> },
    StoreDaily { key: Seq<char>, content: Seq<char> },
    ResolveConflicts { key: Seq<char>, content: Seq<char> },
    StoreCore { key: Seq<char>, content: Seq<char> },
    ExtractEntities { prompt: Seq<char> },
    Record(EntityExtractionResult),
    Finish(bool),
}

impl DeepView for TurnAction {
    type V = TurnActionView;

    open spec fn deep_view(&self) -> TurnActionView {
        match *self {
            TurnAction::Extract { prompt } => TurnActionView::Extract { prompt: prompt@ },
            TurnAction::StoreDaily { key, content } => TurnActionView::StoreDaily {
                key: key@,
                content: content@,
            },
            TurnAction::ResolveConflicts { key, content } => TurnActionView::ResolveConflicts {
                key: key@,
                content: content@,
            },
            TurnAction::StoreCore { key, content } => TurnActionView::StoreCore {
                key: key@,
                content: content@,
            },
            TurnAction::ExtractEntities { prompt } => TurnActionView::ExtractEntities {
                prompt: prompt@,
            },
            TurnAction::Record(e) => TurnActionView::Record(e),
            TurnAction::Finish(ok) => TurnActionView::Finish(ok),
        }
    }
}

/// What came of an action.
#[derive(Debug)]
pub enum TurnEvent {
    /// The call or the store failed.
    Failed,
    /// The store worked, or conflicts were looked for.
    Done,
    /// The response to the extraction, decoded if it was well-formed.
    Extracted(Option<ConsolidationResult>),
    /// The entities, if the response was well-formed.
    Entities(Option<EntityExtractionResult>),
}

/// What an event tells.
pub ghost enum TurnEventView {
    Failed,
    Done,
    Extracted(Option<ExtractView>),
    Entities(Option<EntityExtractionResult>),
}

impl DeepView for TurnEvent {
    type V = TurnEventView;

    open spec fn deep_view(&self) -> TurnEventView {
        match *self {
            TurnEvent::Failed => TurnEventView::Failed,
            TurnEvent::Done => TurnEventView::Done,
            TurnEvent::Extracted(r) => TurnEventView::Extracted(r.deep_view()),
            TurnEvent::Entities(e) => TurnEventView::Entities(e),
        }
    }
}

/// The text that is sent for a turn: cut to 4000 bytes.
pub open spec fn prompt_text(text: Seq<char>) -> Seq<char> {
    render::truncated(text, 4000, "…"@)
}

/// The key of an entry of the daily log.
pub open spec fn daily_key(date: Seq<char>, id: Seq<char>) -> Seq<char> {
    "daily_"@ + date + "_"@ + id
}

/// The key of a core memory.
pub open spec fn core_key(id: Seq<char>) -> Seq<char> {
    "core_"@ + id
}

/// Whether an update is worth remembering: it is more than white space.
pub open spec fn is_update(update: Option<Seq<char>>) -> bool {
    update matches Some(u) && text::trimmed(u).len() > 0
}

impl TurnView {
    /// A consolidation that is over.
    pub open spec fn over(self, ok: bool) -> (TurnView, TurnActionView) {
        (TurnView { phase: TurnPhaseView::Finished, ..self }, TurnActionView::Finish(ok))
    }

    /// The memories are stored: the knowledge graph is next, if there is one.
    pub open spec fn entities_next(self) -> (TurnView, TurnActionView) {
        if self.with_knowledge {
            (
                TurnView { phase: TurnPhaseView::ExtractingEntities, ..self },
                TurnActionView::ExtractEntities { prompt: prompt_text(self.text) },
            )
        } else {
            self.over(true)
        }
    }

    /// What a consolidation does next once an event has come in. `date` and `id` make the key of
    /// what the step stores.
    pub open spec fn next(self, event: TurnEventView, date: Seq<char>, id: Seq<char>) -> (
        TurnView,
        TurnActionView,
    ) {
        match self.phase {
            TurnPhaseView::Extracting => match event {
                TurnEventView::Extracted(decoded) => {
                    let found = kept(decoded, self.text);
                    (
                        TurnView {
                            phase: TurnPhaseView::StoringDaily(found.memory_update),
                            ..self
                        },
                        TurnActionView::StoreDaily {
                            key: daily_key(date, id),
                            content: found.history_entry,
                        },
                    )
                },
                _ => self.over(false),
            },
            TurnPhaseView::StoringDaily(update) => if !(event is Done) {
                self.over(false)
            } else if is_update(update) {
                (
                    TurnView {
                        phase: TurnPhaseView::ResolvingConflicts {
                            key: core_key(id),
                            update: update->0,
                        },
                        ..self
                    },
                    TurnActionView::ResolveConflicts { key: core_key(id), content: update->0 },
                )
            } else {
                self.entities_next()
            },
            TurnPhaseView::ResolvingConflicts { key, update } => (
                TurnView { phase: TurnPhaseView::StoringCore, ..self },
                TurnActionView::StoreCore { key, content: update },
            ),
            TurnPhaseView::StoringCore => if event is Done {
                self.entities_next()
            } else {
                self.over(false)
            },
            TurnPhaseView::ExtractingEntities => match event {
                TurnEventView::Entities(Some(found)) => (
                    TurnView { phase: TurnPhaseView::Finished, ..self },
                    TurnActionView::Record(found),
                ),
                _ => self.over(true),
            },
            TurnPhaseView::Finished => self.over(true),
        }
    }
}

impl TurnRun {
    fn in_phase(self, phase: TurnPhase) -> (r: TurnRun)
        ensures
            r.deep_view() == (TurnView { phase: phase.deep_view(), ..self.deep_view() }),
    {
        TurnRun { text: self.text, with_knowledge: self.with_knowledge, phase }
    }

    fn finish(self, ok: bool) -> (r: (TurnRun, TurnAction))
        ensures
            (r.0.deep_view(), r.1.deep_view()) == self.deep_view().over(ok),
    {
        (self.in_phase(TurnPhase::Finished), TurnAction::Finish(ok))
    }

    /// The text that is sent for the turn.
    fn prompt(&self) -> (r: String)
        ensures
            r@ == prompt_text(self.text@),
    {
        render::truncate_with(self.text.as_str(), 4000, "…")
    }

    fn go_to_entities(self) -> (r: (TurnRun, TurnAction))
        ensures
            (r.0.deep_view(), r.1.deep_view()) == self.deep_view().entities_next(),
    {
        if self.with_knowledge {
            let prompt = self.prompt();
            (
                self.in_phase(TurnPhase::ExtractingEntities),
                TurnAction::ExtractEntities { prompt },
            )
        } else {
            self.finish(true)
        }
    }

    /// Begin the consolidation of a turn: ask for its extraction.
    pub fn begin(user_message: &str, assistant_response: &str, with_knowledge: bool) -> (r: (
        TurnRun,
        TurnAction,
    ))
        ensures
            r.0.deep_view() == (TurnView {
                text: turn_text(user_message@, assistant_response@),
                with_knowledge,
                phase: TurnPhaseView::Extracting,
            }),
            r.1.deep_view() == (TurnActionView::Extract {
                prompt: prompt_text(turn_text(user_message@, assistant_response@)),
            }),
    {
        let run = TurnRun {
            text: render_turn(user_message, assistant_response),
            with_knowledge,
            phase: TurnPhase::Extracting,
        };
        let prompt = run.prompt();
        (run, TurnAction::Extract { prompt })
    }

    /// Carry a consolidation one step further, with a given date and identifier for the key of
    /// what the step stores.
    pub fn step_with(self, event: TurnEvent, date: &str, id: &str) -> (r: (TurnRun, TurnAction))
        ensures
            (r.0.deep_view(), r.1.deep_view()) == self.deep_view().next(
                event.deep_view(),
                date@,
                id@,
            ),
    {
        let TurnRun { text, with_knowledge, phase } = self;
        let rest = TurnRun { text, with_knowledge, phase: TurnPhase::Finished };
        match phase {
            TurnPhase::Extracting => match event {
                TurnEvent::Extracted(decoded) => {
                    let found = parse_consolidation_response(decoded, rest.text.as_str());
                    let mut key = "daily_".to_owned();
                    key.append(date);
                    key.append("_");
                    key.append(id);
                    (
                        rest.in_phase(TurnPhase::StoringDaily(found.memory_update)),
                        TurnAction::StoreDaily { key, content: found.history_entry },
                    )
                },
                _ => rest.finish(false),
            },
            TurnPhase::StoringDaily(update) => match event {
                TurnEvent::Done => {
                    match update {
                        Some(u) => {
                            let worth = text::trim(u.as_str());
                            if worth.as_str().is_empty() {
                                rest.go_to_entities()
                            } else {
                                let mut key = "core_".to_owned();
                                key.append(id);
                                let action = TurnAction::ResolveConflicts {
                                    key: key.clone(),
                                    content: u.clone(),
                                };
                                (
                                    rest.in_phase(
                                        TurnPhase::ResolvingConflicts { key, update: u },
                                    ),
                                    action,
                                )
                            }
                        },
                        None => rest.go_to_entities(),
                    }
                },
                _ => rest.finish(false),
            },
            TurnPhase::ResolvingConflicts { key, update } => (
                rest.in_phase(TurnPhase::StoringCore),
                TurnAction::StoreCore { key, content: update },
            ),
            TurnPhase::StoringCore => match event {
                TurnEvent::Done => rest.go_to_entities(),
                _ => rest.finish(false),
            },
            TurnPhase::ExtractingEntities => match event {
                TurnEvent::Entities(Some(found)) => (rest, TurnAction::Record(found)),
                _ => rest.finish(true),
            },
            TurnPhase::Finished => rest.finish(true),
        }
    }

    /// Carry a consolidation one step further.
    pub fn step(self, event: TurnEvent) -> (r: (TurnRun, TurnAction))
        ensures
            exists|date: Seq<char>, id: Seq<char>|
                clock::is_date(date) && clock::is_identifier(id) && (
                    r.0.deep_view(),
                    r.1.deep_view(),
                ) == #[trigger] self.deep_view().next(event.deep_view(), date, id),
    {
        let date = clock::today();
        let id = clock::new_id();
        self.step_with(event, date.as_str(), id.as_str())
    }
}

// ---------------------------------------------------------------------------
// Laws
// ---------------------------------------------------------------------------

/// What is sent of each message holds no media marker.
pub proof fn law_sent_messages_hold_no_marker(
    user: Seq<char>,
    assistant: Seq<char>,
    i: int,
    j: int,
)
    requires
        0 <= i <= patterns::media_replaced(user, media::attachment()).len(),
        0 <= j <= patterns::media_replaced(assistant, media::attachment()).len(),
    ensures
        turn_text(user, assistant) == "User: "@ + patterns::media_replaced(
            user,
            media::attachment(),
        ) + "\nAssistant: "@ + patterns::media_replaced(assistant, media::attachment()),
        !patterns::is_marker(patterns::media_replaced(user, media::attachment()).skip(i)),
        !patterns::is_marker(patterns::media_replaced(assistant, media::attachment()).skip(j)),
{
    media::law_no_marker_is_left(user, i);
    media::law_no_marker_is_left(assistant, j);
}

/// Local paths never leak: the text of a turn, and with it everything that is sent or stored of the
/// turn itself, does not depend on what a media marker in either message holds.
pub proof fn law_turn_tells_no_path(
    head: Seq<char>,
    kind: Seq<char>,
    path: Seq<char>,
    other: Seq<char>,
    tail: Seq<char>,
    message: Seq<char>,
)
    requires
        patterns::is_kind(kind),
        !path.contains(']'),
        !other.contains(']'),
    ensures
        turn_text(head + patterns::marker(kind, path) + tail, message) == turn_text(
            head + patterns::marker(kind, other) + tail,
            message,
        ),
        turn_text(message, head + patterns::marker(kind, path) + tail) == turn_text(
            message,
            head + patterns::marker(kind, other) + tail,
        ),
{
    media::law_paths_are_not_told(head, kind, path, other, tail);
}

/// How many steps a consolidation still takes at most.
pub open spec fn turn_steps_left(phase: TurnPhaseView) -> nat {
    match phase {
        TurnPhaseView::Extracting => 5,
        TurnPhaseView::StoringDaily(u) => 4,
        TurnPhaseView::ResolvingConflicts { key, update } => 3,
        TurnPhaseView::StoringCore => 2,
        TurnPhaseView::ExtractingEntities => 1,
        TurnPhaseView::Finished => 0,
    }
}

/// Consolidation always terminates: each step brings it nearer to its end.
pub proof fn law_consolidation_terminates(
    run: TurnView,
    event: TurnEventView,
    date: Seq<char>,
    id: Seq<char>,
)
    requires
        !(run.phase is Finished),
    ensures
        turn_steps_left(run.next(event, date, id).0.phase) < turn_steps_left(run.phase),
{
}

/// An update is stored even if the search for conflicts failed, under the key that was searched.
pub proof fn law_conflict_check_never_blocks(
    run: TurnView,
    event: TurnEventView,
    date: Seq<char>,
    id: Seq<char>,
)
    requires
        run.phase is ResolvingConflicts,
    ensures
        run.next(event, date, id).1 == (TurnActionView::StoreCore {
            key: run.phase->ResolvingConflicts_key,
            content: run.phase->ResolvingConflicts_update,
        }),
{
}

/// A consolidation that has come to the entities ends with its next step, and as a success
/// whatever comes of them.
pub proof fn law_entities_never_fail_a_turn(
    run: TurnView,
    event: TurnEventView,
    date: Seq<char>,
    id: Seq<char>,
)
    requires
        run.phase is ExtractingEntities,
    ensures
        run.next(event, date, id).0.phase is Finished,
        run.next(event, date, id).1 != TurnActionView::Finish(false),
{
}

} // verus!
