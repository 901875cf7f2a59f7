//! `lcm_grep` tool — regex search over verbatim conversation history.
//!
//! Allows the agent to do forensic searches over the full message log, annotated with whether
//! each message has been covered by a summary (compacted) or is still "active" in the window.
use crate::render;
use vstd::prelude::*;

verus! {

/// Maximum results the tool will ever return, regardless of caller input.
pub const MAX_LIMIT: u64 = 50;

/// The results that the tool returns when the caller names no limit.
pub const DEFAULT_LIMIT: u64 = 20;

/// Regex search over the full verbatim conversation history.
#[derive(Debug)]
pub struct LcmGrepTool<S> {
    pub sqlite: S,
}

/// What the caller asks for: each parameter as far as it is there and of its type.
#[derive(Debug)]
pub struct GrepArgs {
    pub pattern: Option<String>,
    pub session_id: Option<String>,
    pub limit: Option<u64>,
}

/// A search of the message log.
#[derive(Debug)]
pub struct GrepRequest {
    pub pattern: String,
    pub session_id: Option<String>,
    pub limit: usize,
}

/// What a search asks for.
pub ghost struct RequestView {
    pub pattern: Seq<char>,
    pub session_id: Option<Seq<char>>,
    pub limit: nat,
}

impl DeepView for GrepRequest {
    type V = RequestView;

    open spec fn deep_view(&self) -> RequestView {
        RequestView {
            pattern: self.pattern@,
            session_id: self.session_id.deep_view(),
            limit: self.limit as nat,
        }
    }
}

/// A message that a search found.
#[derive(Debug)]
pub struct GrepEntry {
    pub created_at: String,
    pub role: String,
    pub content: String,
    /// The summary that covers the message, if it was compacted.
    pub summary_id: Option<String>,
}

/// What a found message holds.
pub ghost struct GrepView {
    pub created_at: Seq<char>,
    pub role: Seq<char>,
    pub content: Seq<char>,
    pub summary_id: Option<Seq<char>>,
}

impl DeepView for GrepEntry {
    type V = GrepView;

    open spec fn deep_view(&self) -> GrepView {
        GrepView {
            created_at: self.created_at@,
            role: self.role@,
            content: self.content@,
            summary_id: self.summary_id.deep_view(),
        }
    }
}

/// The answer of the tool.
#[derive(Debug)]
pub struct ToolResult {
    pub success: bool,
    pub output: String,
    pub error: Option<String>,
}

/// What an answer says.
pub ghost struct ToolView {
    pub success: bool,
    pub output: Seq<char>,
    pub error: Option<Seq<char>>,
}

impl DeepView for ToolResult {
    type V = ToolView;

    open spec fn deep_view(&self) -> ToolView {
        ToolView {
            success: self.success,
            output: self.output@,
            error: self.error.deep_view(),
        }
    }
}

/// How many results are asked for: the caller's limit up to the maximum, or the default.
pub open spec fn granted(limit: Option<u64>) -> nat {
    match limit {
        Some(n) => if n <= MAX_LIMIT {
            n as nat
        } else {
            MAX_LIMIT as nat
        },
        None => DEFAULT_LIMIT as nat,
    }
}

/// An answer that something failed.
pub open spec fn failed(error: Seq<char>) -> ToolView {
    ToolView { success: false, output: Seq::empty(), error: Some(error) }
}

/// Whether a message was compacted, in words.
pub open spec fn annotation(summary_id: Option<Seq<char>>) -> Seq<char> {
    match summary_id {
        Some(id) => "covered by summary "@ + id,
        None => "active"@,
    }
}

/// A found message in the output.
pub open spec fn entry_text(e: GrepView) -> Seq<char> {
    "["@ + e.created_at + "] "@ + e.role + ": "@ + e.content + "\n("@ + annotation(e.summary_id)
        + ")\n\n"@
}

/// The found messages in the output.
pub open spec fn entries_text(entries: Seq<GrepView>) -> Seq<char>
    decreases entries.len(),
{
    if entries.len() == 0 {
        Seq::empty()
    } else {
        entries_text(entries.drop_last()) + entry_text(entries.last())
    }
}

/// The answer for what a search found.
pub open spec fn found(pattern: Seq<char>, entries: Seq<GrepView>) -> ToolView {
    ToolView {
        success: true,
        output: if entries.len() == 0 {
            "No messages matched pattern `"@ + pattern + "`."@
        } else {
            render::decimal(entries.len()) + " result(s) for pattern `"@ + pattern + "`:\n\n"@
                + entries_text(entries)
        },
        error: None,
    }
}

fn fail(error: String) -> (r: ToolResult)
    ensures
        r.deep_view() == failed(error@),
{
    let output = String::new();
    assert(output@ =~= Seq::empty());
    ToolResult { success: false, output, error: Some(error) }
}

fn push_entry(out: &mut String, e: &GrepEntry)
    ensures
        final(out)@ == old(out)@ + entry_text(e.deep_view()),
{
    let ghost before = out@;
    out.append("[");
    out.append(e.created_at.as_str());
    out.append("] ");
    out.append(e.role.as_str());
    out.append(": ");
    out.append(e.content.as_str());
    out.append("\n(");
    match &e.summary_id {
        Some(id) => {
            out.append("covered by summary ");
            out.append(id.as_str());
        },
        None => {
            out.append("active");
        },
    }
    out.append(")\n\n");
    assert(out@ =~= before + entry_text(e.deep_view()));
}

impl<S> LcmGrepTool<S> {
    pub fn new(sqlite: S) -> (r: LcmGrepTool<S>)
        ensures
            r.sqlite == sqlite,
    {
        LcmGrepTool { sqlite }
    }

    pub fn name(&self) -> (r: &'static str)
        ensures
            r@ == "lcm_grep"@,
    {
        "lcm_grep"
    }

    pub fn description(&self) -> (r: &'static str)
        ensures
            r@ == "Regex search over the full verbatim conversation history stored in the message log. Returns matching messages annotated with whether each has been compacted into a summary or is still active in the context window."@,
    {
        "Regex search over the full verbatim conversation history stored in the message log. Returns matching messages annotated with whether each has been compacted into a summary or is still active in the context window."
    }

    /// The schema of the parameters, as JSON text.
    pub fn parameters_schema(&self) -> (r: &'static str)
        ensures
            r@ == "{\"type\":\"object\",\"properties\":{\"pattern\":{\"type\":\"string\",\"description\":\"Regular expression pattern to search message content (validated before executing)\"},\"session_id\":{\"type\":\"string\",\"description\":\"Filter results to a specific session ID (optional)\"},\"limit\":{\"type\":\"integer\",\"description\":\"Maximum number of results to return (default 20, max 50)\",\"minimum\":1,\"maximum\":50}},\"required\":[\"pattern\"]}"@,
    {
        "{\"type\":\"object\",\"properties\":{\"pattern\":{\"type\":\"string\",\"description\":\"Regular expression pattern to search message content (validated before executing)\"},\"session_id\":{\"type\":\"string\",\"description\":\"Filter results to a specific session ID (optional)\"},\"limit\":{\"type\":\"integer\",\"description\":\"Maximum number of results to return (default 20, max 50)\",\"minimum\":1,\"maximum\":50}},\"required\":[\"pattern\"]}"
    }

    /// The search that the arguments ask for, or the answer that a parameter is missing.
    pub fn request(&self, args: GrepArgs) -> (r: Result<GrepRequest, ToolResult>)
        ensures
            match args.pattern {
                Some(p) => r matches Ok(req) && req.deep_view() == (RequestView {
                    pattern: p@,
                    session_id: args.session_id.deep_view(),
                    limit: granted(args.limit),
                }),
                None => r matches Err(e) && e.deep_view() == failed(
                    "missing required parameter 'pattern'"@,
                ),
            },
    {
        let limit: u64 = match args.limit {
            Some(n) => if n <= MAX_LIMIT {
                n
            } else {
                MAX_LIMIT
            },
            None => DEFAULT_LIMIT,
        };
        match args.pattern {
            Some(pattern) => Ok(
                GrepRequest { pattern, session_id: args.session_id, limit: limit as usize },
            ),
            None => Err(fail("missing required parameter 'pattern'".to_owned())),
        }
    }

    /// The answer for what a search came to: the messages that it found, or the error that it
    /// ended in.
    pub fn respond(&self, pattern: &str, outcome: Result<Vec<GrepEntry>, String>) -> (r: ToolResult)
        ensures
            r.deep_view() == match outcome {
                Ok(entries) => found(pattern@, entries.deep_view()),
                Err(e) => failed("lcm_grep failed: "@ + e@),
            },
    {
        match outcome {
            Ok(entries) => {
                let ghost all = entries.deep_view();
                if entries.len() == 0 {
                    let mut output = "No messages matched pattern `".to_owned();
                    output.append(pattern);
                    output.append("`.");
                    return ToolResult { success: true, output, error: None };
                }
                let mut output = String::new();
                render::push_decimal(&mut output, entries.len() as u64);
                output.append(" result(s) for pattern `");
                output.append(pattern);
                output.append("`:\n\n");
                let ghost head = output@;
                assert(head =~= render::decimal(all.len()) + " result(s) for pattern `"@ + pattern@
                    + "`:\n\n"@);
                let mut i: usize = 0;
                proof {
                    assert(all.take(0) =~= Seq::empty());
                    assert(head + entries_text(all.take(0)) =~= head);
                }
                while i < entries.len()
                    invariant
                        i <= entries@.len(),
                        all == entries.deep_view(),
                        output@ == head + entries_text(all.take(i as int)),
                    decreases entries@.len() - i,
                {
                    proof {
                        assert(all.take(i + 1).drop_last() =~= all.take(i as int));
                        assert(all.take(i + 1).last() == entries@[i as int].deep_view());
                    }
                    push_entry(&mut output, &entries[i]);
                    i += 1;
                    assert(output@ =~= head + entries_text(all.take(i as int)));
                }
                assert(all.take(all.len() as int) =~= all);
                ToolResult { success: true, output, error: None }
            },
            Err(e) => {
                let mut error = "lcm_grep failed: ".to_owned();
                error.append(e.as_str());
                fail(error)
            },
        }
    }
}

/// Whatever the caller asks for, no search is for more than the maximum.
pub proof fn law_limit_is_capped(limit: Option<u64>)
    ensures
        granted(limit) <= MAX_LIMIT,
        limit matches Some(n) ==> (n <= MAX_LIMIT ==> granted(limit) == n),
{
}

/// The output of a search names the pattern and holds every found message.
pub proof fn law_output_holds_every_entry(pattern: Seq<char>, entries: Seq<GrepView>, i: int)
    requires
        0 <= i < entries.len(),
    ensures
        found(pattern, entries).success,
        render::contains_text(found(pattern, entries).output, entry_text(entries[i])),
{
    let head = render::decimal(entries.len()) + " result(s) for pattern `"@ + pattern + "`:\n\n"@;
    let at = lemma_entry_stands(entries, i);
    let out = found(pattern, entries).output;
    let body = entries_text(entries);
    let n = entry_text(entries[i]).len();
    assert(out =~= head + body);
    assert(out.subrange(head.len() + at, head.len() + at + n) =~= body.subrange(at, at + n));
    assert(render::occurs_at(out, entry_text(entries[i]), head.len() + at));
}

proof fn lemma_entry_stands(entries: Seq<GrepView>, i: int) -> (at: int)
    requires
        0 <= i < entries.len(),
    ensures
        render::occurs_at(entries_text(entries), entry_text(entries[i]), at),
    decreases entries.len(),
{
    let front = entries.drop_last();
    let body = entries_text(front);
    let whole = entries_text(entries);
    let last = entry_text(entries.last());
    if i == entries.len() - 1 {
        assert(whole.subrange(body.len() as int, (body.len() + last.len()) as int) =~= last);
        body.len() as int
    } else {
        let at = lemma_entry_stands(front, i);
        let n = entry_text(entries[i]).len();
        assert(front[i] == entries[i]);
        assert(whole.subrange(at, at + n) =~= body.subrange(at, at + n));
        at
    }
}

/// The number of results that is asked for is twenty if none is given, fifty at most, and otherwise
/// as given.
pub proof fn law_limit_defaults_to_twenty(n: u64)
    ensures
        granted(None) == 20,
        n <= 50 ==> granted(Some(n)) == n,
        n > 50 ==> granted(Some(n)) == 50,
{
}

/// A result tells when a message was written, by whom and what it says, and whether it is covered by
/// a summary.
pub proof fn law_entry_tells_its_message(e: GrepView)
    ensures
        e.summary_id matches Some(id) ==> entry_text(e) == "["@ + e.created_at + "] "@ + e.role
            + ": "@ + e.content + "\n("@ + ("covered by summary "@ + id) + ")\n\n"@,
        e.summary_id is None ==> entry_text(e) == "["@ + e.created_at + "] "@ + e.role + ": "@
            + e.content + "\n("@ + "active"@ + ")\n\n"@,
{
}

/// The output counts the results and tells them one after another, in their order. Without any it
/// says so. A failure has no output but a message.
pub proof fn law_output_tells_results_in_order(
    pattern: Seq<char>,
    entries: Seq<GrepView>,
    e: GrepView,
    error: Seq<char>,
)
    ensures
        found(pattern, Seq::empty()) == (ToolView {
            success: true,
            output: "No messages matched pattern `"@ + pattern + "`."@,
            error: None,
        }),
        found(pattern, entries.push(e)) == (ToolView {
            success: true,
            output: render::decimal(entries.len() + 1) + " result(s) for pattern `"@ + pattern
                + "`:\n\n"@ + (entries_text(entries) + entry_text(e)),
            error: None,
        }),
        entries_text(Seq::<GrepView>::empty()) == Seq::<char>::empty(),
        entries_text(entries.push(e)) == entries_text(entries) + entry_text(e),
        !failed(error).success,
        failed(error).output.len() == 0,
        failed(error).error == Some(error),
{
    assert(entries.push(e).drop_last() =~= entries);
}

} // verus!
