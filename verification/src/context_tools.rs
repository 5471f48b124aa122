//! The context engine's tools: `codebase_retrieval`, `enhance_prompt` and
//! `rerank_context`, all running on the session's own model.
//!
//! The caller resolves the provider, reads the workspace and talks to the
//! model; this module decides what the arguments mean and what each tool
//! answers.

use vstd::prelude::*;

use crate::budget::{Budget, DEFAULT_TOTAL_BUDGET};
use crate::enhance::{status_name, Enhancement};
use crate::rerank::{Chunk, Message};
use crate::text::{append_chars, chars_of, decimal, decimal_u64, join, string_of, views};

verus! {

pub const EXTENSION_NAME: &'static str = "context_engine";

pub const RETRIEVAL_TOOL: &'static str = "codebase_retrieval";

pub const ENHANCE_TOOL: &'static str = "enhance_prompt";

pub const RERANK_TOOL: &'static str = "rerank_context";

/// Files a workspace may hold before it is refused as too large.
pub const MAX_TRACKABLE_FILES: usize = 50000;

/// Hits returned by a retrieval before budgeting.
pub const MAX_HITS: usize = 40;

/// Bytes per chunk when reranking.
pub const CHUNK_CHARS: usize = 4000;

/// The tools of the context engine.
#[derive(Debug, Clone, Copy, PartialEq, Eq, Structural)]
pub enum ContextTool {
    Retrieval,
    Enhance,
    Rerank,
}

/// The tool called `name`, or the reply for a tool that does not exist.
pub fn which_tool(name: &str) -> (r: Result<ContextTool, String>)
    ensures
        name@ == RETRIEVAL_TOOL@ ==> r == Ok::<ContextTool, String>(ContextTool::Retrieval),
        name@ != RETRIEVAL_TOOL@ && name@ == ENHANCE_TOOL@ ==> r == Ok::<ContextTool, String>(
            ContextTool::Enhance,
        ),
        name@ != RETRIEVAL_TOOL@ && name@ != ENHANCE_TOOL@ && name@ == RERANK_TOOL@ ==> r == Ok::<
            ContextTool,
            String,
        >(ContextTool::Rerank),
        name@ != RETRIEVAL_TOOL@ && name@ != ENHANCE_TOOL@ && name@ != RERANK_TOOL@ ==> (r matches Err(
            m,
        ) && m@ == "Unknown tool: "@ + name@),
{
    let n = chars_of(name);
    if crate::text::eq_str(n.as_slice(), RETRIEVAL_TOOL) {
        Ok(ContextTool::Retrieval)
    } else if crate::text::eq_str(n.as_slice(), ENHANCE_TOOL) {
        Ok(ContextTool::Enhance)
    } else if crate::text::eq_str(n.as_slice(), RERANK_TOOL) {
        Ok(ContextTool::Rerank)
    } else {
        let mut v = chars_of("Unknown tool: ");
        append_chars(&mut v, n.as_slice());
        Err(string_of(v.as_slice()))
    }
}

/// The reply for a call missing the required argument `name`.
pub fn required(name: &str) -> (r: String)
    ensures
        r@ == name@ + " is required"@,
{
    let mut v = chars_of(name);
    append_chars(&mut v, chars_of(" is required").as_slice());
    string_of(v.as_slice())
}

/// The retrieval budget: the `budget` argument, all for the codebase, or the
/// default.
pub fn retrieval_budget(arg: Option<u64>) -> (r: Budget)
    ensures
        match arg {
            Some(v) => r.total == v as usize && r.codebase == v as usize && r.conversation == 0,
            None => r.total == DEFAULT_TOTAL_BUDGET && r.codebase == DEFAULT_TOTAL_BUDGET
                && r.conversation == 0,
        },
{
    match arg {
        Some(v) => Budget::split(#[verifier::truncate] (v as usize), 0),
        None => Budget::default_budget(),
    }
}

/// The reply to a retrieval: the budgeted text, then a line of counts.
pub open spec fn retrieval_text(out: Seq<char>, files: nat, hits: nat, truncated: bool) -> Seq<char> {
    out + "\n\n[files indexed: "@ + decimal(files) + " | hits: "@ + decimal(hits) + " | truncated: "@
        + (if truncated {
        "true"@
    } else {
        "false"@
    }) + "]"@
}

pub fn retrieval_report(out: &str, files: usize, hits: usize, truncated: bool) -> (r: String)
    ensures
        r@ == retrieval_text(out@, files as nat, hits as nat, truncated),
{
    let mut v = chars_of(out);
    append_chars(&mut v, chars_of("\n\n[files indexed: ").as_slice());
    append_chars(&mut v, decimal_u64(files as u64).as_slice());
    append_chars(&mut v, chars_of(" | hits: ").as_slice());
    append_chars(&mut v, decimal_u64(hits as u64).as_slice());
    append_chars(&mut v, chars_of(" | truncated: ").as_slice());
    append_chars(&mut v, chars_of(if truncated { "true" } else { "false" }).as_slice());
    append_chars(&mut v, chars_of("]").as_slice());
    string_of(v.as_slice())
}

/// The reply to `enhance_prompt`: status, whether it was enhanced, the
/// error if any, then the prompt to use.
pub open spec fn enhance_text(e: Enhancement) -> Seq<char> {
    "status: "@ + status_name(e.status) + "\nenhanced: "@ + (if e.was_enhanced {
        "true"@
    } else {
        "false"@
    }) + "\n"@ + (match e.error_message {
        Some(m) => "error: "@ + m@ + "\n"@,
        None => Seq::<char>::empty(),
    }) + "\n"@ + e.prompt@
}

pub fn enhance_report(e: &Enhancement) -> (r: String)
    ensures
        r@ == enhance_text(*e),
{
    let mut v = chars_of("status: ");
    append_chars(&mut v, chars_of(e.status.as_str()).as_slice());
    append_chars(&mut v, chars_of("\nenhanced: ").as_slice());
    append_chars(&mut v, chars_of(if e.was_enhanced { "true" } else { "false" }).as_slice());
    append_chars(&mut v, chars_of("\n").as_slice());
    match &e.error_message {
        Some(m) => {
            append_chars(&mut v, chars_of("error: ").as_slice());
            append_chars(&mut v, chars_of(m.as_str()).as_slice());
            append_chars(&mut v, chars_of("\n").as_slice());
        },
        None => {},
    }
    append_chars(&mut v, chars_of("\n").as_slice());
    append_chars(&mut v, chars_of(e.prompt.as_str()).as_slice());
    string_of(v.as_slice())
}

/// The chunk passed to `rerank_context` as a message: role `chunk`, its text
/// (empty when absent) and timestamp (0 when absent).
pub fn message_for_chunk(text: Option<String>, timestamp_ms: Option<i64>) -> (r: Message)
    ensures
        r.role@ == "chunk"@,
        r.content@ == match text {
            Some(t) => t@,
            None => Seq::<char>::empty(),
        },
        r.timestamp_ms == match timestamp_ms {
            Some(t) => t,
            None => 0,
        },
{
    Message {
        role: "chunk".to_owned(),
        content: match text {
            Some(t) => t,
            None => String::new(),
        },
        timestamp_ms: match timestamp_ms {
            Some(t) => t,
            None => 0,
        },
    }
}

/// `m` is what `rerank_context` makes of the chunk argument `c`, given as its
/// `text` and `timestamp_ms` where they are present.
pub open spec fn chunk_message(c: (Option<String>, Option<i64>), m: Message) -> bool {
    &&& m.role@ == "chunk"@
    &&& m.content@ == match c.0 {
        Some(t) => t@,
        None => Seq::<char>::empty(),
    }
    &&& m.timestamp_ms == match c.1 {
        Some(t) => t,
        None => 0,
    }
}

/// The messages that `rerank_context` ranks, from its `chunks` argument
/// (`None` when that argument is missing or not an array): the error
/// `chunks must be an array` for `None`, else one message per element, in
/// order.
pub fn rerank_messages(chunks: Option<Vec<(Option<String>, Option<i64>)>>) -> (r: Result<
    Vec<Message>,
    String,
>)
    ensures
        chunks is None <==> r is Err,
        r matches Err(e) ==> e@ == "chunks must be an array"@,
        chunks matches Some(cs) ==> (r matches Ok(ms) && ms@.len() == cs@.len() && forall|i: int|
            0 <= i < cs@.len() ==> #[trigger] chunk_message(cs@[i], ms@[i])),
{
    match chunks {
        None => Err("chunks must be an array".to_owned()),
        Some(cs) => {
            let mut ms: Vec<Message> = Vec::new();
            let mut k: usize = 0;
            while k < cs.len()
                invariant
                    k <= cs@.len(),
                    ms@.len() == k,
                    forall|i: int| 0 <= i < k ==> #[trigger] chunk_message(cs@[i], ms@[i]),
                decreases cs@.len() - k,
            {
                let text = match &cs[k].0 {
                    Some(t) => Some(t.clone()),
                    None => None,
                };
                let m = message_for_chunk(text, cs[k].1);
                ms.push(m);
                assert(chunk_message(cs@[k as int], ms@[k as int]));
                k = k + 1;
            }
            Ok(ms)
        },
    }
}

pub open spec fn chunk_texts(cs: Seq<Chunk>) -> Seq<Seq<char>> {
    cs.map_values(|c: Chunk| c.text@)
}

/// The reply to `rerank_context`: how many chunks were kept, then their
/// texts, or a note that nothing was relevant.
pub open spec fn rerank_text(ranked: Seq<Chunk>, before: nat) -> Seq<char> {
    let body = join(chunk_texts(ranked), "\n\n---\n\n"@);
    "kept "@ + decimal(ranked.len()) + "/"@ + decimal(before) + " chunks (ranked)\n\n"@ + if body.len()
        == 0 {
        "(nothing relevant)"@
    } else {
        body
    }
}

pub fn rerank_report(ranked: &[Chunk], before: usize) -> (r: String)
    ensures
        r@ == rerank_text(ranked@, before as nat),
{
    let mut texts: Vec<Vec<char>> = Vec::new();
    let mut k: usize = 0;
    while k < ranked.len()
        invariant
            k <= ranked@.len(),
            views(texts@) == chunk_texts(ranked@).take(k as int),
        decreases ranked@.len() - k,
    {
        let ghost before_v = views(texts@);
        let t = chars_of(ranked[k].text.as_str());
        texts.push(t);
        assert(views(texts@) =~= before_v.push(t@));
        assert(chunk_texts(ranked@).take(k + 1) =~= chunk_texts(ranked@).take(k as int).push(
            ranked@[k as int].text@,
        ));
        k = k + 1;
    }
    assert(chunk_texts(ranked@).take(k as int) =~= chunk_texts(ranked@));
    let body = crate::text::join_chars(&texts, chars_of("\n\n---\n\n").as_slice());
    let mut v = chars_of("kept ");
    append_chars(&mut v, decimal_u64(ranked.len() as u64).as_slice());
    append_chars(&mut v, chars_of("/").as_slice());
    append_chars(&mut v, decimal_u64(before as u64).as_slice());
    append_chars(&mut v, chars_of(" chunks (ranked)\n\n").as_slice());
    if body.len() == 0 {
        append_chars(&mut v, chars_of("(nothing relevant)").as_slice());
    } else {
        append_chars(&mut v, body.as_slice());
    }
    string_of(v.as_slice())
}

/// The reply when the session's provider or model configuration cannot be
/// had: `what` names which.
pub fn unavailable(what: &str, err: &str) -> (r: String)
    ensures
        r@ == what@ + " unavailable: "@ + err@,
{
    let mut v = chars_of(what);
    append_chars(&mut v, chars_of(" unavailable: ").as_slice());
    append_chars(&mut v, chars_of(err).as_slice());
    string_of(v.as_slice())
}


/// The tools this extension offers: retrieval, enhancement, reranking.
pub fn get_tools() -> (r: Vec<crate::tools::ToolSpec>)
    ensures
        r@.len() == 3,
        r@[0].name@ == RETRIEVAL_TOOL@,
        r@[1].name@ == ENHANCE_TOOL@,
        r@[2].name@ == RERANK_TOOL@,
        r@[0].description@ == "Search the workspace for code relevant to a query and return the matching sections within a character budget. Respects .gitignore, .augmentignore and .karmxignore. Use this to gather context before editing."@,
        r@[0].input_schema@ == "{\"type\":\"object\",\"properties\":{\"query\":{\"type\":\"string\",\"description\":\"What to look for\"},\"directory\":{\"type\":\"string\",\"description\":\"Workspace root. Defaults to the current directory.\"},\"budget\":{\"type\":\"integer\",\"description\":\"Character budget for the returned context. Defaults to 20000.\"}},\"required\":[\"query\"]}"@,
        r@[1].description@ == "Rewrite a vague or underspecified user request into a clearer, more specific instruction. Returns the enhanced prompt, or the original if enhancement fails."@,
        r@[1].input_schema@ == "{\"type\":\"object\",\"properties\":{\"prompt\":{\"type\":\"string\",\"description\":\"The original prompt to enhance\"}},\"required\":[\"prompt\"]}"@,
        r@[2].description@ == "Order a list of context chunks by relevance to a query, dropping clearly unrelated ones. Useful for trimming conversation history before it enters the context window."@,
        r@[2].input_schema@ == "{\"type\":\"object\",\"properties\":{\"query\":{\"type\":\"string\",\"description\":\"The current request to rank against\"},\"chunks\":{\"type\":\"array\",\"description\":\"Chunks to rank, most recent last\",\"items\":{\"type\":\"object\",\"properties\":{\"text\":{\"type\":\"string\"},\"timestamp_ms\":{\"type\":\"integer\"}},\"required\":[\"text\"]}}},\"required\":[\"query\",\"chunks\"]}"@,
{
    vec![
        crate::tools::ToolSpec {
            name: RETRIEVAL_TOOL,
            description: "Search the workspace for code relevant to a query and return the matching sections within a character budget. Respects .gitignore, .augmentignore and .karmxignore. Use this to gather context before editing.",
            input_schema: "{\"type\":\"object\",\"properties\":{\"query\":{\"type\":\"string\",\"description\":\"What to look for\"},\"directory\":{\"type\":\"string\",\"description\":\"Workspace root. Defaults to the current directory.\"},\"budget\":{\"type\":\"integer\",\"description\":\"Character budget for the returned context. Defaults to 20000.\"}},\"required\":[\"query\"]}",
        },
        crate::tools::ToolSpec {
            name: ENHANCE_TOOL,
            description: "Rewrite a vague or underspecified user request into a clearer, more specific instruction. Returns the enhanced prompt, or the original if enhancement fails.",
            input_schema: "{\"type\":\"object\",\"properties\":{\"prompt\":{\"type\":\"string\",\"description\":\"The original prompt to enhance\"}},\"required\":[\"prompt\"]}",
        },
        crate::tools::ToolSpec {
            name: RERANK_TOOL,
            description: "Order a list of context chunks by relevance to a query, dropping clearly unrelated ones. Useful for trimming conversation history before it enters the context window.",
            input_schema: "{\"type\":\"object\",\"properties\":{\"query\":{\"type\":\"string\",\"description\":\"The current request to rank against\"},\"chunks\":{\"type\":\"array\",\"description\":\"Chunks to rank, most recent last\",\"items\":{\"type\":\"object\",\"properties\":{\"text\":{\"type\":\"string\"},\"timestamp_ms\":{\"type\":\"integer\"}},\"required\":[\"text\"]}}},\"required\":[\"query\",\"chunks\"]}",
        },
    ]
}

} // verus!
