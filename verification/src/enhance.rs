//! Prompt enhancer for `enhance_prompt`.
//!
//! Behaviour:
//!   * trims the prompt and rejects empty input with `empty_prompt`
//!   * appends the user's prompt to the enhancement instruction
//!   * parses the result out of `<enhanced-prompt>` XML tags
//!   * fails open: on any error the caller keeps the original prompt
//!   * distinguishes api / network / unknown / parsing failures in the status
//!
//! The model call itself is made by the caller: [`start_enhancement`] says
//! what to send (or that nothing needs sending), and [`finish_enhancement`]
//! turns the reply into the outcome.

use vstd::prelude::*;

use crate::text::{
    append_chars, chars_of, contains, contains_chars, copy_range, find, find_chars, string_of,
    to_lowercase, trim, trim_chars, unicode_lowercase,
};

verus! {

/// Outcome of an enhancement attempt.
#[derive(Debug, Clone, Copy, PartialEq, Eq, Structural)]
pub enum Status {
    EmptyPrompt,
    Success,
    ApiError,
    NetworkError,
    UnknownError,
    ParsingError,
}

pub open spec fn status_name(s: Status) -> Seq<char> {
    match s {
        Status::EmptyPrompt => "empty_prompt"@,
        Status::Success => "success"@,
        Status::ApiError => "api_error"@,
        Status::NetworkError => "network_error"@,
        Status::UnknownError => "unknown_error"@,
        Status::ParsingError => "parsing_error"@,
    }
}

impl Status {
    pub fn as_str(&self) -> (r: &'static str)
        ensures
            r@ == status_name(*self),
    {
        match self {
            Status::EmptyPrompt => "empty_prompt",
            Status::Success => "success",
            Status::ApiError => "api_error",
            Status::NetworkError => "network_error",
            Status::UnknownError => "unknown_error",
            Status::ParsingError => "parsing_error",
        }
    }
}

#[derive(Debug, Clone)]
pub struct Enhancement {
    pub status: Status,
    /// The prompt to actually use. On any failure this is the original.
    pub prompt: String,
    /// True only when an enhanced prompt was produced and parsed.
    pub was_enhanced: bool,
    pub error_message: Option<String>,
}

/// `e` keeps `original`, reports `status`, and carries the message `err`.
pub open spec fn is_passthrough(
    e: Enhancement,
    original: Seq<char>,
    status: Status,
    err: Option<Seq<char>>,
) -> bool {
    &&& e.status == status
    &&& e.prompt@ == original
    &&& !e.was_enhanced
    &&& match (e.error_message, err) {
        (Some(m), Some(x)) => m@ == x,
        (None, None) => true,
        _ => false,
    }
}

impl Enhancement {
    /// Keep the original prompt, reporting why.
    pub fn passthrough(original: &str, status: Status, err: Option<String>) -> (r: Self)
        ensures
            r.status == status,
            r.prompt@ == original@,
            !r.was_enhanced,
            r.error_message == err,
    {
        Enhancement { status, prompt: original.to_owned(), was_enhanced: false, error_message: err }
    }
}

/// The trimmed body between the first `open` tag and the first `close` tag
/// after it, when that body is not blank.
pub open spec fn tag_body(r: Seq<char>, open: Seq<char>, close: Seq<char>) -> Option<Seq<char>> {
    match find(r, open) {
        Some(s) => {
            let after = s + open.len();
            match find(r.skip(after), close) {
                Some(e) => {
                    let inner = trim(r.subrange(after, after + e));
                    if inner.len() > 0 {
                        Some(inner)
                    } else {
                        None
                    }
                },
                None => None,
            }
        },
        None => None,
    }
}

/// The enhanced prompt in a model response: the first of the accepted tag
/// spellings that yields a non-blank body.
pub open spec fn enhanced_prompt_in(r: Seq<char>) -> Option<Seq<char>> {
    match tag_body(r, "<enhanced-prompt>"@, "</enhanced-prompt>"@) {
        Some(b) => Some(b),
        None => match tag_body(r, "<augment-enhanced-prompt>"@, "</augment-enhanced-prompt>"@) {
            Some(b) => Some(b),
            None => tag_body(r, "<vendor-enhanced-prompt>"@, "</vendor-enhanced-prompt>"@),
        },
    }
}

fn tag_body_chars(r: &[char], open: &str, close: &str) -> (b: Option<Vec<char>>)
    ensures
        match tag_body(r@, open@, close@) {
            Some(x) => b matches Some(v) && v@ == x,
            None => b is None,
        },
{
    let o = chars_of(open);
    let c = chars_of(close);
    match find_chars(r, o.as_slice()) {
        Some(s) => {
            proof {
                crate::text::lemma_find_from(r@, o@, 0);
                assert(crate::text::occurs_at(r@, o@, s as int));
                assert(r@.len() == r.len());
                assert(o@.len() == o.len());
            }
            let after = s + o.len();
            let rest = copy_range(r, after, r.len());
            assert(rest@ =~= r@.skip(after as int));
            match find_chars(rest.as_slice(), c.as_slice()) {
                Some(e) => {
                    proof {
                        crate::text::lemma_find_from(rest@, c@, 0);
                    }
                    let body = copy_range(r, after, after + e);
                    let inner = trim_chars(body.as_slice());
                    if inner.len() > 0 {
                        Some(inner)
                    } else {
                        None
                    }
                },
                None => None,
            }
        },
        None => None,
    }
}

/// Extract the enhanced prompt from a model response.
///
/// Accepts `<enhanced-prompt>` plus a couple of longer tag spellings so older
/// responses still parse.
pub fn parse_enhanced_prompt(response: &str) -> (r: Option<String>)
    ensures
        match enhanced_prompt_in(response@) {
            Some(x) => r matches Some(s) && s@ == x,
            None => r is None,
        },
{
    let chars = chars_of(response);
    let r = chars.as_slice();
    match tag_body_chars(r, "<enhanced-prompt>", "</enhanced-prompt>") {
        Some(b) => {
            return Some(string_of(b.as_slice()));
        },
        None => {},
    }
    match tag_body_chars(r, "<augment-enhanced-prompt>", "</augment-enhanced-prompt>") {
        Some(b) => {
            return Some(string_of(b.as_slice()));
        },
        None => {},
    }
    match tag_body_chars(r, "<vendor-enhanced-prompt>", "</vendor-enhanced-prompt>") {
        Some(b) => Some(string_of(b.as_slice())),
        None => None,
    }
}

/// The failure bucket for a provider error message, by the words in its
/// lower-cased text.
pub open spec fn status_for_error(lowered: Seq<char>) -> Status {
    if contains(lowered, "network"@) || contains(lowered, "timeout"@) || contains(
        lowered,
        "timed out"@,
    ) || contains(lowered, "connection"@) || contains(lowered, "connect"@) {
        Status::NetworkError
    } else if contains(lowered, "status"@) || contains(lowered, "http"@) {
        Status::ApiError
    } else {
        Status::UnknownError
    }
}

fn has(s: &[char], word: &str) -> (r: bool)
    ensures
        r == contains(s@, word@),
{
    contains_chars(s, chars_of(word).as_slice())
}

/// Classify a provider error into api / network / unknown.
pub fn classify(err: &str) -> (r: Status)
    ensures
        r == status_for_error(unicode_lowercase(err@)),
{
    let lowered = to_lowercase(err);
    let s = chars_of(lowered.as_str());
    let s = s.as_slice();
    if has(s, "network") || has(s, "timeout") || has(s, "timed out") || has(s, "connection")
        || has(s, "connect") {
        Status::NetworkError
    } else if has(s, "status") || has(s, "http") {
        Status::ApiError
    } else {
        Status::UnknownError
    }
}

/// The full instruction sent to the model: the instruction, then the prompt.
pub fn build_request(instruction: &str, user_prompt: &str) -> (r: String)
    ensures
        r@ == instruction@ + user_prompt@,
{
    let mut v = chars_of(instruction);
    append_chars(&mut v, chars_of(user_prompt).as_slice());
    string_of(v.as_slice())
}

/// What to do first: answer at once, or ask the model.
#[derive(Debug, Clone)]
pub enum EnhanceStart {
    /// Nothing to ask; this is the outcome.
    Done(Enhancement),
    /// Send this request to the session's model, then call
    /// [`finish_enhancement`] with the reply.
    Ask(String),
}

pub open spec fn context_preamble() -> Seq<char> {
    "Session context (use it to resolve references, do not answer it):\n"@
}

/// The request for `prompt`: with session context when there is some that is
/// not blank, so the model can resolve references like "this file".
pub open spec fn enhance_request(instruction: Seq<char>, prompt: Seq<char>, context: Option<
    Seq<char>,
>) -> Seq<char> {
    let base = instruction + trim(prompt);
    match context {
        Some(c) => if trim(c).len() > 0 {
            context_preamble() + c + "\n\n"@ + base
        } else {
            base
        },
        None => base,
    }
}

/// Start enhancing `prompt`: an empty prompt is answered at once, anything
/// else becomes a request for the model.
pub fn start_enhancement(instruction: &str, prompt: &str, context: Option<&str>) -> (r: EnhanceStart)
    ensures
        trim(prompt@).len() == 0 ==> (r matches EnhanceStart::Done(e) && is_passthrough(
            e,
            prompt@,
            Status::EmptyPrompt,
            Some("Cannot enhance empty prompt"@),
        )),
        trim(prompt@).len() > 0 ==> (r matches EnhanceStart::Ask(q) && q@ == enhance_request(
            instruction@,
            prompt@,
            match context {
                Some(c) => Some(c@),
                None => None,
            },
        )),
{
    let p = chars_of(prompt);
    let trimmed = trim_chars(p.as_slice());
    if trimmed.len() == 0 {
        return EnhanceStart::Done(
            Enhancement::passthrough(
                prompt,
                Status::EmptyPrompt,
                Some("Cannot enhance empty prompt".to_owned()),
            ),
        );
    }
    let mut base = chars_of(instruction);
    append_chars(&mut base, trimmed.as_slice());
    match context {
        Some(c) => {
            let cc = chars_of(c);
            let ct = trim_chars(cc.as_slice());
            if ct.len() > 0 {
                let mut q = chars_of("Session context (use it to resolve references, do not answer it):\n");
                append_chars(&mut q, cc.as_slice());
                append_chars(&mut q, chars_of("\n\n").as_slice());
                append_chars(&mut q, base.as_slice());
                return EnhanceStart::Ask(string_of(q.as_slice()));
            }
            EnhanceStart::Ask(string_of(base.as_slice()))
        },
        None => EnhanceStart::Ask(string_of(base.as_slice())),
    }
}

/// Turn the model's reply (or the provider's error text) into the outcome:
/// a parsed enhancement, or the original prompt with the failure's bucket.
pub fn finish_enhancement(prompt: &str, reply: Result<String, String>) -> (r: Enhancement)
    ensures
        match reply {
            Err(text) => is_passthrough(
                r,
                prompt@,
                status_for_error(unicode_lowercase(text@)),
                Some(text@),
            ),
            Ok(response) => match enhanced_prompt_in(response@) {
                Some(x) => r.status == Status::Success && r.prompt@ == x && r.was_enhanced
                    && r.error_message is None,
                None => is_passthrough(
                    r,
                    prompt@,
                    Status::ParsingError,
                    Some("Failed to parse enhanced prompt from response"@),
                ),
            },
        },
{
    match reply {
        Err(text) => {
            let status = classify(text.as_str());
            Enhancement::passthrough(prompt, status, Some(text))
        },
        Ok(response) => match parse_enhanced_prompt(response.as_str()) {
            Some(enhanced) => Enhancement {
                status: Status::Success,
                prompt: enhanced,
                was_enhanced: true,
                error_message: None,
            },
            None => Enhancement::passthrough(
                prompt,
                Status::ParsingError,
                Some("Failed to parse enhanced prompt from response".to_owned()),
            ),
        },
    }
}

/// The accepted tag spellings, opening and closing.
pub open spec fn accepted_tags() -> Seq<(Seq<char>, Seq<char>)> {
    seq![
        ("<enhanced-prompt>"@, "</enhanced-prompt>"@),
        ("<augment-enhanced-prompt>"@, "</augment-enhanced-prompt>"@),
        ("<vendor-enhanced-prompt>"@, "</vendor-enhanced-prompt>"@),
    ]
}

/// `s` holds no `<`.
pub open spec fn no_angle(s: Seq<char>) -> bool {
    forall|j: int| 0 <= j < s.len() ==> s[j] != '<'
}

/// A tag: `<` first, then at least one more character, and no other `<`.
pub open spec fn tag_shaped(t: Seq<char>) -> bool {
    t.len() >= 2 && t[0] == '<' && no_angle(t.drop_first())
}

/// `pat`, which starts with `<`, occurs nowhere in `r` when no `<` of `r` is
/// followed by `pat`'s second character.
proof fn lemma_not_found(r: Seq<char>, pat: Seq<char>)
    requires
        pat.len() >= 2,
        pat[0] == '<',
        forall|j: int| 0 <= j < r.len() - 1 && #[trigger] r[j] == '<' ==> r[j + 1] != pat[1],
    ensures
        find(r, pat) is None,
{
    crate::text::lemma_find_from(r, pat, 0);
    match find(r, pat) {
        Some(i) => {
            assert(r.subrange(i, i + pat.len())[0] == r[i]);
            assert(r.subrange(i, i + pat.len())[1] == r[i + 1]);
        },
        None => {},
    }
}

/// In `open + b + close`, with `b` free of `<`, a `<` stands only at the
/// start of the two tags.
proof fn lemma_angles_of(open: Seq<char>, b: Seq<char>, close: Seq<char>, j: int)
    requires
        tag_shaped(open),
        tag_shaped(close),
        no_angle(b),
        0 <= j < (open + b + close).len(),
        (open + b + close)[j] == '<',
    ensures
        j == 0 || j == open.len() + b.len(),
{
    let r = open + b + close;
    if 0 < j < open.len() {
        assert(open.drop_first()[j - 1] == open[j]);
    } else if open.len() <= j < open.len() + b.len() {
        assert(r[j] == b[j - open.len()]);
    } else if j > open.len() + b.len() {
        let k = j - open.len() - b.len();
        assert(r[j] == close[k]);
        assert(close.drop_first()[k - 1] == close[k]);
    }
}

/// A reply that is exactly `open + b + close`, with `b` free of `<`, gives
/// `b` trimmed as the tag's body when that is not blank.
proof fn lemma_tag_body_exact(open: Seq<char>, b: Seq<char>, close: Seq<char>)
    requires
        tag_shaped(open),
        tag_shaped(close),
        no_angle(b),
        trim(b).len() > 0,
    ensures
        tag_body(open + b + close, open, close) == Some(trim(b)),
{
    let r = open + b + close;
    assert(r.subrange(0, open.len() as int) =~= open);
    assert(crate::text::find_from(r, open, 0) == Some(0int));
    let after = open.len() as int;
    let rest = r.skip(after);
    assert(rest =~= b + close);
    crate::text::lemma_find_from(rest, close, 0);
    assert(rest.subrange(b.len() as int, (b.len() + close.len()) as int) =~= close);
    assert(crate::text::occurs_at(rest, close, b.len() as int));
    match find(rest, close) {
        Some(e) => {
            if e < b.len() {
                assert(rest.subrange(e, e + close.len())[0] == rest[e]);
                assert(rest[e] == b[e]);
                assert(false);
            }
            if e > b.len() {
                assert(!crate::text::occurs_at(rest, close, b.len() as int));
            }
            assert(e == b.len());
        },
        None => {
            assert(!crate::text::occurs_at(rest, close, b.len() as int));
        },
    }
    assert(find(rest, close) == Some(b.len() as int));
    assert(find(r, open) == Some(0int));
    assert(r.subrange(after, after + b.len()) =~= b);
    assert(trim(r.subrange(after, after + b.len())) == trim(b));
}

/// A reply `open + b + close` holds no tag `pat` that differs from `open` in
/// its second character and does not close.
proof fn lemma_tag_absent(open: Seq<char>, b: Seq<char>, close: Seq<char>, pat: Seq<char>, pclose: Seq<char>)
    requires
        tag_shaped(open),
        tag_shaped(close),
        close[1] == '/',
        no_angle(b),
        pat.len() >= 2,
        pat[0] == '<',
        pat[1] != open[1],
        pat[1] != '/',
    ensures
        tag_body(open + b + close, pat, pclose) is None,
{
    let r = open + b + close;
    assert forall|j: int| 0 <= j < r.len() - 1 && #[trigger] r[j] == '<' implies r[j + 1] != pat[1] by {
        lemma_angles_of(open, b, close, j);
        if j == 0 {
            assert(r[1] == open[1]);
        } else {
            assert(r[j + 1] == close[1]);
        }
    }
    lemma_not_found(r, pat);
}

/// Law: a reply that is exactly one accepted tag around a body that holds no
/// tag and is not blank yields that body, trimmed, whichever spelling it uses.
pub proof fn law_single_tag_reply(i: int, b: Seq<char>)
    requires
        0 <= i < 3,
        no_angle(b),
        trim(b).len() > 0,
    ensures
        enhanced_prompt_in(accepted_tags()[i].0 + b + accepted_tags()[i].1) == Some(trim(b)),
{
    reveal_strlit("<enhanced-prompt>");
    reveal_strlit("</enhanced-prompt>");
    reveal_strlit("<augment-enhanced-prompt>");
    reveal_strlit("</augment-enhanced-prompt>");
    reveal_strlit("<vendor-enhanced-prompt>");
    reveal_strlit("</vendor-enhanced-prompt>");
    let e = ("<enhanced-prompt>"@, "</enhanced-prompt>"@);
    let a = ("<augment-enhanced-prompt>"@, "</augment-enhanced-prompt>"@);
    let v = ("<vendor-enhanced-prompt>"@, "</vendor-enhanced-prompt>"@);
    assert(tag_shaped(e.0) && tag_shaped(e.1) && e.1[1] == '/');
    assert(tag_shaped(a.0) && tag_shaped(a.1) && a.1[1] == '/');
    assert(tag_shaped(v.0) && tag_shaped(v.1) && v.1[1] == '/');
    if i == 0 {
        lemma_tag_body_exact(e.0, b, e.1);
    } else if i == 1 {
        lemma_tag_absent(a.0, b, a.1, e.0, e.1);
        lemma_tag_body_exact(a.0, b, a.1);
    } else {
        lemma_tag_absent(v.0, b, v.1, e.0, e.1);
        lemma_tag_absent(v.0, b, v.1, a.0, a.1);
        lemma_tag_body_exact(v.0, b, v.1);
    }
}

} // verus!
