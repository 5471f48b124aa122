//! Normalised stop reasons.
//!
//! Providers report why a turn ended in their own words (`"stop"`,
//! `"end_turn"`, `"max_tokens"`, `"length"`, ...). This maps them onto one
//! vocabulary so that a truncated turn is recognised as resumable rather than
//! mistaken for a clean stop or an error.

use vstd::prelude::*;

use crate::text::{chars_eq, chars_of, lower_ascii_seq, lower_chars, trim, trim_chars};

verus! {

#[derive(Debug, Clone, Copy, PartialEq, Eq, Structural)]
pub enum StopReason {
    /// The model finished what it was saying.
    Complete,
    /// The model was cut off by an output limit. Resumable: continue the turn.
    OutputTruncated,
    /// The turn ended on an error.
    Error,
    /// Credentials are missing or rejected; requires the user.
    AuthRequired,
    /// The turn was restarted deliberately.
    Restart,
}

/// How serious a stop is; the most serious of several reported reasons wins.
pub open spec fn severity(r: StopReason) -> int {
    match r {
        StopReason::Error => 4,
        StopReason::AuthRequired => 3,
        StopReason::OutputTruncated => 2,
        StopReason::Restart => 1,
        StopReason::Complete => 0,
    }
}

/// The more severe of two reasons (the first on a tie).
pub open spec fn more_severe(a: StopReason, b: StopReason) -> StopReason {
    if severity(b) > severity(a) {
        b
    } else {
        a
    }
}

/// The reason a normalised (trimmed, lower-cased) finish string stands for.
pub open spec fn reason_for(r: Seq<char>) -> StopReason {
    if r == "stop"@ || r == "end_turn"@ || r == "stop_sequence"@ || r == "completed"@ || r
        == "complete"@ || r == "tool_calls"@ || r == "tool_use"@ || r == "function_call"@ {
        StopReason::Complete
    } else if r == "length"@ || r == "max_tokens"@ || r == "max_output_tokens"@ || r
        == "maxtokens"@ || r == "incomplete"@ || r == "token_limit"@ {
        StopReason::OutputTruncated
    } else if r == "content_filter"@ || r == "safety"@ || r == "recitation"@ || r == "blocked"@
        || r == "failed"@ || r == "error"@ {
        StopReason::Error
    } else if r == "unauthorized"@ || r == "authentication_error"@ || r == "auth_required"@ {
        StopReason::AuthRequired
    } else {
        StopReason::Complete
    }
}

/// What `from_finish_reason` returns for a raw provider string.
pub open spec fn finish_reason_spec(raw: Seq<char>) -> StopReason {
    reason_for(lower_ascii_seq(trim(raw)))
}

/// Several reasons combined, the most severe winning; none when there are none.
pub open spec fn combine_reasons(rs: Seq<StopReason>) -> Option<StopReason>
    decreases rs.len(),
{
    if rs.len() == 0 {
        None
    } else {
        match combine_reasons(rs.drop_last()) {
            None => Some(rs.last()),
            Some(f) => Some(more_severe(f, rs.last())),
        }
    }
}

fn is_one_of(r: &[char], words: &[&str]) -> (b: bool)
    ensures
        b == exists|i: int| 0 <= i < words@.len() && r@ == (#[trigger] words@[i])@,
{
    let mut k: usize = 0;
    while k < words.len()
        invariant
            k <= words@.len(),
            forall|i: int| 0 <= i < k ==> r@ != (#[trigger] words@[i])@,
        decreases words@.len() - k,
    {
        let w = chars_of(words[k]);
        if chars_eq(r, w.as_slice()) {
            return true;
        }
        k = k + 1;
    }
    false
}

impl StopReason {
    /// Whether the turn can simply be continued: only truncation is.
    pub fn is_resumable(self) -> (r: bool)
        ensures
            r == (self == StopReason::OutputTruncated),
    {
        match self {
            StopReason::OutputTruncated => true,
            _ => false,
        }
    }

    /// Whether this reason should be surfaced to the user as a problem.
    pub fn is_failure(self) -> (r: bool)
        ensures
            r == (self == StopReason::Error || self == StopReason::AuthRequired),
    {
        match self {
            StopReason::Error | StopReason::AuthRequired => true,
            _ => false,
        }
    }

    /// Normalise a provider's finish-reason string. Unrecognised strings map to
    /// `Complete`: an unknown word is no evidence of failure.
    pub fn from_finish_reason(reason: &str) -> (r: Self)
        ensures
            r == finish_reason_spec(reason@),
    {
        let raw = chars_of(reason);
        let t = trim_chars(raw.as_slice());
        let l = lower_chars(t.as_slice());
        let r = l.as_slice();
        let complete = ["stop", "end_turn", "stop_sequence", "completed", "complete", "tool_calls", "tool_use", "function_call"];
        let truncated = ["length", "max_tokens", "max_output_tokens", "maxtokens", "incomplete", "token_limit"];
        let error = ["content_filter", "safety", "recitation", "blocked", "failed", "error"];
        let auth = ["unauthorized", "authentication_error", "auth_required"];
        let is_complete = is_one_of(r, &complete);
        proof {
            if is_complete {
                let i = choose|i: int| 0 <= i < complete@.len() && r@ == (#[trigger] complete@[i])@;
                assert(0 <= i < 8);
            }
            if r@ == "stop"@ || r@ == "end_turn"@ || r@ == "stop_sequence"@ || r@ == "completed"@
                || r@ == "complete"@ || r@ == "tool_calls"@ || r@ == "tool_use"@ || r@
                == "function_call"@ {
                assert(r@ == complete@[0]@ || r@ == complete@[1]@ || r@ == complete@[2]@ || r@
                    == complete@[3]@ || r@ == complete@[4]@ || r@ == complete@[5]@ || r@
                    == complete@[6]@ || r@ == complete@[7]@);
            }
        }
        if is_complete {
            return StopReason::Complete;
        }
        let is_truncated = is_one_of(r, &truncated);
        proof {
            if r@ == "length"@ || r@ == "max_tokens"@ || r@ == "max_output_tokens"@ || r@
                == "maxtokens"@ || r@ == "incomplete"@ || r@ == "token_limit"@ {
                assert(r@ == truncated@[0]@ || r@ == truncated@[1]@ || r@ == truncated@[2]@ || r@
                    == truncated@[3]@ || r@ == truncated@[4]@ || r@ == truncated@[5]@);
            }
        }
        if is_truncated {
            return StopReason::OutputTruncated;
        }
        let is_error = is_one_of(r, &error);
        proof {
            if r@ == "content_filter"@ || r@ == "safety"@ || r@ == "recitation"@ || r@
                == "blocked"@ || r@ == "failed"@ || r@ == "error"@ {
                assert(r@ == error@[0]@ || r@ == error@[1]@ || r@ == error@[2]@ || r@
                    == error@[3]@ || r@ == error@[4]@ || r@ == error@[5]@);
            }
        }
        if is_error {
            return StopReason::Error;
        }
        let is_auth = is_one_of(r, &auth);
        proof {
            if r@ == "unauthorized"@ || r@ == "authentication_error"@ || r@ == "auth_required"@ {
                assert(r@ == auth@[0]@ || r@ == auth@[1]@ || r@ == auth@[2]@);
            }
        }
        if is_auth {
            return StopReason::AuthRequired;
        }
        StopReason::Complete
    }

    /// Derive one reason from several reported ones; the most severe wins.
    pub fn from_finish_reasons(reasons: &[String]) -> (r: Option<Self>)
        ensures
            r == combine_reasons(reasons@.map_values(|s: String| finish_reason_spec(s@))),
    {
        let ghost mapped = reasons@.map_values(|s: String| finish_reason_spec(s@));
        let mut found: Option<Self> = None;
        let mut k: usize = 0;
        while k < reasons.len()
            invariant
                k <= reasons@.len(),
                mapped == reasons@.map_values(|s: String| finish_reason_spec(s@)),
                found == combine_reasons(mapped.take(k as int)),
            decreases reasons@.len() - k,
        {
            let m = Self::from_finish_reason(reasons[k].as_str());
            assert(mapped.take(k + 1).drop_last() =~= mapped.take(k as int));
            found = Some(
                match found {
                    None => m,
                    Some(f) => Self::more_severe(f, m),
                },
            );
            k = k + 1;
        }
        assert(mapped.take(k as int) =~= mapped);
        found
    }

    fn more_severe(a: Self, b: Self) -> (r: Self)
        ensures
            r == more_severe(a, b),
    {
        match (a, b) {
            (StopReason::Error, _) | (_, StopReason::Error) => StopReason::Error,
            (StopReason::AuthRequired, _) | (_, StopReason::AuthRequired) => StopReason::AuthRequired,
            (StopReason::OutputTruncated, _) | (_, StopReason::OutputTruncated) => StopReason::OutputTruncated,
            (StopReason::Restart, _) | (_, StopReason::Restart) => StopReason::Restart,
            _ => StopReason::Complete,
        }
    }
}

/// Law: of several reported reasons the combined one is reported, and none of
/// the reported reasons is more severe than it.
pub proof fn law_most_severe_wins(rs: Seq<StopReason>)
    requires
        rs.len() > 0,
    ensures
        combine_reasons(rs) matches Some(w) && rs.contains(w) && forall|i: int|
            0 <= i < rs.len() ==> severity(#[trigger] rs[i]) <= severity(w),
    decreases rs.len(),
{
    if rs.len() > 1 {
        law_most_severe_wins(rs.drop_last());
        let w0 = combine_reasons(rs.drop_last())->0;
        let w = more_severe(w0, rs.last());
        assert(rs.drop_last().contains(w0));
        let j = choose|j: int| 0 <= j < rs.drop_last().len() && rs.drop_last()[j] == w0;
        assert(rs[j] == w0);
        assert(rs[rs.len() - 1] == rs.last());
        assert forall|i: int| 0 <= i < rs.len() implies severity(#[trigger] rs[i]) <= severity(w) by {
            if i < rs.len() - 1 {
                assert(rs[i] == rs.drop_last()[i]);
            }
        }
    } else {
        assert(rs.drop_last() =~= Seq::<StopReason>::empty());
        assert(rs[0] == rs.last());
    }
}

/// Law: severity decides the combined reason, so equal-severity reasons are
/// equal and the combination does not depend on where a reason was reported.
pub proof fn law_severity_is_injective(a: StopReason, b: StopReason)
    requires
        severity(a) == severity(b),
    ensures
        a == b,
{
}

/// The provider words that report a failed turn.
pub open spec fn error_words() -> Seq<Seq<char>> {
    seq!["content_filter"@, "safety"@, "recitation"@, "blocked"@, "failed"@, "error"@]
}

/// Law: whatever spacing and letter case a provider uses, a finish reason that
/// reads as one of the failure words is an error, and so a failure.
pub proof fn law_failure_words_are_errors(raw: Seq<char>)
    requires
        error_words().contains(lower_ascii_seq(trim(raw))),
    ensures
        finish_reason_spec(raw) == StopReason::Error,
{
    let r = lower_ascii_seq(trim(raw));
    let i = choose|i: int| 0 <= i < error_words().len() && error_words()[i] == r;
    reveal_strlit("content_filter");
    reveal_strlit("safety");
    reveal_strlit("recitation");
    reveal_strlit("blocked");
    reveal_strlit("failed");
    reveal_strlit("error");
    reveal_strlit("stop");
    reveal_strlit("end_turn");
    reveal_strlit("stop_sequence");
    reveal_strlit("completed");
    reveal_strlit("complete");
    reveal_strlit("tool_calls");
    reveal_strlit("tool_use");
    reveal_strlit("function_call");
    reveal_strlit("length");
    reveal_strlit("max_tokens");
    reveal_strlit("max_output_tokens");
    reveal_strlit("maxtokens");
    reveal_strlit("incomplete");
    reveal_strlit("token_limit");
    let others = seq![
        "stop"@,
        "end_turn"@,
        "stop_sequence"@,
        "completed"@,
        "complete"@,
        "tool_calls"@,
        "tool_use"@,
        "function_call"@,
        "length"@,
        "max_tokens"@,
        "max_output_tokens"@,
        "maxtokens"@,
        "incomplete"@,
        "token_limit"@,
    ];
    assert forall|k: int| 0 <= k < others.len() implies #[trigger] others[k] != r by {
        let w = others[k];
        if w.len() == r.len() {
            assert(w[0] != r[0]);
        }
    }
    assert(others[0] != r && others[1] != r && others[2] != r && others[3] != r && others[4] != r
        && others[5] != r && others[6] != r && others[7] != r);
    assert(others[8] != r && others[9] != r && others[10] != r && others[11] != r && others[12]
        != r && others[13] != r);
    assert(r == "content_filter"@ || r == "safety"@ || r == "recitation"@ || r == "blocked"@ || r
        == "failed"@ || r == "error"@);
}

/// Law: when any reported finish reason reads as a failure word, the turn as
/// a whole ended on an error, whatever else was reported with it.
pub proof fn law_one_failure_fails_the_turn(raws: Seq<Seq<char>>, j: int)
    requires
        0 <= j < raws.len(),
        error_words().contains(lower_ascii_seq(trim(raws[j]))),
    ensures
        combine_reasons(raws.map_values(|s: Seq<char>| finish_reason_spec(s))) == Some(
            StopReason::Error,
        ),
{
    let rs = raws.map_values(|s: Seq<char>| finish_reason_spec(s));
    law_failure_words_are_errors(raws[j]);
    law_most_severe_wins(rs);
    assert(rs[j] == StopReason::Error);
    assert(severity(rs[j]) <= severity(combine_reasons(rs)->0));
}

/// The provider words that report a turn cut off by an output limit.
pub open spec fn truncation_words() -> Seq<Seq<char>> {
    seq!["length"@, "max_tokens"@, "max_output_tokens"@, "maxtokens"@, "incomplete"@, "token_limit"@]
}

/// The provider words that report missing or rejected credentials.
pub open spec fn auth_words() -> Seq<Seq<char>> {
    seq!["unauthorized"@, "authentication_error"@, "auth_required"@]
}

/// The provider words that report a clean stop.
pub open spec fn complete_words() -> Seq<Seq<char>> {
    seq![
        "stop"@,
        "end_turn"@,
        "stop_sequence"@,
        "completed"@,
        "complete"@,
        "tool_calls"@,
        "tool_use"@,
        "function_call"@,
    ]
}

/// Law: a finish reason that reads as a clean-stop word is a clean stop.
pub proof fn law_stop_words_complete(raw: Seq<char>)
    requires
        complete_words().contains(lower_ascii_seq(trim(raw))),
    ensures
        finish_reason_spec(raw) == StopReason::Complete,
{
    let r = lower_ascii_seq(trim(raw));
    let i = choose|i: int| 0 <= i < complete_words().len() && complete_words()[i] == r;
    assert(r == complete_words()[i]);
}

/// Law: a finish reason that reads as an output-limit word is a truncation,
/// and so the turn can be resumed.
pub proof fn law_limit_words_truncate(raw: Seq<char>)
    requires
        truncation_words().contains(lower_ascii_seq(trim(raw))),
    ensures
        finish_reason_spec(raw) == StopReason::OutputTruncated,
{
    reveal_strlit("content_filter");
    reveal_strlit("safety");
    reveal_strlit("recitation");
    reveal_strlit("blocked");
    reveal_strlit("failed");
    reveal_strlit("error");
    reveal_strlit("stop");
    reveal_strlit("end_turn");
    reveal_strlit("stop_sequence");
    reveal_strlit("completed");
    reveal_strlit("complete");
    reveal_strlit("tool_calls");
    reveal_strlit("tool_use");
    reveal_strlit("function_call");
    reveal_strlit("length");
    reveal_strlit("max_tokens");
    reveal_strlit("max_output_tokens");
    reveal_strlit("maxtokens");
    reveal_strlit("incomplete");
    reveal_strlit("token_limit");
    reveal_strlit("unauthorized");
    reveal_strlit("authentication_error");
    reveal_strlit("auth_required");
    let r = lower_ascii_seq(trim(raw));
    let i = choose|i: int| 0 <= i < truncation_words().len() && truncation_words()[i] == r;
    assert(r == truncation_words()[i]);
    let others = complete_words();
    assert forall|k: int| 0 <= k < others.len() implies #[trigger] others[k] != r by {
        let w = others[k];
        if w.len() == r.len() {
            assert(w[0] != r[0] || w[1] != r[1]);
        }
    }
    assert(others[0] != r && others[1] != r && others[2] != r && others[3] != r && others[4] != r
        && others[5] != r && others[6] != r && others[7] != r);
    assert(r == "length"@ || r == "max_tokens"@ || r == "max_output_tokens"@ || r == "maxtokens"@
        || r == "incomplete"@ || r == "token_limit"@);
}

/// Law: a finish reason that reads as a credentials word asks for the user.
pub proof fn law_auth_words_need_user(raw: Seq<char>)
    requires
        auth_words().contains(lower_ascii_seq(trim(raw))),
    ensures
        finish_reason_spec(raw) == StopReason::AuthRequired,
{
    reveal_strlit("content_filter");
    reveal_strlit("safety");
    reveal_strlit("recitation");
    reveal_strlit("blocked");
    reveal_strlit("failed");
    reveal_strlit("error");
    reveal_strlit("stop");
    reveal_strlit("end_turn");
    reveal_strlit("stop_sequence");
    reveal_strlit("completed");
    reveal_strlit("complete");
    reveal_strlit("tool_calls");
    reveal_strlit("tool_use");
    reveal_strlit("function_call");
    reveal_strlit("length");
    reveal_strlit("max_tokens");
    reveal_strlit("max_output_tokens");
    reveal_strlit("maxtokens");
    reveal_strlit("incomplete");
    reveal_strlit("token_limit");
    reveal_strlit("unauthorized");
    reveal_strlit("authentication_error");
    reveal_strlit("auth_required");
    let r = lower_ascii_seq(trim(raw));
    let i = choose|i: int| 0 <= i < auth_words().len() && auth_words()[i] == r;
    assert(r == auth_words()[i]);
    let others = complete_words() + truncation_words() + error_words();
    assert forall|k: int| 0 <= k < others.len() implies #[trigger] others[k] != r by {
        let w = others[k];
        if w.len() == r.len() {
            assert(w[0] != r[0]);
        }
    }
    assert(others[0] != r && others[1] != r && others[2] != r && others[3] != r && others[4] != r
        && others[5] != r && others[6] != r && others[7] != r);
    assert(others[8] != r && others[9] != r && others[10] != r && others[11] != r && others[12]
        != r && others[13] != r);
    assert(others[14] != r && others[15] != r && others[16] != r && others[17] != r && others[18]
        != r && others[19] != r);
    assert(r == "unauthorized"@ || r == "authentication_error"@ || r == "auth_required"@);
}

} // verus!
