//! Retrieval budget model.
//!
//! A retrieval call has one total budget shared by two sources (codebase and
//! conversation); unused budget is not borrowed. Every stage records a pre- and
//! post-truncation length, so the caller can tell "there was nothing" apart
//! from "we cut it off". Lengths are in bytes of UTF-8.

use vstd::prelude::*;
use vstd::utf8::encode_scalar;

use crate::text::{append_chars, char_utf8_len, chars_of, lemma_utf8_len_push, string_of, utf8_len};

verus! {

/// Default total retrieval budget.
pub const DEFAULT_TOTAL_BUDGET: usize = 20000;

#[derive(Debug, Clone, Default)]
pub struct PhaseTimings {
    pub codebase_retrieval_elapsed_ms: u64,
    pub conversation_retrieval_elapsed_ms: u64,
    pub conversation_initial_retrieval_ms: u64,
    pub conversation_query_rewriting_ms: u64,
    pub conversation_followup_retrieval_ms: u64,
    pub blob_name_lookup_ms: u64,
}

impl PhaseTimings {
    /// All phases at zero.
    pub fn zero() -> (r: Self)
        ensures
            r.codebase_retrieval_elapsed_ms == 0,
            r.conversation_retrieval_elapsed_ms == 0,
            r.conversation_initial_retrieval_ms == 0,
            r.conversation_query_rewriting_ms == 0,
            r.conversation_followup_retrieval_ms == 0,
            r.blob_name_lookup_ms == 0,
    {
        PhaseTimings {
            codebase_retrieval_elapsed_ms: 0,
            conversation_retrieval_elapsed_ms: 0,
            conversation_initial_retrieval_ms: 0,
            conversation_query_rewriting_ms: 0,
            conversation_followup_retrieval_ms: 0,
            blob_name_lookup_ms: 0,
        }
    }
}

#[derive(Debug, Clone, Default)]
pub struct ChunkCounts {
    pub codebase_chunks_retrieved: usize,
    pub conversation_chunks_initial: usize,
    pub conversation_queries_generated: usize,
    pub conversation_chunks_followup: usize,
    pub conversation_chunks_combined: usize,
}

impl ChunkCounts {
    /// All counts at zero.
    pub fn zero() -> (r: Self)
        ensures
            r.codebase_chunks_retrieved == 0,
            r.conversation_chunks_initial == 0,
            r.conversation_queries_generated == 0,
            r.conversation_chunks_followup == 0,
            r.conversation_chunks_combined == 0,
    {
        ChunkCounts {
            codebase_chunks_retrieved: 0,
            conversation_chunks_initial: 0,
            conversation_queries_generated: 0,
            conversation_chunks_followup: 0,
            conversation_chunks_combined: 0,
        }
    }
}

/// Budget split across retrieval sources.
#[derive(Debug, Clone, Copy)]
pub struct Budget {
    pub total: usize,
    pub codebase: usize,
    pub conversation: usize,
}

impl Budget {
    /// Split a total budget. `conversation_share` is clamped to the total so
    /// the two halves can never exceed it.
    pub fn split(total: usize, conversation_share: usize) -> (r: Self)
        ensures
            r.total == total,
            r.conversation == if conversation_share < total {
                conversation_share
            } else {
                total
            },
            r.codebase + r.conversation == total,
    {
        let conversation = if conversation_share < total {
            conversation_share
        } else {
            total
        };
        Budget { total, codebase: total - conversation, conversation }
    }

    pub fn default_budget() -> (r: Self)
        ensures
            r.total == DEFAULT_TOTAL_BUDGET,
            r.codebase == DEFAULT_TOTAL_BUDGET,
            r.conversation == 0,
    {
        Self::split(DEFAULT_TOTAL_BUDGET, 0)
    }
}

/// `t` is the longest prefix of `s` (whole characters) whose UTF-8 encoding
/// fits in `budget` bytes.
pub open spec fn longest_fitting_prefix(s: Seq<char>, budget: int, t: Seq<char>) -> bool {
    &&& t.len() <= s.len()
    &&& t == s.take(t.len() as int)
    &&& utf8_len(t) <= budget
    &&& t.len() < s.len() ==> utf8_len(s.take(t.len() + 1int)) > budget
}

/// Truncate `s` to at most `budget` bytes on a character boundary.
///
/// Returns `(text, was_truncated)`.
pub fn truncate_to_budget(s: &str, budget: usize) -> (r: (String, bool))
    requires
        utf8_len(s@) <= usize::MAX,
    ensures
        r.1 == (utf8_len(s@) > budget),
        !r.1 ==> r.0@ == s@,
        longest_fitting_prefix(s@, budget as int, r.0@),
{
    let chars = chars_of(s);
    if s.len() <= budget {
        assert(chars@.take(chars@.len() as int) =~= chars@);
        return (s.to_owned(), false);
    }
    let mut used: usize = 0;
    let mut k: usize = 0;
    assert(chars@.take(0) =~= Seq::<char>::empty());
    assert(vstd::utf8::encode_utf8(Seq::<char>::empty()) =~= Seq::<u8>::empty());
    while k < chars.len() && char_utf8_len(chars[k]) <= budget - used
        invariant
            k <= chars@.len(),
            used == utf8_len(chars@.take(k as int)),
            used <= budget,
        decreases chars@.len() - k,
    {
        proof {
            lemma_utf8_len_push(chars@.take(k as int), chars@[k as int]);
            assert(chars@.take(k as int).push(chars@[k as int]) =~= chars@.take(k + 1));
        }
        used = used + char_utf8_len(chars[k]);
        k = k + 1;
    }
    proof {
        if k < chars@.len() {
            lemma_utf8_len_push(chars@.take(k as int), chars@[k as int]);
            assert(chars@.take(k as int).push(chars@[k as int]) =~= chars@.take(k + 1));
        } else {
            assert(chars@.take(k as int) =~= chars@);
        }
    }
    let kept = crate::text::copy_range(chars.as_slice(), 0, k);
    assert(kept@ =~= chars@.take(k as int));
    (string_of(kept.as_slice()), true)
}

/// Per-call retrieval metrics.
#[derive(Debug, Clone, Default)]
pub struct RetrievalMetrics {
    pub total_budget: usize,
    pub codebase_budget: usize,
    pub conversation_budget: usize,
    pub timings: PhaseTimings,
    pub counts: ChunkCounts,
    pub codebase_result_len_pre_truncation: usize,
    pub codebase_result_len: usize,
    pub conversation_result_len_pre_truncation: usize,
    pub conversation_result_len: usize,
    pub combined_result_len: usize,
    pub codebase_truncated: bool,
    pub conversation_truncated: bool,
    pub final_truncated: bool,
}

/// The two kept parts joined with a blank line when both are non-empty.
pub open spec fn joined(cb: Seq<char>, cv: Seq<char>) -> Seq<char> {
    if cv.len() == 0 {
        cb
    } else if cb.len() == 0 {
        cv
    } else {
        cb + "\n\n"@ + cv
    }
}

/// Combine two retrieval results under one shared budget.
///
/// Codebase results are kept first because they are the higher-signal source
/// for a coding task; conversation history fills what remains. Both stages
/// record their pre-truncation length so callers can distinguish "empty" from
/// "cut".
pub fn combine(budget: Budget, codebase: &str, conversation: &str) -> (r: (String, RetrievalMetrics))
    requires
        utf8_len(codebase@) + utf8_len(conversation@) + 2 <= usize::MAX,
    ensures
        exists|cb: Seq<char>, cv: Seq<char>|
            {
                &&& longest_fitting_prefix(codebase@, budget.codebase as int, cb)
                &&& longest_fitting_prefix(conversation@, budget.conversation as int, cv)
                &&& longest_fitting_prefix(joined(cb, cv), budget.total as int, r.0@)
                &&& r.1.codebase_result_len == utf8_len(cb)
                &&& r.1.conversation_result_len == utf8_len(cv)
                &&& r.1.final_truncated == (utf8_len(joined(cb, cv)) > budget.total)
            },
        r.1.total_budget == budget.total,
        r.1.codebase_budget == budget.codebase,
        r.1.conversation_budget == budget.conversation,
        r.1.codebase_result_len_pre_truncation == utf8_len(codebase@),
        r.1.conversation_result_len_pre_truncation == utf8_len(conversation@),
        r.1.combined_result_len == utf8_len(r.0@),
        r.1.codebase_truncated == (utf8_len(codebase@) > budget.codebase),
        r.1.conversation_truncated == (utf8_len(conversation@) > budget.conversation),
        r.1.counts.codebase_chunks_retrieved == 0,
        r.1.timings.codebase_retrieval_elapsed_ms == 0,
{
    let codebase_pre = codebase.len();
    let conversation_pre = conversation.len();
    let (cb, cb_trunc) = truncate_to_budget(codebase, budget.codebase);
    let (cv, cv_trunc) = truncate_to_budget(conversation, budget.conversation);
    let mut combined = chars_of(cb.as_str());
    if cv.as_str().len() > 0 {
        if combined.len() > 0 {
            let sep = chars_of("\n\n");
            append_chars(&mut combined, sep.as_slice());
        }
        append_chars(&mut combined, chars_of(cv.as_str()).as_slice());
    }
    proof {
        assert(cv@.len() == 0 <==> utf8_len(cv@) == 0) by {
            lemma_utf8_len_zero(cv@);
        }
    }
    assert(combined@ == joined(cb@, cv@));
    proof {
        lemma_prefix_utf8_len(codebase@, cb@.len() as int);
        lemma_prefix_utf8_len(conversation@, cv@.len() as int);
        lemma_blank_line_len();
        crate::text::lemma_encode_utf8_concat(cb@, "\n\n"@);
        crate::text::lemma_encode_utf8_concat(cb@ + "\n\n"@, cv@);
    }
    let combined_text = string_of(combined.as_slice());
    let combined_pre = combined_text.as_str().len();
    let (final_text, final_trunc) = truncate_to_budget(combined_text.as_str(), budget.total);
    let metrics = RetrievalMetrics {
        total_budget: budget.total,
        codebase_budget: budget.codebase,
        conversation_budget: budget.conversation,
        timings: PhaseTimings::zero(),
        counts: ChunkCounts::zero(),
        codebase_result_len_pre_truncation: codebase_pre,
        codebase_result_len: cb.as_str().len(),
        conversation_result_len_pre_truncation: conversation_pre,
        conversation_result_len: cv.as_str().len(),
        combined_result_len: final_text.as_str().len(),
        codebase_truncated: cb_trunc,
        conversation_truncated: cv_trunc,
        final_truncated: final_trunc || combined_pre > budget.total,
    };
    (final_text, metrics)
}

/// A prefix encodes to no more bytes than the whole.
pub proof fn lemma_prefix_utf8_len(s: Seq<char>, n: int)
    requires
        0 <= n <= s.len(),
    ensures
        utf8_len(s.take(n)) <= utf8_len(s),
{
    assert(s =~= s.take(n) + s.skip(n));
    crate::text::lemma_encode_utf8_concat(s.take(n), s.skip(n));
}

/// The blank-line separator is two bytes.
pub proof fn lemma_blank_line_len()
    ensures
        utf8_len("\n\n"@) == 2,
{
    reveal_strlit("\n\n");
    let s = "\n\n"@;
    assert(s =~= seq!['\n', '\n']);
    assert(s.drop_first() =~= seq!['\n']);
    assert(s.drop_first().drop_first() =~= Seq::<char>::empty());
    let e0 = vstd::utf8::encode_utf8(s.drop_first().drop_first());
    assert(e0 =~= Seq::<u8>::empty());
    assert(vstd::utf8::encode_scalar('\n' as u32).len() == 1);
    let e1 = vstd::utf8::encode_utf8(s.drop_first());
    assert(e1.len() == 1);
    assert(vstd::utf8::encode_utf8(s).len() == 2);
}

/// Only the empty sequence encodes to no bytes.
pub proof fn lemma_utf8_len_zero(s: Seq<char>)
    ensures
        utf8_len(s) == 0 <==> s.len() == 0,
{
    if s.len() > 0 {
        assert(s =~= s.drop_last().push(s.last()));
        lemma_utf8_len_push(s.drop_last(), s.last());
        vstd::utf8::char_is_scalar(s.last());
    } else {
        assert(vstd::utf8::encode_utf8(s) =~= Seq::<u8>::empty());
    }
}

/// Law: the two halves of a split never exceed the total, and the
/// conversation share never exceeds what was asked for.
pub proof fn law_split_never_exceeds_total(total: usize, conversation_share: usize)
    ensures
        ({
            let conversation = if conversation_share < total {
                conversation_share
            } else {
                total
            };
            &&& conversation <= total
            &&& conversation <= conversation_share
            &&& (total - conversation) + conversation == total
        }),
{
}

/// Law: truncation never exceeds the budget and keeps a prefix of the input.
pub proof fn law_truncation_fits(s: Seq<char>, budget: int, t: Seq<char>)
    requires
        longest_fitting_prefix(s, budget, t),
    ensures
        utf8_len(t) <= budget,
        t.len() <= s.len(),
        forall|i: int| 0 <= i < t.len() ==> t[i] == s[i],
{
}

/// Law: the kept codebase text comes first. It begins the joined text, the
/// kept conversation text ends it, and a blank line stands between them when
/// both are there.
pub proof fn law_codebase_first(cb: Seq<char>, cv: Seq<char>)
    ensures
        joined(cb, cv).len() == cb.len() + cv.len() + if cb.len() > 0 && cv.len() > 0 {
            2int
        } else {
            0int
        },
        joined(cb, cv).take(cb.len() as int) == cb,
        joined(cb, cv).skip(joined(cb, cv).len() - cv.len()) == cv,
        cb.len() > 0 && cv.len() > 0 ==> joined(cb, cv).subrange(
            cb.len() as int,
            cb.len() + 2int,
        ) == "\n\n"@,
{
    reveal_strlit("\n\n");
    let j = joined(cb, cv);
    if cb.len() > 0 && cv.len() > 0 {
        assert(j.take(cb.len() as int) =~= cb);
        assert(j.skip(j.len() - cv.len()) =~= cv);
        assert(j.subrange(cb.len() as int, cb.len() + 2int) =~= "\n\n"@);
    } else {
        assert(j.take(cb.len() as int) =~= cb);
        assert(j.skip(j.len() - cv.len()) =~= cv);
    }
}

/// Law: when the kept codebase text fits the total budget, the final text
/// begins with it whole: the total cut only ever takes from the end, where the
/// conversation text stands.
pub proof fn law_codebase_survives_total_cut(cb: Seq<char>, cv: Seq<char>, total: int, t: Seq<char>)
    requires
        longest_fitting_prefix(joined(cb, cv), total, t),
        utf8_len(cb) <= total,
    ensures
        cb.len() <= t.len(),
        t.take(cb.len() as int) == cb,
{
    law_codebase_first(cb, cv);
    let j = joined(cb, cv);
    if t.len() < cb.len() {
        assert(j.take(t.len() + 1int) =~= cb.take(t.len() + 1int));
        lemma_prefix_utf8_len(cb, t.len() + 1int);
        assert(false);
    }
    assert(t.take(cb.len() as int) =~= j.take(cb.len() as int));
}

} // verus!
