//! Predictive compaction thresholds.
//!
//! Three absolute token counts: at `spawn` a summary starts in the background,
//! from `apply` the ready summary is preferred, and at `hard` inference waits
//! for a summary. The two-value form `<spawn>,<hard>` sets `apply = spawn`.

use vstd::prelude::*;

use crate::text::{
    lemma_parse_decimal, lemma_split_concat, lemma_split_no_sep,
    append_chars, chars_of, debug_chars, debug_quote, debug_str, decimal, decimal_u64, parse_usize,
    parse_usize_chars, split_char, split_chars, string_of, trim, trim_chars,
};

verus! {

/// Which side of the thresholds a token count falls on.
#[derive(Debug, Clone, Copy, PartialEq, Eq, Structural)]
pub enum Phase {
    /// Below spawn. Nothing to do.
    Idle,
    /// At or past spawn, before apply.
    Spawning,
    /// At or past apply, before hard.
    Applying,
    /// At or past hard. Inference must wait for a summary.
    Blocking,
}

impl Phase {
    /// Whether a background summary should be running in this phase.
    pub fn wants_summary(self) -> (r: bool)
        ensures
            r == (self != Phase::Idle),
    {
        match self {
            Phase::Idle => false,
            _ => true,
        }
    }

    /// Whether inference must wait for a summary before proceeding.
    pub fn is_blocking(self) -> (r: bool)
        ensures
            r == (self == Phase::Blocking),
    {
        match self {
            Phase::Blocking => true,
            _ => false,
        }
    }
}

/// Three absolute token thresholds.
#[derive(Debug, Clone, Copy, PartialEq, Eq, Structural)]
pub struct CompactionThresholds {
    pub spawn: usize,
    pub apply: usize,
    pub hard: usize,
}

/// Why a threshold specification was refused; the message says what was wrong.
#[derive(Debug)]
pub struct ThresholdParseError(String);

impl View for ThresholdParseError {
    type V = Seq<char>;

    closed spec fn view(&self) -> Seq<char> {
        self.0@
    }
}

impl ThresholdParseError {
    /// The human-readable message (what `Display` prints).
    pub fn to_string(&self) -> (r: String)
        ensures
            r@ == self@,
    {
        self.0.clone()
    }
}

/// The message for a zero threshold.
pub open spec fn msg_not_positive() -> Seq<char> {
    "thresholds must be positive token counts"@
}

/// The message for thresholds out of order.
pub open spec fn msg_out_of_order(spawn: usize, apply: usize, hard: usize) -> Seq<char> {
    "thresholds must satisfy spawn <= apply <= hard, got "@ + display_triple(spawn, apply, hard)
}

/// `spawn,apply,hard` in decimal.
pub open spec fn display_triple(spawn: usize, apply: usize, hard: usize) -> Seq<char> {
    decimal(spawn as nat) + seq![','] + decimal(apply as nat) + seq![','] + decimal(hard as nat)
}

/// What [`CompactionThresholds::new`] returns: the thresholds, or the message.
pub open spec fn new_outcome(spawn: usize, apply: usize, hard: usize) -> Result<
    CompactionThresholds,
    Seq<char>,
> {
    if spawn == 0 || apply == 0 || hard == 0 {
        Err(msg_not_positive())
    } else if !(spawn <= apply && apply <= hard) {
        Err(msg_out_of_order(spawn, apply, hard))
    } else {
        Ok(CompactionThresholds { spawn, apply, hard })
    }
}

/// The comma-separated pieces of a specification, each trimmed.
pub open spec fn threshold_parts(s: Seq<char>) -> Seq<Seq<char>> {
    split_char(s, ',').map_values(|p: Seq<char>| trim(p))
}

/// The pieces parsed in order: every count, or the index of the first piece
/// that is not one.
pub open spec fn parse_all(parts: Seq<Seq<char>>) -> Result<Seq<usize>, int>
    decreases parts.len(),
{
    if parts.len() == 0 {
        Ok(Seq::<usize>::empty())
    } else {
        match parse_all(parts.drop_last()) {
            Err(i) => Err(i),
            Ok(ns) => match parse_usize(parts.last()) {
                Some(n) => Ok(ns.push(n)),
                None => Err(parts.len() - 1),
            },
        }
    }
}

/// What [`CompactionThresholds::parse`] returns for `s`.
pub open spec fn parse_outcome(s: Seq<char>) -> Result<CompactionThresholds, Seq<char>> {
    let parts = threshold_parts(s);
    match parse_all(parts) {
        Err(i) => Err(
            "expected positive token counts, got "@ + debug_str(parts[i]) + " in "@ + debug_str(s),
        ),
        Ok(ns) => if ns.len() == 2 {
            new_outcome(ns[0], ns[0], ns[1])
        } else if ns.len() == 3 {
            new_outcome(ns[0], ns[1], ns[2])
        } else {
            Err("expected two or three comma-separated counts, got "@ + decimal(ns.len()))
        },
    }
}

pub proof fn lemma_parse_all_len(parts: Seq<Seq<char>>)
    ensures
        parse_all(parts) matches Ok(ns) ==> ns.len() == parts.len(),
        parse_all(parts) matches Err(i) ==> 0 <= i < parts.len() && parse_usize(parts[i]) is None,
    decreases parts.len(),
{
    if parts.len() > 0 {
        lemma_parse_all_len(parts.drop_last());
    }
}

pub proof fn lemma_parse_all_err_prefix(parts: Seq<Seq<char>>, j: int)
    requires
        0 <= j <= parts.len(),
        parse_all(parts.take(j)) is Err,
    ensures
        parse_all(parts) == parse_all(parts.take(j)),
    decreases parts.len(),
{
    if j == parts.len() {
        assert(parts.take(j) =~= parts);
    } else {
        assert(parts.drop_last().take(j) =~= parts.take(j));
        lemma_parse_all_err_prefix(parts.drop_last(), j);
    }
}

impl CompactionThresholds {
    /// Thresholds after checking they are positive and ordered.
    pub fn new(spawn: usize, apply: usize, hard: usize) -> (r: Result<Self, ThresholdParseError>)
        ensures
            match r {
                Ok(t) => new_outcome(spawn, apply, hard) == Ok::<_, Seq<char>>(t),
                Err(e) => new_outcome(spawn, apply, hard) == Err::<CompactionThresholds, _>(e@),
            },
    {
        if spawn == 0 || apply == 0 || hard == 0 {
            return Err(ThresholdParseError(string_of(chars_of("thresholds must be positive token counts").as_slice())));
        }
        if !(spawn <= apply && apply <= hard) {
            let mut m = chars_of("thresholds must satisfy spawn <= apply <= hard, got ");
            let d = display_triple_chars(spawn, apply, hard);
            append_chars(&mut m, d.as_slice());
            return Err(ThresholdParseError(string_of(m.as_slice())));
        }
        Ok(CompactionThresholds { spawn, apply, hard })
    }

    /// Parse `<spawn>,[<apply>,]<hard>`.
    ///
    /// Two values set `apply = spawn`. Each piece may carry surrounding
    /// whitespace.
    pub fn parse(s: &str) -> (r: Result<Self, ThresholdParseError>)
        ensures
            match r {
                Ok(t) => parse_outcome(s@) == Ok::<_, Seq<char>>(t),
                Err(e) => parse_outcome(s@) == Err::<CompactionThresholds, _>(e@),
            },
    {
        let cs = chars_of(s);
        let raw = split_chars(cs.as_slice(), ',');
        let ghost parts = threshold_parts(s@);
        let mut nums: Vec<usize> = Vec::new();
        let mut k: usize = 0;
        while k < raw.len()
            invariant
                cs@ == s@,
                k <= raw@.len() == parts.len(),
                parts == threshold_parts(s@),
                forall|i: int| 0 <= i < raw@.len() ==> #[trigger] raw@[i]@ == split_char(s@, ',')[i],
                parse_all(parts.take(k as int)) == Ok::<_, int>(nums@),
            decreases raw@.len() - k,
        {
            let p = trim_chars(raw[k].as_slice());
            assert(parts.take(k + 1).drop_last() =~= parts.take(k as int));
            assert(p@ == parts[k as int]);
            match parse_usize_chars(p.as_slice()) {
                Some(n) => {
                    nums.push(n);
                },
                None => {
                    proof {
                        lemma_parse_all_err_prefix(parts, k + 1);
                    }
                    let mut m = chars_of("expected positive token counts, got ");
                    let dp = debug_chars(p.as_slice());
                    append_chars(&mut m, dp.as_slice());
                    let sep = chars_of(" in ");
                    append_chars(&mut m, sep.as_slice());
                    let ds = debug_quote(s);
                    let dsc = chars_of(ds.as_str());
                    append_chars(&mut m, dsc.as_slice());
                    return Err(ThresholdParseError(string_of(m.as_slice())));
                },
            }
            k = k + 1;
        }
        assert(parts.take(k as int) =~= parts);
        if nums.len() == 2 {
            Self::new(nums[0], nums[0], nums[1])
        } else if nums.len() == 3 {
            Self::new(nums[0], nums[1], nums[2])
        } else {
            let mut m = chars_of("expected two or three comma-separated counts, got ");
            let d = decimal_u64(nums.len() as u64);
            append_chars(&mut m, d.as_slice());
            Err(ThresholdParseError(string_of(m.as_slice())))
        }
    }

    /// Which phase `tokens` falls in. Every boundary is inclusive.
    pub fn phase(&self, tokens: usize) -> (r: Phase)
        ensures
            r == (if tokens >= self.hard {
                Phase::Blocking
            } else if tokens >= self.apply {
                Phase::Applying
            } else if tokens >= self.spawn {
                Phase::Spawning
            } else {
                Phase::Idle
            }),
    {
        if tokens >= self.hard {
            Phase::Blocking
        } else if tokens >= self.apply {
            Phase::Applying
        } else if tokens >= self.spawn {
            Phase::Spawning
        } else {
            Phase::Idle
        }
    }

    /// Whether the summariser should be started at `tokens`.
    pub fn should_spawn(&self, tokens: usize) -> (r: bool)
        ensures
            r == (tokens >= self.spawn || tokens >= self.apply || tokens >= self.hard),
    {
        self.phase(tokens).wants_summary()
    }

    /// Whether inference must wait for a summary at `tokens`.
    pub fn must_block(&self, tokens: usize) -> (r: bool)
        ensures
            r == (tokens >= self.hard),
    {
        self.phase(tokens).is_blocking()
    }

    /// `spawn,apply,hard`, as `Display` writes it.
    pub fn to_string(&self) -> (r: String)
        ensures
            r@ == display_triple(self.spawn, self.apply, self.hard),
    {
        string_of(display_triple_chars(self.spawn, self.apply, self.hard).as_slice())
    }
}

fn display_triple_chars(spawn: usize, apply: usize, hard: usize) -> (v: Vec<char>)
    ensures
        v@ == display_triple(spawn, apply, hard),
{
    let mut v = decimal_u64(spawn as u64);
    v.push(',');
    let a = decimal_u64(apply as u64);
    append_chars(&mut v, a.as_slice());
    v.push(',');
    let h = decimal_u64(hard as u64);
    append_chars(&mut v, h.as_slice());
    assert(v@ =~= display_triple(spawn, apply, hard));
    v
}

/// Whether a summary started at `started_at_tokens` is still usable at
/// `current_tokens`: the conversation grew by at most `stale_after` tokens.
pub fn summary_is_fresh(started_at_tokens: usize, current_tokens: usize, stale_after: usize) -> (r:
    bool)
    ensures
        r == (current_tokens - started_at_tokens <= stale_after),
{
    current_tokens.saturating_sub(started_at_tokens) <= stale_after
}


/// Law: the text `to_string` writes for valid thresholds parses back to the
/// same thresholds.
pub proof fn law_display_parse_round_trip(t: CompactionThresholds)
    requires
        new_outcome(t.spawn, t.apply, t.hard) is Ok,
    ensures
        parse_outcome(display_triple(t.spawn, t.apply, t.hard)) == Ok::<_, Seq<char>>(t),
{
    let d1 = decimal(t.spawn as nat);
    let d2 = decimal(t.apply as nat);
    let d3 = decimal(t.hard as nat);
    lemma_parse_decimal(t.spawn);
    lemma_parse_decimal(t.apply);
    lemma_parse_decimal(t.hard);
    lemma_split_no_sep(d1, ',');
    lemma_split_no_sep(d2, ',');
    lemma_split_no_sep(d3, ',');
    let s = display_triple(t.spawn, t.apply, t.hard);
    assert(s =~= (d1.push(',') + d2).push(',') + d3);
    lemma_split_concat(d1.push(',') + d2, d3, ',');
    lemma_split_concat(d1, d2, ',');
    assert(split_char(s, ',') =~= seq![d1, d2, d3]);
    let parts = threshold_parts(s);
    assert(parts =~= seq![d1, d2, d3]);
    let p1 = seq![d1];
    let p2 = seq![d1, d2];
    assert(p1.drop_last() =~= Seq::<Seq<char>>::empty());
    assert(p2.drop_last() =~= p1);
    assert(parts.drop_last() =~= p2);
    assert(Seq::<usize>::empty().push(t.spawn) =~= seq![t.spawn]);
    assert(parse_all(Seq::<Seq<char>>::empty()) == Ok::<_, int>(Seq::<usize>::empty()));
    assert(p1.last() == d1);
    assert(parse_all(p1) == Ok::<_, int>(seq![t.spawn]));
    assert(seq![t.spawn].push(t.apply) =~= seq![t.spawn, t.apply]);
    assert(parse_all(p2) == Ok::<_, int>(seq![t.spawn, t.apply]));
    assert(seq![t.spawn, t.apply].push(t.hard) =~= seq![t.spawn, t.apply, t.hard]);
    assert(parse_all(parts) == Ok::<_, int>(seq![t.spawn, t.apply, t.hard]));
}

/// Law: for ordered thresholds the phase never goes back as tokens grow.
pub proof fn law_phase_monotone(t: CompactionThresholds, lo: usize, hi: usize)
    requires
        t.spawn <= t.apply <= t.hard,
        lo <= hi,
    ensures
        phase_rank(phase_of(t, lo)) <= phase_rank(phase_of(t, hi)),
{
}

/// Law: accepted thresholds are positive and ordered.
pub proof fn law_accepted_thresholds_are_ordered(spawn: usize, apply: usize, hard: usize)
    requires
        new_outcome(spawn, apply, hard) is Ok,
    ensures
        0 < spawn <= apply <= hard,
{
}

/// The phase `CompactionThresholds::phase` returns.
pub open spec fn phase_of(t: CompactionThresholds, tokens: usize) -> Phase {
    if tokens >= t.hard {
        Phase::Blocking
    } else if tokens >= t.apply {
        Phase::Applying
    } else if tokens >= t.spawn {
        Phase::Spawning
    } else {
        Phase::Idle
    }
}

/// Phases in the order a growing conversation passes through them.
pub open spec fn phase_rank(p: Phase) -> int {
    match p {
        Phase::Idle => 0,
        Phase::Spawning => 1,
        Phase::Applying => 2,
        Phase::Blocking => 3,
    }
}

/// `x` held within `lo..=hi` (`lo <= hi`).
pub open spec fn clamped(x: int, lo: int, hi: int) -> int {
    if x < lo {
        lo
    } else if x > hi {
        hi
    } else {
        x
    }
}

impl CompactionThresholds {
    /// Thresholds for a context window of `limit` tokens when apply should
    /// sit near `apply_estimate` (the limit scaled by the compaction
    /// fraction). Every value is held to at least one token and to the limit,
    /// and spawn starts a tenth of the remaining headroom before apply, so a
    /// summary for a large window is not begun at the moment it is needed.
    pub fn from_limit(limit: usize, apply_estimate: usize) -> (r: Self)
        ensures
            r.hard == if limit < 1 {
                1
            } else {
                limit
            },
            r.apply == clamped(apply_estimate as int, 1, r.hard as int),
            r.spawn == clamped(r.apply - (r.hard - r.apply) / 10, 1, r.apply as int),
            new_outcome(r.spawn, r.apply, r.hard) is Ok,
    {
        let hard = if limit < 1 {
            1
        } else {
            limit
        };
        let apply = if apply_estimate < 1 {
            1
        } else if apply_estimate > hard {
            hard
        } else {
            apply_estimate
        };
        let headroom = hard - apply;
        let early = apply.saturating_sub(headroom / 10);
        let spawn = if early < 1 {
            1
        } else {
            early
        };
        CompactionThresholds { spawn, apply, hard }
    }
}

} // verus!
