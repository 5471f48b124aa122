//! Local Fusion: the lead/sidekick split.
//!
//! Two models are fused into a single presented identity, both running on
//! the user's machine. The lead owns the conversation and the authority
//! actions; the sidekick is a persistent concurrent peer that does the
//! hands-on work. The lead must never reveal the split.

use vstd::prelude::*;

use crate::text::{
    append_chars, chars_of, find, lex_less, replace_all, replace_chars, sorted_unique,
    strictly_sorted, string_of, trim, trim_chars, views,
};

verus! {

pub const EXTENSION_NAME: &'static str = "local_fusion";

pub const SIDEKICK_TOOL: &'static str = "sidekick";

/// Keys of the sidekick settings, read from the environment first, then the
/// user's configuration file.
pub const SIDEKICK_PROVIDER_KEY: &'static str = "KARMX_SIDEKICK_PROVIDER";

pub const SIDEKICK_MODEL_KEY: &'static str = "KARMX_SIDEKICK_MODEL";

pub const SIDEKICK_COMPACTION_THRESHOLDS_KEY: &'static str = "KARMX_SIDEKICK_COMPACTION_THRESHOLDS";

/// A setting as read: trimmed, and absent when blank.
pub open spec fn setting_value(raw: Option<Seq<char>>) -> Option<Seq<char>> {
    match raw {
        Some(s) => if trim(s).len() > 0 {
            Some(trim(s))
        } else {
            None
        },
        None => None,
    }
}

pub open spec fn opt_view(o: Option<String>) -> Option<Seq<char>> {
    match o {
        Some(s) => Some(s@),
        None => None,
    }
}

pub fn setting(raw: Option<String>) -> (r: Option<String>)
    ensures
        opt_view(r) == setting_value(opt_view(raw)),
{
    match raw {
        Some(s) => {
            let t = trim_chars(chars_of(s.as_str()).as_slice());
            if t.len() > 0 {
                Some(string_of(t.as_slice()))
            } else {
                None
            }
        },
        None => None,
    }
}

/// Provider for the sidekick, from the raw `KARMX_SIDEKICK_PROVIDER`
/// setting; unset means the lead's provider.
pub fn sidekick_provider(raw: Option<String>) -> (r: Option<String>)
    ensures
        opt_view(r) == setting_value(opt_view(raw)),
{
    setting(raw)
}

/// Model for the sidekick, from the raw `KARMX_SIDEKICK_MODEL` setting;
/// unset means the lead's model.
pub fn sidekick_model_uid(raw: Option<String>) -> (r: Option<String>)
    ensures
        opt_view(r) == setting_value(opt_view(raw)),
{
    setting(raw)
}

/// Compaction thresholds for the sidekick chain (`<spawn>,[<apply>,]<hard>`),
/// from the raw `KARMX_SIDEKICK_COMPACTION_THRESHOLDS` setting; unset means
/// the lead's.
pub fn sidekick_compaction_thresholds(raw: Option<String>) -> (r: Option<String>)
    ensures
        opt_view(r) == setting_value(opt_view(raw)),
{
    setting(raw)
}

/// Variables the sidekick prompt is parameterised over.
#[derive(Debug, Clone)]
pub struct PromptVars {
    /// Name of the delegation tool, substituted into `{SIDEKICK_TOOL}`.
    pub sidekick_tool: String,
    /// How the user refers to the lead, e.g. "agent".
    pub lead_identity: String,
    /// Phrase completing "such as {HANDS_ON_EXPLORATION}implementing changes".
    pub hands_on_exploration: String,
    /// What may be delegated, completing "including {DELEGATE_SCOPE}".
    pub delegate_scope: String,
    /// Bullet describing how the lead explores.
    pub lead_exploration: String,
    /// Bullet describing how exploration is delegated.
    pub delegate_exploration: String,
    /// Condition under which the lead implements something itself.
    pub browser_implementation: String,
    /// Bullet about browser work in general.
    pub browser_bullet: String,
    /// Bullet about complex interactive browser work.
    pub complex_browser_bullet: String,
    /// Bullet about authority actions the sidekick cannot perform.
    pub lead_authority: String,
    /// Bullet about reviewing the sidekick's diff.
    pub review_bullet: String,
    /// Guidance on what the lead may do while the sidekick works.
    pub parallel_work: String,
    /// Reminder about actions promised directly to the user.
    pub promised_actions: String,
    /// Bullet about passing file pointers instead of contents.
    pub file_pointers_bullet: String,
    /// Name of the read tool.
    pub read_tool: String,
    /// Where the user can steer work in flight.
    pub steering_surface: String,
    /// Guidance for an ask that is still unsettled.
    pub unsettled_ask: String,
    /// Bullet about blocking dispatch.
    pub blocking_dispatch_bullet: String,
}

impl Default for PromptVars {
    fn default() -> (r: Self)
        ensures
            r.sidekick_tool@ == "sidekick"@,
            r.lead_identity@ == "agent"@,
            r.hands_on_exploration@ == "exploring the codebase, "@,
            r.delegate_scope@ == "exploration, implementation, and verification"@,
            r.lead_exploration@ == "Reading the specific files needed to judge the work."@,
            r.delegate_exploration@ == "- **Exploration:** Delegate broad searches and tracing to the sidekick."@,
            r.browser_implementation@ == "trivially small or correctness-critical"@,
            r.browser_bullet@ == "- **Browser work:** Use the browser tools to verify rendered output."@,
            r.complex_browser_bullet@ == "- **Complex interactive browser work** stays with you: the build and its rendered verification are one inseparable loop."@,
            r.lead_authority@ == "- Messages to the user, review replies, and anything requiring user authority."@,
            r.review_bullet@ == "- Reviewing the diff before it lands."@,
            r.parallel_work@ == "- While the sidekick works, do the review and user-facing follow-ups it cannot."@,
            r.promised_actions@ == "Track the lead-only actions you have promised the user; the sidekick cannot do these."@,
            r.file_pointers_bullet@ == "- Pass file paths and line ranges rather than pasting file contents."@,
            r.read_tool@ == "read"@,
            r.steering_surface@ == "the conversation"@,
            r.unsettled_ask@ == "If an ask is still unsettled, resolve it before dispatching more work."@,
            r.blocking_dispatch_bullet@ == "- Prefer a blocking handoff when you need the result before you can continue."@,
    {
        PromptVars {
            sidekick_tool: SIDEKICK_TOOL.to_owned(),
            lead_identity: "agent".to_owned(),
            hands_on_exploration: "exploring the codebase, ".to_owned(),
            delegate_scope: "exploration, implementation, and verification".to_owned(),
            lead_exploration: "Reading the specific files needed to judge the work.".to_owned(),
            delegate_exploration: "- **Exploration:** Delegate broad searches and tracing to the sidekick.".to_owned(),
            browser_implementation: "trivially small or correctness-critical".to_owned(),
            browser_bullet: "- **Browser work:** Use the browser tools to verify rendered output.".to_owned(),
            complex_browser_bullet: "- **Complex interactive browser work** stays with you: the build and its rendered verification are one inseparable loop.".to_owned(),
            lead_authority: "- Messages to the user, review replies, and anything requiring user authority.".to_owned(),
            review_bullet: "- Reviewing the diff before it lands.".to_owned(),
            parallel_work: "- While the sidekick works, do the review and user-facing follow-ups it cannot.".to_owned(),
            promised_actions: "Track the lead-only actions you have promised the user; the sidekick cannot do these.".to_owned(),
            file_pointers_bullet: "- Pass file paths and line ranges rather than pasting file contents.".to_owned(),
            read_tool: "read".to_owned(),
            steering_surface: "the conversation".to_owned(),
            unsettled_ask: "If an ask is still unsettled, resolve it before dispatching more work.".to_owned(),
            blocking_dispatch_bullet: "- Prefer a blocking handoff when you need the result before you can continue.".to_owned(),
        }
    }
}

/// Each placeholder name with its value, in substitution order.
pub open spec fn placeholder_pairs(v: PromptVars) -> Seq<(Seq<char>, Seq<char>)> {
    seq![
        ("SIDEKICK_TOOL"@, v.sidekick_tool@),
        ("LEAD_IDENTITY"@, v.lead_identity@),
        ("HANDS_ON_EXPLORATION"@, v.hands_on_exploration@),
        ("DELEGATE_SCOPE"@, v.delegate_scope@),
        ("LEAD_EXPLORATION"@, v.lead_exploration@),
        ("DELEGATE_EXPLORATION"@, v.delegate_exploration@),
        ("BROWSER_IMPLEMENTATION"@, v.browser_implementation@),
        ("BROWSER_BULLET"@, v.browser_bullet@),
        ("COMPLEX_BROWSER_BULLET"@, v.complex_browser_bullet@),
        ("LEAD_AUTHORITY"@, v.lead_authority@),
        ("REVIEW_BULLET"@, v.review_bullet@),
        ("PARALLEL_WORK"@, v.parallel_work@),
        ("PROMISED_ACTIONS"@, v.promised_actions@),
        ("FILE_POINTERS_BULLET"@, v.file_pointers_bullet@),
        ("READ_TOOL"@, v.read_tool@),
        ("STEERING_SURFACE"@, v.steering_surface@),
        ("UNSETTLED_ASK"@, v.unsettled_ask@),
        ("BLOCKING_DISPATCH_BULLET"@, v.blocking_dispatch_bullet@),
    ]
}

/// `t` with each `{NAME}` of `pairs` replaced by its value, in order.
pub open spec fn fill(t: Seq<char>, pairs: Seq<(Seq<char>, Seq<char>)>) -> Seq<char>
    decreases pairs.len(),
{
    if pairs.len() == 0 {
        t
    } else {
        fill(replace_all(t, "{"@ + pairs[0].0 + "}"@, pairs[0].1), pairs.drop_first())
    }
}

/// A placeholder name: not empty, ASCII capitals and `_` only.
pub open spec fn placeholder_name(s: Seq<char>) -> bool {
    s.len() > 0 && forall|i: int| 0 <= i < s.len() ==> ('A' <= #[trigger] s[i] <= 'Z' || s[i] == '_')
}

/// The `{NAME}` placeholders of `r` from position `i` on, in order: each
/// `{` up to the next `}` is read as one, and scanning resumes after it.
pub open spec fn placeholders_from(r: Seq<char>, i: int) -> Seq<Seq<char>>
    decreases r.len() - i,
{
    if i < 0 || i >= r.len() {
        Seq::<Seq<char>>::empty()
    } else if r[i] == '{' {
        match find(r.skip(i + 1), seq!['}']) {
            Some(rel) => {
                let inner = r.subrange(i + 1, i + 1 + rel);
                let head = if placeholder_name(inner) {
                    seq![inner]
                } else {
                    Seq::<Seq<char>>::empty()
                };
                if rel >= 0 && i + rel + 2 <= r.len() {
                    head + placeholders_from(r, i + rel + 2)
                } else {
                    Seq::<Seq<char>>::empty()
                }
            },
            None => placeholders_from(r, i + 1),
        }
    } else {
        placeholders_from(r, i + 1)
    }
}

fn is_placeholder_name(s: &[char]) -> (r: bool)
    ensures
        r == placeholder_name(s@),
{
    if s.len() == 0 {
        return false;
    }
    let mut k: usize = 0;
    while k < s.len()
        invariant
            k <= s@.len(),
            forall|i: int| 0 <= i < k ==> ('A' <= #[trigger] s@[i] <= 'Z' || s@[i] == '_'),
        decreases s@.len() - k,
    {
        let c = s[k];
        if !(('A' <= c && c <= 'Z') || c == '_') {
            return false;
        }
        k = k + 1;
    }
    true
}

impl PromptVars {
    fn pairs(&self) -> (r: Vec<(Vec<char>, Vec<char>)>)
        ensures
            r@.len() == placeholder_pairs(*self).len(),
            forall|i: int|
                0 <= i < r@.len() ==> (#[trigger] r@[i]).0@ == "{"@ + placeholder_pairs(*self)[i].0 + "}"@
                    && r@[i].1@ == placeholder_pairs(*self)[i].1,
    {
        let mut v: Vec<(Vec<char>, Vec<char>)> = Vec::new();
        v.push((pattern("SIDEKICK_TOOL"), chars_of(self.sidekick_tool.as_str())));
        v.push((pattern("LEAD_IDENTITY"), chars_of(self.lead_identity.as_str())));
        v.push((pattern("HANDS_ON_EXPLORATION"), chars_of(self.hands_on_exploration.as_str())));
        v.push((pattern("DELEGATE_SCOPE"), chars_of(self.delegate_scope.as_str())));
        v.push((pattern("LEAD_EXPLORATION"), chars_of(self.lead_exploration.as_str())));
        v.push((pattern("DELEGATE_EXPLORATION"), chars_of(self.delegate_exploration.as_str())));
        v.push((pattern("BROWSER_IMPLEMENTATION"), chars_of(self.browser_implementation.as_str())));
        v.push((pattern("BROWSER_BULLET"), chars_of(self.browser_bullet.as_str())));
        v.push((pattern("COMPLEX_BROWSER_BULLET"), chars_of(self.complex_browser_bullet.as_str())));
        v.push((pattern("LEAD_AUTHORITY"), chars_of(self.lead_authority.as_str())));
        v.push((pattern("REVIEW_BULLET"), chars_of(self.review_bullet.as_str())));
        v.push((pattern("PARALLEL_WORK"), chars_of(self.parallel_work.as_str())));
        v.push((pattern("PROMISED_ACTIONS"), chars_of(self.promised_actions.as_str())));
        v.push((pattern("FILE_POINTERS_BULLET"), chars_of(self.file_pointers_bullet.as_str())));
        v.push((pattern("READ_TOOL"), chars_of(self.read_tool.as_str())));
        v.push((pattern("STEERING_SURFACE"), chars_of(self.steering_surface.as_str())));
        v.push((pattern("UNSETTLED_ASK"), chars_of(self.unsettled_ask.as_str())));
        v.push((pattern("BLOCKING_DISPATCH_BULLET"), chars_of(self.blocking_dispatch_bullet.as_str())));
        v
    }

    /// Render `template` with every placeholder filled.
    ///
    /// Unknown placeholders are left in place rather than blanked, so a
    /// template change shows up as a visible `{TOKEN}` instead of silently
    /// vanishing.
    pub fn render(&self, template: &str) -> (r: String)
        ensures
            r@ == fill(template@, placeholder_pairs(*self)),
    {
        let pairs = self.pairs();
        let ghost ps = placeholder_pairs(*self);
        let mut out = chars_of(template);
        let mut k: usize = 0;
        assert(ps.skip(0) =~= ps);
        while k < pairs.len()
            invariant
                k <= pairs@.len() == ps.len(),
                forall|i: int|
                    0 <= i < pairs@.len() ==> (#[trigger] pairs@[i]).0@ == "{"@ + ps[i].0 + "}"@
                        && pairs@[i].1@ == ps[i].1,
                fill(template@, ps) == fill(out@, ps.skip(k as int)),
            decreases pairs@.len() - k,
        {
            let ghost before = out@;
            proof {
                reveal_strlit("{");
                assert(pairs@[k as int].0@.len() > 0);
            }
            out = replace_chars(out.as_slice(), pairs[k].0.as_slice(), pairs[k].1.as_slice());
            assert(ps.skip(k as int)[0] == ps[k as int]);
            assert(ps.skip(k as int).drop_first() =~= ps.skip(k + 1));
            k = k + 1;
        }
        assert(ps.skip(k as int) =~= Seq::<(Seq<char>, Seq<char>)>::empty());
        string_of(out.as_slice())
    }

    /// Placeholders still present after rendering `template`: distinct, in
    /// order.
    pub fn unresolved(&self, template: &str) -> (r: Vec<String>)
        ensures
            strictly_sorted(names_of(r@)),
            forall|x: Seq<char>|
                #[trigger] names_of(r@).contains(x) <==> placeholders_from(
                    fill(template@, placeholder_pairs(*self)),
                    0,
                ).contains(x),
    {
        let rendered = self.render(template);
        let c = chars_of(rendered.as_str());
        let ghost rv = c@;
        let mut found: Vec<Vec<char>> = Vec::new();
        let mut i: usize = 0;
        while i < c.len()
            invariant
                i <= c@.len(),
                rv == c@,
                views(found@) + placeholders_from(rv, i as int) == placeholders_from(rv, 0),
            decreases c@.len() - i,
        {
            if c[i] == '{' {
                let rest = crate::text::copy_range(c.as_slice(), i + 1, c.len());
                assert(rest@ =~= rv.skip(i + 1));
                let close: Vec<char> = vec!['}'];
                assert(close@ =~= seq!['}']);
                match crate::text::find_chars(rest.as_slice(), close.as_slice()) {
                    Some(rel) => {
                        proof {
                            crate::text::lemma_find_from(rest@, close@, 0);
                        }
                        let inner = crate::text::copy_range(c.as_slice(), i + 1, i + 1 + rel);
                        let ghost before = views(found@);
                        if is_placeholder_name(inner.as_slice()) {
                            found.push(inner);
                            assert(views(found@) =~= before.push(inner@));
                        }
                        assert(views(found@) + placeholders_from(rv, i + rel + 2) =~= placeholders_from(rv, 0));
                        i = i + rel + 2;
                        continue;
                    },
                    None => {},
                }
            }
            i = i + 1;
        }
        assert(placeholders_from(rv, i as int) =~= Seq::<Seq<char>>::empty());
        assert(views(found@) =~= placeholders_from(rv, 0));
        let sorted = sorted_unique(&found);
        let mut out: Vec<String> = Vec::new();
        let mut k: usize = 0;
        while k < sorted.len()
            invariant
                k <= sorted@.len(),
                names_of(out@) == views(sorted@).take(k as int),
            decreases sorted@.len() - k,
        {
            let ghost before = names_of(out@);
            let s = string_of(sorted[k].as_slice());
            let ghost sv = s@;
            out.push(s);
            assert(names_of(out@) =~= before.push(sv));
            assert(views(sorted@)[k as int] == sv);
            assert(names_of(out@) =~= views(sorted@).take(k + 1));
            k = k + 1;
        }
        assert(views(sorted@).take(k as int) =~= views(sorted@));
        out
    }
}

pub open spec fn names_of(v: Seq<String>) -> Seq<Seq<char>> {
    v.map_values(|s: String| s@)
}

/// The pattern `{NAME}` for a placeholder name.
fn pattern(name: &str) -> (r: Vec<char>)
    ensures
        r@ == "{"@ + name@ + "}"@,
{
    let mut v = chars_of("{");
    append_chars(&mut v, chars_of(name).as_slice());
    append_chars(&mut v, chars_of("}").as_slice());
    v
}

/// The report contract appended to a brief.
pub open spec fn report_contract() -> Seq<char> {
    "\n\n---\nReport back concisely:\n- what you did or found\n- the evidence: diff summary, test output, file paths\n- anything you could not do, and what you need from me\nDo not restate context I already gave you. Do not ask me to confirm adecision that the brief already settled."@
}

/// Frame a lead's brief for dispatch to the sidekick: the message, trimmed,
/// then the report contract, since the sidekick does not share the lead's
/// conversation.
pub fn sidekick_brief(message: &str) -> (r: String)
    ensures
        r@ == trim(message@) + report_contract(),
{
    let mut v = trim_chars(chars_of(message).as_slice());
    append_chars(
        &mut v,
        chars_of(
            "\n\n---\nReport back concisely:\n- what you did or found\n- the evidence: diff summary, test output, file paths\n- anything you could not do, and what you need from me\nDo not restate context I already gave you. Do not ask me to confirm adecision that the brief already settled.",
        ).as_slice(),
    );
    string_of(v.as_slice())
}

/// The concealment rule, stated once so it can be asserted.
pub fn concealment_note() -> (r: &'static str)
    ensures
        r@ == "Do not mention the sidekick or distinguish its work from your own."@,
{
    "Do not mention the sidekick or distinguish its work from your own."
}

/// `x` holds no brace.
pub open spec fn brace_free(x: Seq<char>) -> bool {
    forall|i: int| 0 <= i < x.len() ==> #[trigger] x[i] != '{' && x[i] != '}'
}

/// The placeholder text `{x}`.
pub open spec fn braced(x: Seq<char>) -> Seq<char> {
    "{"@ + x + "}"@
}

proof fn lemma_braced(x: Seq<char>)
    ensures
        braced(x).len() == x.len() + 2,
        braced(x)[0] == '{',
        braced(x)[x.len() + 1int] == '}',
        forall|i: int| 1 <= i <= x.len() ==> #[trigger] braced(x)[i] == x[i - 1],
{
    reveal_strlit("{");
    reveal_strlit("}");
}

/// Two brace-delimited placeholders that overlap in `s` start at the same
/// place and are the same text.
proof fn lemma_no_overlap(s: Seq<char>, x: Seq<char>, n: Seq<char>, j: int, i: int)
    requires
        brace_free(x),
        brace_free(n),
        crate::text::occurs_at(s, braced(x), j),
        crate::text::occurs_at(s, braced(n), i),
        i <= j < i + braced(n).len() || j <= i < j + braced(x).len(),
    ensures
        x == n,
{
    lemma_braced(x);
    lemma_braced(n);
    let q = braced(x);
    let p = braced(n);
    assert(s[j] == q[0]);
    assert(s[i] == p[0]);
    if i < j {
        assert(s[j] == p[j - i]);
    } else if j < i {
        assert(s[i] == q[i - j]);
    }
    assert(i == j);
    if x.len() < n.len() {
        assert(s[j + x.len() + 1] == q[x.len() + 1int]);
        assert(s[j + x.len() + 1] == p[x.len() + 1int]);
    } else if n.len() < x.len() {
        assert(s[j + n.len() + 1] == p[n.len() + 1int]);
        assert(s[j + n.len() + 1] == q[n.len() + 1int]);
    }
    assert forall|k: int| 0 <= k < x.len() implies x[k] == n[k] by {
        assert(s[j + k + 1] == q[k + 1]);
        assert(s[j + k + 1] == p[k + 1]);
    }
    assert(x =~= n);
}

/// Replacing one placeholder leaves any other placeholder in place,
/// whatever it is replaced with.
pub proof fn lemma_replace_keeps_placeholder(
    s: Seq<char>,
    x: Seq<char>,
    n: Seq<char>,
    with: Seq<char>,
)
    requires
        brace_free(x),
        brace_free(n),
        x != n,
        crate::text::contains(s, braced(x)),
    ensures
        crate::text::contains(replace_all(s, braced(n), with), braced(x)),
    decreases s.len(),
{
    lemma_braced(x);
    lemma_braced(n);
    let q = braced(x);
    let p = braced(n);
    crate::text::lemma_find_from(s, q, 0);
    let j = find(s, q)->0;
    crate::text::lemma_find_from(s, p, 0);
    match find(s, p) {
        Some(i) => {
            let rest = s.skip(i + p.len());
            let out = s.take(i) + with + replace_all(rest, p, with);
            if j + q.len() <= i {
                assert(s.take(i).subrange(j, j + q.len()) =~= s.subrange(j, j + q.len()));
                crate::text::lemma_contains_at(s.take(i), q, j);
                crate::text::lemma_contains_extend(s.take(i), with + replace_all(rest, p, with), q);
                assert(s.take(i) + (with + replace_all(rest, p, with)) =~= out);
            } else if i + p.len() <= j {
                let j2 = j - i - p.len();
                assert(rest.subrange(j2, j2 + q.len()) =~= s.subrange(j, j + q.len()));
                crate::text::lemma_contains_at(rest, q, j2);
                lemma_replace_keeps_placeholder(rest, x, n, with);
                crate::text::lemma_contains_suffix(s.take(i) + with, replace_all(rest, p, with), q);
            } else {
                lemma_no_overlap(s, x, n, j, i);
            }
        },
        None => {},
    }
}

/// Filling placeholders whose names are brace-free and differ from `x`
/// keeps `{x}` in the text.
pub proof fn lemma_fill_keeps_placeholder(
    t: Seq<char>,
    pairs: Seq<(Seq<char>, Seq<char>)>,
    x: Seq<char>,
)
    requires
        brace_free(x),
        forall|k: int| 0 <= k < pairs.len() ==> brace_free(#[trigger] pairs[k].0) && pairs[k].0 != x,
        crate::text::contains(t, braced(x)),
    ensures
        crate::text::contains(fill(t, pairs), braced(x)),
    decreases pairs.len(),
{
    if pairs.len() > 0 {
        assert(brace_free(pairs[0].0) && pairs[0].0 != x);
        assert("{"@ + pairs[0].0 + "}"@ == braced(pairs[0].0));
        lemma_replace_keeps_placeholder(t, x, pairs[0].0, pairs[0].1);
        assert forall|k: int| 0 <= k < pairs.drop_first().len() implies brace_free(
            #[trigger] pairs.drop_first()[k].0,
        ) && pairs.drop_first()[k].0 != x by {
            assert(pairs.drop_first()[k] == pairs[k + 1]);
        }
        lemma_fill_keeps_placeholder(
            replace_all(t, "{"@ + pairs[0].0 + "}"@, pairs[0].1),
            pairs.drop_first(),
            x,
        );
    }
}

/// The known placeholder names are written in capitals and underscores.
pub proof fn lemma_known_names(v: PromptVars)
    ensures
        forall|k: int|
            0 <= k < placeholder_pairs(v).len() ==> placeholder_name(#[trigger] placeholder_pairs(v)[k].0),
{
    reveal_strlit("SIDEKICK_TOOL");
    reveal_strlit("LEAD_IDENTITY");
    reveal_strlit("HANDS_ON_EXPLORATION");
    reveal_strlit("DELEGATE_SCOPE");
    reveal_strlit("LEAD_EXPLORATION");
    reveal_strlit("DELEGATE_EXPLORATION");
    reveal_strlit("BROWSER_IMPLEMENTATION");
    reveal_strlit("BROWSER_BULLET");
    reveal_strlit("COMPLEX_BROWSER_BULLET");
    reveal_strlit("LEAD_AUTHORITY");
    reveal_strlit("REVIEW_BULLET");
    reveal_strlit("PARALLEL_WORK");
    reveal_strlit("PROMISED_ACTIONS");
    reveal_strlit("FILE_POINTERS_BULLET");
    reveal_strlit("READ_TOOL");
    reveal_strlit("STEERING_SURFACE");
    reveal_strlit("UNSETTLED_ASK");
    reveal_strlit("BLOCKING_DISPATCH_BULLET");
}

/// Law: rendering never blanks a placeholder it does not know. A `{X}` in
/// the template whose name is not one of the known ones is still in the
/// rendered text, whatever values the variables hold.
pub proof fn law_render_keeps_unknown_placeholders(v: PromptVars, template: Seq<char>, x: Seq<char>)
    requires
        brace_free(x),
        crate::text::contains(template, braced(x)),
        forall|k: int| 0 <= k < placeholder_pairs(v).len() ==> #[trigger] placeholder_pairs(v)[k].0 != x,
    ensures
        crate::text::contains(fill(template, placeholder_pairs(v)), braced(x)),
{
    lemma_known_names(v);
    assert forall|k: int| 0 <= k < placeholder_pairs(v).len() implies brace_free(
        #[trigger] placeholder_pairs(v)[k].0,
    ) && placeholder_pairs(v)[k].0 != x by {
        let nm = placeholder_pairs(v)[k].0;
        assert(placeholder_name(nm));
        assert forall|i: int| 0 <= i < nm.len() implies #[trigger] nm[i] != '{' && nm[i] != '}' by {
            assert('A' <= nm[i] <= 'Z' || nm[i] == '_');
        }
    }
    lemma_fill_keeps_placeholder(template, placeholder_pairs(v), x);
}

} // verus!
