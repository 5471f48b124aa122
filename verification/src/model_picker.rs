//! The `/model` overlay: type to search, up/down to move, right to cycle
//! thinking effort, tab to edit the sidekick, enter/left to confirm, escape
//! to cancel.
//!
//! The terminal loop (drawing, reading keys, persisting the sidekick) is the
//! caller's; [`Overlay`] holds the overlay's state and decides what each key
//! does.

use vstd::prelude::*;

use crate::text::{
    append_chars, chars_eq, chars_of, contains, contains_chars, join, lower_ascii, lower_ascii_seq,
    lower_chars, string_of, views,
};

verus! {

/// Most rows shown at once.
pub const MAX_VISIBLE_ROWS: usize = 12;

/// How much a reasoning model thinks.
#[derive(Debug, Clone, Copy, PartialEq, Eq, Structural)]
pub enum ThinkingEffort {
    Off,
    Low,
    Medium,
    High,
    Max,
}

pub open spec fn effort_rank(e: ThinkingEffort) -> int {
    match e {
        ThinkingEffort::Off => 0,
        ThinkingEffort::Low => 1,
        ThinkingEffort::Medium => 2,
        ThinkingEffort::High => 3,
        ThinkingEffort::Max => 4,
    }
}

/// The next effort, wrapping from `Max` back to `Off`.
pub fn cycle_effort(current: ThinkingEffort) -> (r: ThinkingEffort)
    ensures
        effort_rank(r) == (effort_rank(current) + 1) % 5,
{
    match current {
        ThinkingEffort::Off => ThinkingEffort::Low,
        ThinkingEffort::Low => ThinkingEffort::Medium,
        ThinkingEffort::Medium => ThinkingEffort::High,
        ThinkingEffort::High => ThinkingEffort::Max,
        ThinkingEffort::Max => ThinkingEffort::Off,
    }
}

pub open spec fn effort_bar_text(e: ThinkingEffort) -> Seq<char> {
    match e {
        ThinkingEffort::Off => "    "@,
        ThinkingEffort::Low => "▪   "@,
        ThinkingEffort::Medium => "▪▪  "@,
        ThinkingEffort::High => "▪▪▪ "@,
        ThinkingEffort::Max => "▪▪▪▪"@,
    }
}

pub fn effort_bar(effort: ThinkingEffort) -> (r: &'static str)
    ensures
        r@ == effort_bar_text(effort),
{
    match effort {
        ThinkingEffort::Off => "    ",
        ThinkingEffort::Low => "▪   ",
        ThinkingEffort::Medium => "▪▪  ",
        ThinkingEffort::High => "▪▪▪ ",
        ThinkingEffort::Max => "▪▪▪▪",
    }
}

pub open spec fn effort_label_text(e: ThinkingEffort) -> Seq<char> {
    match e {
        ThinkingEffort::Off => "Off"@,
        ThinkingEffort::Low => "Low"@,
        ThinkingEffort::Medium => "Medium"@,
        ThinkingEffort::High => "High"@,
        ThinkingEffort::Max => "Max"@,
    }
}

pub fn effort_label(effort: ThinkingEffort) -> (r: &'static str)
    ensures
        r@ == effort_label_text(effort),
{
    match effort {
        ThinkingEffort::Off => "Off",
        ThinkingEffort::Low => "Low",
        ThinkingEffort::Medium => "Medium",
        ThinkingEffort::High => "High",
        ThinkingEffort::Max => "Max",
    }
}

/// Which side the overlay is choosing for.
#[derive(Debug, Clone, Copy, PartialEq, Eq, Structural)]
pub enum Focus {
    Lead,
    Sidekick,
}

#[derive(Debug, Clone)]
pub struct ModelRow {
    pub provider: String,
    pub model: String,
    pub reasoning: bool,
    pub effort: ThinkingEffort,
}

/// One line of the list: the sidekick's "same as lead", or a model row.
#[derive(Debug, Clone, Copy, PartialEq, Eq, Structural)]
pub enum ListEntry {
    SameAsLead,
    Model(usize),
}

/// What `char::to_uppercase` makes of `c`: its Unicode uppercase mapping (a
/// character may map to several).
pub uninterp spec fn char_uppercase(c: char) -> Seq<char>;

/// `char::to_uppercase`, collected. On ASCII letters it is ASCII
/// upper-casing; other ASCII characters are unchanged.
#[verifier::external_body]
fn uppercase_char(c: char) -> (r: String)
    ensures
        r@ == char_uppercase(c),
        'a' <= c <= 'z' ==> r@ == seq![((c as u32) - 32) as char],
        (c as u32) < 128 && !('a' <= c <= 'z') ==> r@ == seq![c],
{
    c.to_uppercase().collect::<String>()
}

/// Separators of a model id.
pub open spec fn is_id_separator(c: char) -> bool {
    c == '-' || c == '_'
}

/// `s` split at every `-` and `_`.
pub open spec fn id_parts(s: Seq<char>) -> Seq<Seq<char>>
    decreases s.len(),
{
    if s.len() == 0 {
        seq![Seq::<char>::empty()]
    } else {
        let p = id_parts(s.drop_last());
        if is_id_separator(s.last()) {
            p.push(Seq::<char>::empty())
        } else {
            p.update(p.len() - 1, p.last().push(s.last()))
        }
    }
}

pub proof fn lemma_id_parts_nonempty(s: Seq<char>)
    ensures
        id_parts(s).len() >= 1,
    decreases s.len(),
{
    if s.len() > 0 {
        lemma_id_parts_nonempty(s.drop_last());
    }
}

/// Acronyms kept in capitals.
pub open spec fn acronyms() -> Seq<Seq<char>> {
    seq!["gpt"@, "glm"@, "swe"@, "aws"@, "api"@, "o1"@, "o3"@, "o4"@]
}

pub open spec fn upper_ascii(c: char) -> char {
    if 'a' <= c && c <= 'z' {
        ((c as u32) - 32) as char
    } else {
        c
    }
}

pub open spec fn upper_ascii_seq(s: Seq<char>) -> Seq<char> {
    s.map_values(|c: char| upper_ascii(c))
}

/// A part made of digits, `.` and `x` only (a version or a size).
pub open spec fn version_like(p: Seq<char>) -> bool {
    forall|i: int| 0 <= i < p.len() ==> ('0' <= #[trigger] p[i] <= '9' || p[i] == '.' || p[i] == 'x')
}

/// A character as a capital: ASCII letters upper-cased, other ASCII
/// unchanged, anything else by its Unicode uppercase mapping.
pub open spec fn capital_of(c: char) -> Seq<char> {
    if (c as u32) < 128 {
        seq![upper_ascii(c)]
    } else {
        char_uppercase(c)
    }
}

/// How one part of a model id is shown.
pub open spec fn friendly_part(p: Seq<char>) -> Seq<char> {
    if acronyms().contains(lower_ascii_seq(p)) {
        upper_ascii_seq(p)
    } else if version_like(p) {
        p
    } else {
        capital_of(p[0]) + p.drop_first()
    }
}

/// The non-empty parts of `ps`, each shown friendly.
pub open spec fn friendly_parts(ps: Seq<Seq<char>>) -> Seq<Seq<char>>
    decreases ps.len(),
{
    if ps.len() == 0 {
        Seq::<Seq<char>>::empty()
    } else {
        let prev = friendly_parts(ps.drop_last());
        if ps.last().len() > 0 {
            prev.push(friendly_part(ps.last()))
        } else {
            prev
        }
    }
}

/// A model id as people say it: parts title-cased, acronyms in capitals,
/// versions as they are.
pub open spec fn friendly_name(id: Seq<char>) -> Seq<char> {
    join(friendly_parts(id_parts(id)), " "@)
}

fn split_id(s: &[char]) -> (parts: Vec<Vec<char>>)
    ensures
        views(parts@) == id_parts(s@),
{
    let mut parts: Vec<Vec<char>> = Vec::new();
    let mut cur: Vec<char> = Vec::new();
    let mut k: usize = 0;
    while k < s.len()
        invariant
            k <= s@.len(),
            views(parts@).push(cur@) == id_parts(s@.take(k as int)),
        decreases s@.len() - k,
    {
        proof {
            lemma_id_parts_nonempty(s@.take(k as int));
            assert(s@.take(k + 1).drop_last() =~= s@.take(k as int));
        }
        let ghost before = views(parts@);
        if s[k] == '-' || s[k] == '_' {
            let done = cur;
            parts.push(done);
            cur = Vec::new();
            assert(views(parts@) =~= before.push(done@));
            assert(views(parts@).push(cur@) =~= id_parts(s@.take(k + 1)));
        } else {
            cur.push(s[k]);
            assert(views(parts@).push(cur@) =~= id_parts(s@.take(k + 1)));
        }
        k = k + 1;
    }
    assert(s@.take(k as int) =~= s@);
    let ghost before = views(parts@);
    parts.push(cur);
    assert(views(parts@) =~= before.push(cur@));
    parts
}

fn upper_chars(s: &[char]) -> (v: Vec<char>)
    ensures
        v@ == upper_ascii_seq(s@),
{
    let mut v: Vec<char> = Vec::new();
    let mut k: usize = 0;
    while k < s.len()
        invariant
            k <= s@.len(),
            v@ == upper_ascii_seq(s@.take(k as int)),
        decreases s@.len() - k,
    {
        let c = s[k];
        let u = if 'a' <= c && c <= 'z' {
            let b: u8 = (c as u32) as u8;
            (b - 32) as char
        } else {
            c
        };
        v.push(u);
        k = k + 1;
        assert(v@ =~= upper_ascii_seq(s@.take(k as int)));
    }
    assert(s@.take(k as int) =~= s@);
    v
}

fn is_version_like(p: &[char]) -> (r: bool)
    ensures
        r == version_like(p@),
{
    let mut k: usize = 0;
    while k < p.len()
        invariant
            k <= p@.len(),
            forall|i: int| 0 <= i < k ==> ('0' <= #[trigger] p@[i] <= '9' || p@[i] == '.' || p@[i] == 'x'),
        decreases p@.len() - k,
    {
        let c = p[k];
        if !(('0' <= c && c <= '9') || c == '.' || c == 'x') {
            return false;
        }
        k = k + 1;
    }
    true
}

fn friendly_part_chars(p: &[char]) -> (r: Vec<char>)
    requires
        p@.len() > 0,
    ensures
        r@ == friendly_part(p@),
{
    let lower = lower_chars(p);
    let acr = vec![
        chars_of("gpt"),
        chars_of("glm"),
        chars_of("swe"),
        chars_of("aws"),
        chars_of("api"),
        chars_of("o1"),
        chars_of("o3"),
        chars_of("o4"),
    ];
    assert(views(acr@) =~= acronyms());
    if crate::text::one_of(lower.as_slice(), &acr) {
        return upper_chars(p);
    }
    if is_version_like(p) {
        return crate::text::copy_range(p, 0, p.len());
    }
    let head = uppercase_char(p[0]);
    let mut v = chars_of(head.as_str());
    let rest = crate::text::copy_range(p, 1, p.len());
    assert(rest@ =~= p@.drop_first());
    append_chars(&mut v, rest.as_slice());
    v
}

/// A model id as people say it, e.g. `mistral-large-4` as `Mistral Large 4`.
pub fn friendly_model_name(id: &str) -> (r: String)
    ensures
        r@ == friendly_name(id@),
{
    let parts = split_id(chars_of(id).as_slice());
    let ghost ps = views(parts@);
    let mut shown: Vec<Vec<char>> = Vec::new();
    let mut k: usize = 0;
    while k < parts.len()
        invariant
            k <= parts@.len(),
            ps == views(parts@),
            views(shown@) == friendly_parts(ps.take(k as int)),
        decreases parts@.len() - k,
    {
        assert(ps.take(k + 1).drop_last() =~= ps.take(k as int));
        assert(ps[k as int] == parts@[k as int]@);
        if parts[k].len() > 0 {
            let f = friendly_part_chars(parts[k].as_slice());
            let ghost before = views(shown@);
            shown.push(f);
            assert(views(shown@) =~= before.push(f@));
        }
        k = k + 1;
    }
    assert(ps.take(k as int) =~= ps);
    let joined = crate::text::join_chars(&shown, chars_of(" ").as_slice());
    string_of(joined.as_slice())
}

/// `haystack` contains `query`, ASCII case ignored; an empty query matches.
pub open spec fn matches_query(haystack: Seq<char>, query: Seq<char>) -> bool {
    query.len() == 0 || contains(lower_ascii_seq(haystack), lower_ascii_seq(query))
}

pub fn query_matches(haystack: &str, query: &str) -> (r: bool)
    ensures
        r == matches_query(haystack@, query@),
{
    let q = chars_of(query);
    if q.len() == 0 {
        return true;
    }
    let h = lower_chars(chars_of(haystack).as_slice());
    let ql = lower_chars(q.as_slice());
    contains_chars(h.as_slice(), ql.as_slice())
}

/// A row is found by its model id, its provider, or its friendly name.
pub open spec fn row_found(row: ModelRow, query: Seq<char>) -> bool {
    query.len() == 0 || contains(lower_ascii_seq(row.model@), lower_ascii_seq(query)) || contains(
        lower_ascii_seq(row.provider@),
        lower_ascii_seq(query),
    ) || contains(lower_ascii_seq(friendly_name(row.model@)), lower_ascii_seq(query))
}

pub fn row_matches(row: &ModelRow, query: &str) -> (r: bool)
    ensures
        r == row_found(*row, query@),
{
    let q = chars_of(query);
    if q.len() == 0 {
        return true;
    }
    let ql = lower_chars(q.as_slice());
    let m = lower_chars(chars_of(row.model.as_str()).as_slice());
    if contains_chars(m.as_slice(), ql.as_slice()) {
        return true;
    }
    let p = lower_chars(chars_of(row.provider.as_str()).as_slice());
    if contains_chars(p.as_slice(), ql.as_slice()) {
        return true;
    }
    let f = friendly_model_name(row.model.as_str());
    let fl = lower_chars(chars_of(f.as_str()).as_slice());
    contains_chars(fl.as_slice(), ql.as_slice())
}

/// The entries listed for a focus and query: the sidekick's "same as lead"
/// first when it matches, then every matching row in order.
pub open spec fn listed(rows: Seq<ModelRow>, focus: Focus, query: Seq<char>) -> Seq<ListEntry> {
    let head = if focus == Focus::Sidekick && matches_query("same as lead"@, query) {
        seq![ListEntry::SameAsLead]
    } else {
        Seq::<ListEntry>::empty()
    };
    head + matching_rows(rows, query, rows.len() as int)
}

/// `Model(i)` for each row `i < n` that the query finds.
pub open spec fn matching_rows(rows: Seq<ModelRow>, query: Seq<char>, n: int) -> Seq<ListEntry>
    decreases n,
{
    if n <= 0 {
        Seq::<ListEntry>::empty()
    } else {
        let prev = matching_rows(rows, query, n - 1);
        if row_found(rows[n - 1], query) {
            prev.push(ListEntry::Model((n - 1) as usize))
        } else {
            prev
        }
    }
}

pub fn visible_rows(rows: &[ModelRow], focus: Focus, query: &str) -> (r: Vec<ListEntry>)
    ensures
        r@ == listed(rows@, focus, query@),
{
    let mut list: Vec<ListEntry> = Vec::new();
    if focus == Focus::Sidekick && query_matches("same as lead", query) {
        list.push(ListEntry::SameAsLead);
    }
    let ghost head = list@;
    let mut k: usize = 0;
    while k < rows.len()
        invariant
            k <= rows@.len(),
            list@ == head + matching_rows(rows@, query@, k as int),
        decreases rows@.len() - k,
    {
        if row_matches(&rows[k], query) {
            list.push(ListEntry::Model(k));
        }
        k = k + 1;
        assert(list@ =~= head + matching_rows(rows@, query@, k as int));
    }
    assert(list@ =~= listed(rows@, focus, query@));
    list
}

/// The slice of a `len`-long list shown in `max_rows` rows, keeping the
/// selection in view: everything when it fits, else a window around the
/// selection, held inside the list.
pub open spec fn window_of(len: int, selected: int, max_rows: int) -> (int, int) {
    if len <= max_rows {
        (0, len)
    } else {
        let s0 = if selected > max_rows / 2 {
            selected - max_rows / 2
        } else {
            0
        };
        let start = if s0 + max_rows > len {
            len - max_rows
        } else {
            s0
        };
        (start, start + max_rows)
    }
}

pub fn window(len: usize, selected: usize, max_rows: usize) -> (r: (usize, usize))
    requires
        len <= max_rows || selected - max_rows / 2 + max_rows <= usize::MAX,
    ensures
        (r.0 as int, r.1 as int) == window_of(len as int, selected as int, max_rows as int),
{
    if len <= max_rows {
        return (0, len);
    }
    let half = max_rows / 2;
    let mut start = if selected > half {
        selected - half
    } else {
        0
    };
    if start + max_rows > len {
        start = len - max_rows;
    }
    (start, start + max_rows)
}

/// Law: the window always lies inside the list, holds at most `max_rows`
/// entries, and shows the selection when the selection is in the list.
pub proof fn law_window_keeps_selection_in_view(len: int, selected: int, max_rows: int)
    requires
        0 <= selected < len,
        1 <= max_rows,
    ensures
        ({
            let (a, b) = window_of(len, selected, max_rows);
            &&& 0 <= a <= b <= len
            &&& b - a <= max_rows
            &&& a <= selected < b
        }),
{
}

/// Rows of the terminal spent on the list: all but ten, between four and
/// twelve.
pub open spec fn visible_row_budget_spec(terminal_rows: int) -> int {
    if terminal_rows < 14 {
        4
    } else if terminal_rows - 10 > 12 {
        12
    } else {
        terminal_rows - 10
    }
}

pub fn visible_row_budget(terminal_rows: usize) -> (r: usize)
    ensures
        r == visible_row_budget_spec(terminal_rows as int),
{
    let rows = if terminal_rows > 10 {
        terminal_rows - 10
    } else {
        0
    };
    if rows < 4 {
        4
    } else if rows > MAX_VISIBLE_ROWS {
        MAX_VISIBLE_ROWS
    } else {
        rows
    }
}

/// A model picked for the lead.
#[derive(Debug, Clone, PartialEq, Eq)]
pub struct ModelChoice {
    pub provider: String,
    pub model: String,
    /// The effort, for a reasoning model.
    pub thinking: Option<ThinkingEffort>,
}

/// What confirming the selection does.
#[derive(Debug, Clone, PartialEq, Eq)]
pub enum Confirmed {
    /// Switch the lead to this model.
    Lead(ModelChoice),
    /// Set the sidekick (`None`: same as the lead) and go back to the lead.
    Sidekick(Option<(String, String)>),
    /// Nothing to confirm.
    Nothing,
}

/// Confirm the selected entry of `list`.
pub fn confirm(rows: &[ModelRow], list: &[ListEntry], selected: usize, focus: Focus) -> (r: Confirmed)
    requires
        forall|i: int| 0 <= i < list@.len() ==> (#[trigger] list@[i] matches ListEntry::Model(k) ==> k < rows@.len()),
    ensures
        selected >= list@.len() ==> r == Confirmed::Nothing,
        selected < list@.len() ==> match (focus, list@[selected as int]) {
            (Focus::Sidekick, ListEntry::SameAsLead) => r == Confirmed::Sidekick(None),
            (Focus::Sidekick, ListEntry::Model(k)) => r matches Confirmed::Sidekick(Some((p, m)))
                && p@ == rows@[k as int].provider@ && m@ == rows@[k as int].model@,
            (Focus::Lead, ListEntry::Model(k)) => r matches Confirmed::Lead(c) && c.provider@
                == rows@[k as int].provider@ && c.model@ == rows@[k as int].model@ && c.thinking == if rows@[k as int].reasoning {
                Some(rows@[k as int].effort)
            } else {
                None
            },
            (Focus::Lead, ListEntry::SameAsLead) => r == Confirmed::Nothing,
        },
{
    if selected >= list.len() {
        return Confirmed::Nothing;
    }
    match (focus, list[selected]) {
        (Focus::Sidekick, ListEntry::SameAsLead) => Confirmed::Sidekick(None),
        (Focus::Sidekick, ListEntry::Model(k)) => {
            assert(list@[selected as int] matches ListEntry::Model(q) ==> q < rows@.len());
            Confirmed::Sidekick(Some((rows[k].provider.clone(), rows[k].model.clone())))
        },
        (Focus::Lead, ListEntry::Model(k)) => {
            assert(list@[selected as int] matches ListEntry::Model(q) ==> q < rows@.len());
            let row = &rows[k];
            Confirmed::Lead(
                ModelChoice {
                    provider: row.provider.clone(),
                    model: row.model.clone(),
                    thinking: if row.reasoning {
                        Some(row.effort)
                    } else {
                        None
                    },
                },
            )
        },
        (Focus::Lead, ListEntry::SameAsLead) => Confirmed::Nothing,
    }
}

/// A key as the overlay sees it.
#[derive(Debug, Clone, Copy, PartialEq, Eq, Structural)]
pub enum PickerKey {
    Escape,
    Up,
    Down,
    Left,
    Right,
    Enter,
    Tab,
    Backspace,
    Char(char),
    /// Any other key: ignored.
    Other,
}

/// What the caller does after a key.
#[derive(Debug, Clone, PartialEq, Eq)]
pub enum OverlayOutcome {
    /// Redraw and read the next key.
    Continue,
    /// Close the overlay without a choice.
    Cancel,
    /// Close the overlay and switch the lead to this model.
    Finish(ModelChoice),
    /// Persist this sidekick (`None`: same as the lead), then redraw and read
    /// the next key; the overlay is back on the lead.
    PersistSidekick(Option<(String, String)>),
}

/// The overlay's state between keys.
#[derive(Debug, Clone)]
pub struct Overlay {
    pub query: String,
    pub focus: Focus,
    pub selected: usize,
    pub sidekick_provider: Option<String>,
    pub sidekick_model: Option<String>,
}

/// `c` is a control character (general category Cc).
pub open spec fn is_control(c: char) -> bool {
    (c as u32) <= 0x1f || (0x7f <= (c as u32) && (c as u32) <= 0x9f)
}

/// The first row at or after `i` for `provider` and `model` (the number of
/// rows when there is none).
pub open spec fn first_match(rows: Seq<ModelRow>, provider: Seq<char>, model: Seq<char>, i: int) -> int
    decreases rows.len() - i,
{
    if i < 0 || i >= rows.len() {
        rows.len() as int
    } else if rows[i].provider@ == provider && rows[i].model@ == model {
        i
    } else {
        first_match(rows, provider, model, i + 1)
    }
}

/// The position of the row for the session's current provider and model,
/// or 0.
pub open spec fn current_position(rows: Seq<ModelRow>, provider: Seq<char>, model: Seq<char>) -> int {
    let f = first_match(rows, provider, model, 0);
    if f < rows.len() {
        f
    } else {
        0
    }
}

pub proof fn lemma_first_match(rows: Seq<ModelRow>, provider: Seq<char>, model: Seq<char>, i: int)
    requires
        0 <= i <= rows.len(),
    ensures
        i <= first_match(rows, provider, model, i) <= rows.len(),
        first_match(rows, provider, model, i) < rows.len() ==> ({
            let f = first_match(rows, provider, model, i);
            rows[f].provider@ == provider && rows[f].model@ == model
        }),
    decreases rows.len() - i,
{
    if i < rows.len() && !(rows[i].provider@ == provider && rows[i].model@ == model) {
        lemma_first_match(rows, provider, model, i + 1);
    }
}

fn position_of(rows: &[ModelRow], provider: &str, model: &str) -> (r: usize)
    ensures
        r == current_position(rows@, provider@, model@),
        (r as int) < rows@.len() && first_match(rows@, provider@, model@, 0) < rows@.len() ==> (
        rows@[r as int].provider@ == provider@ && rows@[r as int].model@ == model@),
{
    let mut k: usize = 0;
    while k < rows.len()
        invariant
            k <= rows@.len(),
            first_match(rows@, provider@, model@, 0) == first_match(rows@, provider@, model@, k as int),
        decreases rows@.len() - k,
    {
        let p = chars_eq(chars_of(rows[k].provider.as_str()).as_slice(), chars_of(provider).as_slice());
        let m = chars_eq(chars_of(rows[k].model.as_str()).as_slice(), chars_of(model).as_slice());
        if p && m {
            return k;
        }
        k = k + 1;
    }
    0
}

impl Overlay {
    /// Open on the lead, with the session's current model selected.
    pub fn start(
        rows: &[ModelRow],
        current_provider: &str,
        current_model: &str,
        sidekick_provider: Option<String>,
        sidekick_model: Option<String>,
    ) -> (r: Self)
        ensures
            r.query@.len() == 0,
            r.focus == Focus::Lead,
            r.selected == current_position(rows@, current_provider@, current_model@),
            r.sidekick_provider == sidekick_provider,
            r.sidekick_model == sidekick_model,
    {
        Overlay {
            query: String::new(),
            focus: Focus::Lead,
            selected: position_of(rows, current_provider, current_model),
            sidekick_provider,
            sidekick_model,
        }
    }

    /// The entries to show, with the selection held inside them.
    pub fn settle(&mut self, rows: &[ModelRow]) -> (list: Vec<ListEntry>)
        ensures
            list@ == listed(rows@, old(self).focus, old(self).query@),
            final(self).selected == if list@.len() == 0 {
                0
            } else if old(self).selected >= list@.len() {
                (list@.len() - 1) as usize
            } else {
                old(self).selected
            },
            final(self).query == old(self).query,
            final(self).focus == old(self).focus,
            final(self).sidekick_provider == old(self).sidekick_provider,
            final(self).sidekick_model == old(self).sidekick_model,
    {
        let list = visible_rows(rows, self.focus, self.query.as_str());
        if list.len() == 0 {
            self.selected = 0;
        } else if self.selected >= list.len() {
            self.selected = list.len() - 1;
        }
        list
    }

    /// Apply one key. `list` is what [`Overlay::settle`] returned for the
    /// current state; `rows` may have a reasoning effort cycled.
    pub fn on_key(
        &mut self,
        rows: &mut Vec<ModelRow>,
        list: &[ListEntry],
        key: PickerKey,
        current_provider: &str,
        current_model: &str,
    ) -> (r: OverlayOutcome)
        requires
            forall|i: int| 0 <= i < list@.len() ==> (#[trigger] list@[i] matches ListEntry::Model(k) ==> k < old(rows)@.len()),
            list@.len() > 0 ==> old(self).selected < list@.len(),
        ensures
            final(rows)@.len() == old(rows)@.len(),
            key != PickerKey::Right ==> final(rows)@ == old(rows)@,
            match key {
                PickerKey::Escape => r == OverlayOutcome::Cancel,
                PickerKey::Char(c) => if c == '\u{3}' {
                    r == OverlayOutcome::Cancel
                } else if is_control(c) {
                    r == OverlayOutcome::Continue && *final(self) == *old(self)
                } else {
                    &&& r == OverlayOutcome::Continue
                    &&& final(self).query@ == old(self).query@.push(c)
                    &&& final(self).selected == 0
                    &&& final(self).focus == old(self).focus
                },
                PickerKey::Up => r == OverlayOutcome::Continue && final(self).selected == if list@.len() > 0
                    && old(self).selected > 0 {
                    (old(self).selected - 1) as usize
                } else {
                    old(self).selected
                } && final(self).query == old(self).query && final(self).focus == old(self).focus,
                PickerKey::Down => r == OverlayOutcome::Continue && final(self).selected == if old(self).selected + 1
                    < list@.len() {
                    (old(self).selected + 1) as usize
                } else {
                    old(self).selected
                } && final(self).query == old(self).query && final(self).focus == old(self).focus,
                PickerKey::Right => {
                    &&& r == OverlayOutcome::Continue
                    &&& *final(self) == *old(self)
                    &&& if old(self).focus == Focus::Lead && old(self).selected < list@.len()
                        && list@[old(self).selected as int] is Model {
                        let k = list@[old(self).selected as int]->Model_0 as int;
                        if old(rows)@[k].reasoning {
                            &&& final(rows)@[k].effort == cycle_effort_spec(old(rows)@[k].effort)
                            &&& final(rows)@[k].provider == old(rows)@[k].provider
                            &&& final(rows)@[k].model == old(rows)@[k].model
                            &&& final(rows)@[k].reasoning
                            &&& forall|j: int| 0 <= j < old(rows)@.len() && j != k ==> final(rows)@[j] == old(rows)@[j]
                        } else {
                            final(rows)@ == old(rows)@
                        }
                    } else {
                        final(rows)@ == old(rows)@
                    }
                },
                PickerKey::Enter | PickerKey::Left => if list@.len() == 0 {
                    r == OverlayOutcome::Continue && *final(self) == *old(self)
                } else {
                    match (old(self).focus, list@[old(self).selected as int]) {
                        (Focus::Lead, ListEntry::Model(k)) => r matches OverlayOutcome::Finish(c) && c.provider@
                            == old(rows)@[k as int].provider@ && c.model@ == old(rows)@[k as int].model@
                            && c.thinking == if old(rows)@[k as int].reasoning {
                            Some(old(rows)@[k as int].effort)
                        } else {
                            None
                        },
                        (Focus::Lead, ListEntry::SameAsLead) => r == OverlayOutcome::Cancel,
                        (Focus::Sidekick, entry) => {
                            &&& r matches OverlayOutcome::PersistSidekick(v)
                            &&& (entry is SameAsLead ==> v is None)
                            &&& (entry matches ListEntry::Model(k) ==> (v matches Some((p, m)) && p@
                                == old(rows)@[k as int].provider@ && m@ == old(rows)@[k as int].model@))
                            &&& final(self).focus == Focus::Lead
                            &&& final(self).query@.len() == 0
                            &&& final(self).selected == current_position(old(rows)@, current_provider@, current_model@)
                            &&& (v matches Some((p, m)) ==> final(self).sidekick_provider == Some(p)
                                && final(self).sidekick_model == Some(m))
                            &&& (v is None ==> final(self).sidekick_provider is None
                                && final(self).sidekick_model is None)
                        },
                    }
                },
                PickerKey::Tab => {
                    &&& r == OverlayOutcome::Continue
                    &&& final(self).query@.len() == 0
                    &&& final(self).selected == 0
                    &&& final(self).focus == if old(self).focus == Focus::Lead {
                        Focus::Sidekick
                    } else {
                        Focus::Lead
                    }
                },
                PickerKey::Backspace => {
                    &&& r == OverlayOutcome::Continue
                    &&& final(self).query@ == if old(self).query@.len() > 0 {
                        old(self).query@.drop_last()
                    } else {
                        old(self).query@
                    }
                    &&& final(self).selected == 0
                    &&& final(self).focus == old(self).focus
                },
                PickerKey::Other => r == OverlayOutcome::Continue && *final(self) == *old(self),
            },
    {
        match key {
            PickerKey::Escape => OverlayOutcome::Cancel,
            PickerKey::Char(c) => {
                if c == '\u{3}' {
                    return OverlayOutcome::Cancel;
                }
                let u = c as u32;
                if u <= 0x1f || (0x7f <= u && u <= 0x9f) {
                    return OverlayOutcome::Continue;
                }
                let mut q = chars_of(self.query.as_str());
                q.push(c);
                self.query = string_of(q.as_slice());
                self.selected = 0;
                OverlayOutcome::Continue
            },
            PickerKey::Up => {
                if list.len() > 0 && self.selected > 0 {
                    self.selected = self.selected - 1;
                }
                OverlayOutcome::Continue
            },
            PickerKey::Down => {
                if self.selected < list.len() && self.selected + 1 < list.len() {
                    self.selected = self.selected + 1;
                }
                OverlayOutcome::Continue
            },
            PickerKey::Right => {
                if self.focus == Focus::Lead && self.selected < list.len() {
                    if let ListEntry::Model(k) = list[self.selected] {
                        assert(list@[self.selected as int] matches ListEntry::Model(q) ==> q < old(rows)@.len());
                        if rows[k].reasoning {
                            let next = cycle_effort(rows[k].effort);
                            let row = ModelRow {
                                provider: rows[k].provider.clone(),
                                model: rows[k].model.clone(),
                                reasoning: true,
                                effort: next,
                            };
                            rows.set(k, row);
                        }
                    }
                }
                OverlayOutcome::Continue
            },
            PickerKey::Enter | PickerKey::Left => {
                if list.len() == 0 {
                    return OverlayOutcome::Continue;
                }
                match confirm(rows.as_slice(), list, self.selected, self.focus) {
                    Confirmed::Lead(c) => OverlayOutcome::Finish(c),
                    Confirmed::Sidekick(v) => {
                        match &v {
                            Some((p, m)) => {
                                self.sidekick_provider = Some(p.clone());
                                self.sidekick_model = Some(m.clone());
                            },
                            None => {
                                self.sidekick_provider = None;
                                self.sidekick_model = None;
                            },
                        }
                        self.focus = Focus::Lead;
                        self.query = String::new();
                        self.selected = position_of(rows.as_slice(), current_provider, current_model);
                        OverlayOutcome::PersistSidekick(v)
                    },
                    Confirmed::Nothing => OverlayOutcome::Cancel,
                }
            },
            PickerKey::Tab => {
                self.query = String::new();
                self.focus = match self.focus {
                    Focus::Lead => Focus::Sidekick,
                    Focus::Sidekick => Focus::Lead,
                };
                self.selected = 0;
                OverlayOutcome::Continue
            },
            PickerKey::Backspace => {
                let q = chars_of(self.query.as_str());
                let n = q.len();
                let kept = if n > 0 {
                    crate::text::copy_range(q.as_slice(), 0, n - 1)
                } else {
                    q
                };
                proof {
                    if n > 0 {
                        assert(kept@ =~= self.query@.drop_last());
                    }
                }
                self.query = string_of(kept.as_slice());
                self.selected = 0;
                OverlayOutcome::Continue
            },
            PickerKey::Other => OverlayOutcome::Continue,
        }
    }
}

pub open spec fn cycle_effort_spec(e: ThinkingEffort) -> ThinkingEffort {
    match e {
        ThinkingEffort::Off => ThinkingEffort::Low,
        ThinkingEffort::Low => ThinkingEffort::Medium,
        ThinkingEffort::Medium => ThinkingEffort::High,
        ThinkingEffort::High => ThinkingEffort::Max,
        ThinkingEffort::Max => ThinkingEffort::Off,
    }
}

/// A (provider, model) pair as text.
pub type Pair = (Seq<char>, Seq<char>);

/// Candidates kept in order: a pair with an empty side, or seen before, is
/// skipped.
pub open spec fn kept_pairs(cands: Seq<Pair>) -> Seq<Pair>
    decreases cands.len(),
{
    if cands.len() == 0 {
        Seq::<Pair>::empty()
    } else {
        let prev = kept_pairs(cands.drop_last());
        let c = cands.last();
        if c.0.len() == 0 || c.1.len() == 0 || prev.contains(c) {
            prev
        } else {
            prev.push(c)
        }
    }
}

/// The models listed for `provider`: those of its first entry, or none.
pub open spec fn models_for(table: Seq<(String, Vec<String>)>, provider: Seq<char>, from: int) -> Seq<Seq<char>>
    decreases table.len() - from,
{
    if from < 0 || from >= table.len() {
        Seq::<Seq<char>>::empty()
    } else if table[from].0@ == provider {
        table[from].1@.map_values(|m: String| m@)
    } else {
        models_for(table, provider, from + 1)
    }
}

/// Providers in listing order: the current one first, the rest as given.
pub open spec fn ordered_providers(names: Seq<Seq<char>>, current: Seq<char>) -> Seq<Seq<char>> {
    names_where(names, current, true) + names_where(names, current, false)
}

/// The names equal to `current` (or, with `equal` false, the others), in
/// order.
pub open spec fn names_where(names: Seq<Seq<char>>, current: Seq<char>, equal: bool) -> Seq<Seq<char>>
    decreases names.len(),
{
    if names.len() == 0 {
        Seq::<Seq<char>>::empty()
    } else {
        let prev = names_where(names.drop_last(), current, equal);
        if (names.last() == current) == equal {
            prev.push(names.last())
        } else {
            prev
        }
    }
}

/// Every model of every provider, providers in order.
pub open spec fn provider_pairs(
    providers: Seq<Seq<char>>,
    table: Seq<(String, Vec<String>)>,
) -> Seq<Pair>
    decreases providers.len(),
{
    if providers.len() == 0 {
        Seq::<Pair>::empty()
    } else {
        provider_pairs(providers.drop_last(), table) + paired(providers.last(), models_for(table, providers.last(), 0))
    }
}

/// `(provider, m)` for each model `m`, in order.
pub open spec fn paired(provider: Seq<char>, models: Seq<Seq<char>>) -> Seq<Pair>
    decreases models.len(),
{
    if models.len() == 0 {
        Seq::<Pair>::empty()
    } else {
        paired(provider, models.drop_last()).push((provider, models.last()))
    }
}

/// The rows' pairs: the current model, then the configured models, then every
/// provider's models (current provider first), without repeats or blanks.
pub open spec fn row_pairs(
    current_provider: Seq<char>,
    current_model: Seq<char>,
    configured: Seq<Pair>,
    provider_names: Seq<Seq<char>>,
    table: Seq<(String, Vec<String>)>,
) -> Seq<Pair> {
    let first = if current_provider.len() > 0 && current_model.len() > 0 {
        seq![(current_provider, current_model)]
    } else {
        Seq::<Pair>::empty()
    };
    kept_pairs(
        first + configured + provider_pairs(ordered_providers(provider_names, current_provider), table),
    )
}

pub open spec fn pair_views(v: Seq<(String, String)>) -> Seq<Pair> {
    v.map_values(|p: (String, String)| (p.0@, p.1@))
}

pub open spec fn string_views(v: Seq<String>) -> Seq<Seq<char>> {
    v.map_values(|s: String| s@)
}

pub open spec fn row_pair_views(rows: Seq<ModelRow>) -> Seq<Pair> {
    rows.map_values(|r: ModelRow| (r.provider@, r.model@))
}

fn has_pair(rows: &Vec<ModelRow>, p: &[char], m: &[char]) -> (r: bool)
    ensures
        r == row_pair_views(rows@).contains((p@, m@)),
{
    let mut k: usize = 0;
    while k < rows.len()
        invariant
            k <= rows@.len(),
            forall|i: int| 0 <= i < k ==> row_pair_views(rows@)[i] != (p@, m@),
        decreases rows@.len() - k,
    {
        if chars_eq(chars_of(rows[k].provider.as_str()).as_slice(), p) && chars_eq(
            chars_of(rows[k].model.as_str()).as_slice(),
            m,
        ) {
            assert(row_pair_views(rows@)[k as int] == (p@, m@));
            return true;
        }
        k = k + 1;
    }
    false
}

/// Collect the overlay's rows: the current model first, then configured
/// models, then every provider's models (current provider first), without
/// repeats. `is_reasoning` says whether a model id is a reasoning model.
pub fn collect_model_rows<F: Fn(&str) -> bool>(
    current_provider: &str,
    current_model: &str,
    configured: &[(String, String)],
    provider_names: &[String],
    provider_models: &[(String, Vec<String>)],
    default_effort: ThinkingEffort,
    is_reasoning: F,
) -> (rows: Vec<ModelRow>)
    requires
        forall|s: &str| call_requires(is_reasoning, (s,)),
    ensures
        row_pair_views(rows@) == row_pairs(
            current_provider@,
            current_model@,
            pair_views(configured@),
            string_views(provider_names@),
            provider_models@,
        ),
        forall|i: int| 0 <= i < rows@.len() ==> (#[trigger] rows@[i]).effort == default_effort
            && exists|s: &str| s@ == rows@[i].model@ && call_ensures(is_reasoning, (s,), rows@[i].reasoning),
{
    let mut cands: Vec<(Vec<char>, Vec<char>)> = Vec::new();
    let cp = chars_of(current_provider);
    let cm = chars_of(current_model);
    if cp.len() > 0 && cm.len() > 0 {
        cands.push((chars_of(current_provider), chars_of(current_model)));
    }
    let mut k: usize = 0;
    let ghost head = cand_views(cands@);
    assert(head =~= if current_provider@.len() > 0 && current_model@.len() > 0 {
        seq![(current_provider@, current_model@)]
    } else {
        Seq::<Pair>::empty()
    });
    while k < configured.len()
        invariant
            k <= configured@.len(),
            cand_views(cands@) == head + pair_views(configured@).take(k as int),
        decreases configured@.len() - k,
    {
        let ghost before = cand_views(cands@);
        let item = (chars_of(configured[k].0.as_str()), chars_of(configured[k].1.as_str()));
        cands.push(item);
        assert(cand_views(cands@) =~= before.push((item.0@, item.1@)));
        assert(pair_views(configured@).take(k + 1) =~= pair_views(configured@).take(k as int).push(
            (configured@[k as int].0@, configured@[k as int].1@),
        ));
        k = k + 1;
    }
    assert(pair_views(configured@).take(k as int) =~= pair_views(configured@));
    let ordered = order_providers(provider_names, current_provider);
    let ghost mid = cand_views(cands@);
    let mut j: usize = 0;
    assert(ordered@.take(0) =~= Seq::<String>::empty());
    while j < ordered.len()
        invariant
            j <= ordered@.len(),
            cand_views(cands@) == mid + provider_pairs(string_views(ordered@.take(j as int)), provider_models@),
        decreases ordered@.len() - j,
    {
        let models = models_of(provider_models, ordered[j].as_str());
        let ghost before = cand_views(cands@);
        let mut q: usize = 0;
        while q < models.len()
            invariant
                q <= models@.len(),
                j < ordered@.len(),
                cand_views(cands@) == before + paired(ordered@[j as int]@, views(models@).take(q as int)),
            decreases models@.len() - q,
        {
            let ghost b2 = cand_views(cands@);
            let item = (chars_of(ordered[j].as_str()), crate::text::copy_range(models[q].as_slice(), 0, models[q].len()));
            cands.push(item);
            assert(cand_views(cands@) =~= b2.push((item.0@, item.1@)));
            assert(views(models@).take(q + 1).drop_last() =~= views(models@).take(q as int));
            assert(views(models@).take(q + 1).last() == models@[q as int]@);
            let ghost pv = ordered@[j as int]@;
            let ghost mv = views(models@);
            assert(item.0@ == pv);
            assert(item.1@ == mv[q as int]);
            assert(paired(pv, mv.take(q + 1)) == paired(pv, mv.take(q as int)).push((pv, mv[q as int])));
            assert(cand_views(cands@) =~= before + paired(pv, mv.take(q + 1)));
            q = q + 1;
        }
        assert(views(models@).take(q as int) =~= views(models@));
        assert(string_views(ordered@.take(j + 1)).drop_last() =~= string_views(ordered@.take(j as int)));
        assert(string_views(ordered@.take(j + 1)).last() == ordered@[j as int]@);
        j = j + 1;
    }
    assert(ordered@.take(j as int) =~= ordered@);
    let ghost all = cand_views(cands@);
    assert(all =~= head + pair_views(configured@) + provider_pairs(
        ordered_providers(string_views(provider_names@), current_provider@),
        provider_models@,
    ));
    let mut rows: Vec<ModelRow> = Vec::new();
    let mut i: usize = 0;
    assert(all.take(0) =~= Seq::<Pair>::empty());
    while i < cands.len()
        invariant
            i <= cands@.len(),
            all == cand_views(cands@),
            forall|s: &str| call_requires(is_reasoning, (s,)),
            row_pair_views(rows@) == kept_pairs(all.take(i as int)),
            forall|n: int| 0 <= n < rows@.len() ==> (#[trigger] rows@[n]).effort == default_effort
                && exists|s: &str| s@ == rows@[n].model@ && call_ensures(is_reasoning, (s,), rows@[n].reasoning),
        decreases cands@.len() - i,
    {
        assert(all.take(i + 1).drop_last() =~= all.take(i as int));
        let p = cands[i].0.as_slice();
        let m = cands[i].1.as_slice();
        if p.len() > 0 && m.len() > 0 && !has_pair(&rows, p, m) {
            let model = string_of(m);
            let ms: &str = model.as_str();
            let reasoning = is_reasoning(ms);
            assert(ms@ == model@ && call_ensures(is_reasoning, (ms,), reasoning));
            let row = ModelRow { provider: string_of(p), model, reasoning, effort: default_effort };
            let ghost before = rows@;
            rows.push(row);
            assert(row_pair_views(rows@) =~= row_pair_views(before).push((p@, m@)));
            assert(forall|n: int| 0 <= n < before.len() ==> rows@[n] == before[n]);
            let ghost last = rows@[before.len() as int];
            assert(last.model@ == ms@ && last.reasoning == reasoning && last.effort == default_effort);
            assert(exists|s: &str| s@ == last.model@ && call_ensures(is_reasoning, (s,), last.reasoning));
        }
        i = i + 1;
    }
    assert(all.take(i as int) =~= all);
    rows
}

pub open spec fn cand_views(v: Seq<(Vec<char>, Vec<char>)>) -> Seq<Pair> {
    v.map_values(|p: (Vec<char>, Vec<char>)| (p.0@, p.1@))
}

/// The models of `provider`'s first entry in the table.
fn models_of(table: &[(String, Vec<String>)], provider: &str) -> (r: Vec<Vec<char>>)
    ensures
        views(r@) == models_for(table@, provider@, 0),
{
    let mut k: usize = 0;
    while k < table.len()
        invariant
            k <= table@.len(),
            models_for(table@, provider@, 0) == models_for(table@, provider@, k as int),
        decreases table@.len() - k,
    {
        if chars_eq(chars_of(table[k].0.as_str()).as_slice(), chars_of(provider).as_slice()) {
            let ms = &table[k].1;
            let mut out: Vec<Vec<char>> = Vec::new();
            let mut q: usize = 0;
            while q < ms.len()
                invariant
                    q <= ms@.len(),
                    views(out@) == ms@.take(q as int).map_values(|m: String| m@),
                decreases ms@.len() - q,
            {
                let ghost before = views(out@);
                let item = chars_of(ms[q].as_str());
                out.push(item);
                assert(views(out@) =~= before.push(item@));
                assert(ms@.take(q + 1).map_values(|m: String| m@) =~= ms@.take(q as int).map_values(
                    |m: String| m@,
                ).push(ms@[q as int]@));
                q = q + 1;
            }
            assert(ms@.take(q as int) =~= ms@);
            return out;
        }
        k = k + 1;
    }
    let out: Vec<Vec<char>> = Vec::new();
    assert(views(out@) =~= Seq::<Seq<char>>::empty());
    out
}

/// The provider names with `current` moved to the front, order otherwise
/// kept.
fn order_providers(names: &[String], current: &str) -> (r: Vec<String>)
    ensures
        string_views(r@) == ordered_providers(string_views(names@), current@),
{
    let ghost nv = string_views(names@);
    let mut first: Vec<String> = Vec::new();
    let mut rest: Vec<String> = Vec::new();
    let mut k: usize = 0;
    assert(nv.take(0) =~= Seq::<Seq<char>>::empty());
    while k < names.len()
        invariant
            k <= names@.len(),
            nv == string_views(names@),
            string_views(first@) == names_where(nv.take(k as int), current@, true),
            string_views(rest@) == names_where(nv.take(k as int), current@, false),
        decreases names@.len() - k,
    {
        let ghost t1 = nv.take(k + 1);
        assert(t1.drop_last() =~= nv.take(k as int));
        assert(t1.last() == names@[k as int]@);
        let ghost bf = string_views(first@);
        let ghost br = string_views(rest@);
        if chars_eq(chars_of(names[k].as_str()).as_slice(), chars_of(current).as_slice()) {
            first.push(names[k].clone());
            assert(string_views(first@) =~= bf.push(names@[k as int]@));
        } else {
            rest.push(names[k].clone());
            assert(string_views(rest@) =~= br.push(names@[k as int]@));
        }
        k = k + 1;
    }
    assert(nv.take(k as int) =~= nv);
    let ghost f = string_views(first@);
    let mut j: usize = 0;
    while j < rest.len()
        invariant
            j <= rest@.len(),
            string_views(first@) == f + string_views(rest@).take(j as int),
        decreases rest@.len() - j,
    {
        let ghost before = string_views(first@);
        first.push(rest[j].clone());
        assert(string_views(first@) =~= before.push(rest@[j as int]@));
        assert(string_views(rest@).take(j + 1) =~= string_views(rest@).take(j as int).push(rest@[j as int]@));
        j = j + 1;
    }
    assert(string_views(rest@).take(j as int) =~= string_views(rest@));
    first
}

/// What `console::measure_text_width` says of `s`: the columns it takes on
/// a terminal, escape sequences not counted.
pub uninterp spec fn display_width(s: Seq<char>) -> nat;

/// `console::measure_text_width`.
#[verifier::external_body]
fn text_width(s: &str) -> (r: usize)
    ensures
        r as nat == display_width(s@),
{
    console::measure_text_width(s)
}

/// `console::style(s).cyan().bold()`, rendered: plain when colours are off.
#[verifier::external_body]
fn cyan_bold(s: &str) -> (r: String)
    ensures
        r@ == s@ || r@ == "\u{1b}[36m\u{1b}[1m"@ + s@ + "\u{1b}[0m"@,
{
    console::style(s).cyan().bold().to_string()
}

/// The number of leading characters of `text` kept when it is cut to fit
/// `budget` columns with room for `…`, counting from `i`.
pub open spec fn kept_chars(text: Seq<char>, budget: int, i: int) -> int
    decreases text.len() - i,
{
    if i < 0 || i >= text.len() {
        text.len() as int
    } else if display_width(text.take(i + 1)) + 1 > budget {
        i
    } else {
        kept_chars(text, budget, i + 1)
    }
}

/// `text` when it fits `budget` columns; else as many leading characters as
/// fit with `…` after them.
pub open spec fn truncated_to(text: Seq<char>, budget: int) -> Seq<char> {
    if display_width(text) <= budget {
        text
    } else {
        text.take(kept_chars(text, budget, 0)).push('…')
    }
}

pub proof fn lemma_kept_chars_bound(text: Seq<char>, budget: int, i: int)
    requires
        0 <= i <= text.len(),
    ensures
        i <= kept_chars(text, budget, i) <= text.len(),
    decreases text.len() - i,
{
    if i < text.len() && display_width(text.take(i + 1)) + 1 <= budget {
        lemma_kept_chars_bound(text, budget, i + 1);
    }
}

/// The first `k + 1` characters of `c`, with room for `…`, exceed `budget`
/// columns.
fn too_wide(c: &[char], k: usize, budget: usize) -> (r: bool)
    requires
        k < c@.len(),
    ensures
        r == (display_width(c@.take(k + 1)) + 1 > budget),
{
    assert(c@.len() == c.len());
    let next = crate::text::copy_range(c, 0, k + 1);
    let ns = string_of(next.as_slice());
    assert(ns@ =~= c@.take(k + 1));
    text_width(ns.as_str()) >= budget
}

pub fn truncate_to(text: &str, budget: usize) -> (r: String)
    ensures
        r@ == truncated_to(text@, budget as int),
{
    if text_width(text) <= budget {
        return text.to_owned();
    }
    let c = chars_of(text);
    let mut k: usize = 0;
    while k < c.len() && !too_wide(c.as_slice(), k, budget)
        invariant
            k <= c@.len(),
            c@ == text@,
            kept_chars(text@, budget as int, 0) == kept_chars(text@, budget as int, k as int),
        decreases c@.len() - k,
    {
        k = k + 1;
    }
    proof {
        lemma_kept_chars_bound(text@, budget as int, 0);
    }
    let mut out = crate::text::copy_range(c.as_slice(), 0, k);
    out.push('…');
    string_of(out.as_slice())
}

pub open spec fn spaces(n: nat) -> Seq<char> {
    Seq::new(n, |i: int| ' ')
}

fn space_chars(n: usize) -> (r: Vec<char>)
    ensures
        r@ == spaces(n as nat),
{
    let mut v: Vec<char> = Vec::new();
    let mut k: usize = 0;
    while k < n
        invariant
            k <= n,
            v@ == spaces(k as nat),
        decreases n - k,
    {
        v.push(' ');
        k = k + 1;
        assert(v@ =~= spaces(k as nat));
    }
    v
}

pub open spec fn sat_sub(a: int, b: int) -> int {
    if a > b {
        a - b
    } else {
        0
    }
}

pub open spec fn at_least(a: int, b: int) -> int {
    if a > b {
        a
    } else {
        b
    }
}

/// `s` styled for the focused side (cyan, bold) or the other (dim).
pub open spec fn side_styled(focused: bool, s: Seq<char>, out: Seq<char>) -> bool {
    if focused {
        out == s || out == "\u{1b}[36m\u{1b}[1m"@ + s + "\u{1b}[0m"@
    } else {
        crate::presentation::styled(s, "2"@, out)
    }
}

/// The lead's label: its friendly name (`none` without a model), then the
/// effort when its row is a reasoning model.
pub open spec fn lead_label(rows: Seq<ModelRow>, provider: Seq<char>, model: Seq<char>) -> Seq<char> {
    let name = if model.len() == 0 {
        "none"@
    } else {
        friendly_name(model)
    };
    let f = first_match(rows, provider, model, 0);
    let effort = if f < rows.len() && rows[f].reasoning {
        " "@ + effort_label_text(rows[f].effort)
    } else {
        Seq::<char>::empty()
    };
    "Load "@ + name + effort
}

/// The sidekick's label.
pub open spec fn sidekick_label(provider: Option<Seq<char>>, model: Option<Seq<char>>) -> Seq<char> {
    "Sidekick "@ + match (provider, model) {
        (None, None) => "same as lead"@,
        (_, Some(m)) => friendly_name(m),
        (Some(p), None) => p,
    }
}

/// The header: both labels, pushed apart to the terminal width (at least
/// four spaces).
pub open spec fn header_text(lead: Seq<char>, sidekick: Seq<char>, width: int) -> Seq<char> {
    let used: int = (display_width(lead) + display_width(sidekick) + 8) as int;
    "  "@ + lead + spaces(at_least(sat_sub(width, used), 4) as nat) + sidekick
}

pub open spec fn opt_view(o: Option<String>) -> Option<Seq<char>> {
    match o {
        Some(s) => Some(s@),
        None => None,
    }
}

fn lead_label_chars(rows: &[ModelRow], current_provider: &str, current_model: &str) -> (r: Vec<char>)
    ensures
        r@ == lead_label(rows@, current_provider@, current_model@),
{
    let cmc = chars_of(current_model);
    let name = if cmc.len() == 0 {
        "none".to_owned()
    } else {
        friendly_model_name(current_model)
    };
    let pos = position_of(rows, current_provider, current_model);
    proof {
        lemma_first_match(rows@, current_provider@, current_model@, 0);
    }
    let mut lead = chars_of("Load ");
    append_chars(&mut lead, chars_of(name.as_str()).as_slice());
    let found = pos < rows.len() && chars_eq(
        chars_of(rows[pos].provider.as_str()).as_slice(),
        chars_of(current_provider).as_slice(),
    ) && chars_eq(chars_of(rows[pos].model.as_str()).as_slice(), chars_of(current_model).as_slice());
    proof {
        let f = first_match(rows@, current_provider@, current_model@, 0);
        if f >= rows@.len() && pos < rows@.len() {
            if rows@[pos as int].provider@ == current_provider@ && rows@[pos as int].model@ == current_model@ {
                lemma_no_match(rows@, current_provider@, current_model@, 0, pos as int);
            }
        }
    }
    if found && rows[pos].reasoning {
        append_chars(&mut lead, chars_of(" ").as_slice());
        append_chars(&mut lead, chars_of(effort_label(rows[pos].effort)).as_slice());
    }
    lead
}

/// With no match from `i` on, row `j >= i` does not match.
pub proof fn lemma_no_match(rows: Seq<ModelRow>, provider: Seq<char>, model: Seq<char>, i: int, j: int)
    requires
        0 <= i <= j < rows.len(),
        first_match(rows, provider, model, i) >= rows.len(),
    ensures
        !(rows[j].provider@ == provider && rows[j].model@ == model),
    decreases j - i,
{
    if i < j {
        lemma_no_match(rows, provider, model, i + 1, j);
    }
}

fn sidekick_label_chars(provider: &Option<String>, model: &Option<String>) -> (r: Vec<char>)
    ensures
        r@ == sidekick_label(opt_view(*provider), opt_view(*model)),
{
    let sk_name = match (provider, model) {
        (None, None) => "same as lead".to_owned(),
        (_, Some(m)) => friendly_model_name(m.as_str()),
        (Some(p), None) => p.clone(),
    };
    let mut sk = chars_of("Sidekick ");
    append_chars(&mut sk, chars_of(sk_name.as_str()).as_slice());
    sk
}

pub fn header_line(
    width: usize,
    rows: &[ModelRow],
    current_provider: &str,
    current_model: &str,
    overlay: &Overlay,
) -> (r: String)
    ensures
        header_rendered(width as int, rows@, current_provider@, current_model@, *overlay, r@),
{
    let lead = lead_label_chars(rows, current_provider, current_model);
    let sk = sidekick_label_chars(&overlay.sidekick_provider, &overlay.sidekick_model);
    let lead_s = string_of(lead.as_slice());
    let sk_s = string_of(sk.as_slice());
    let lead_styled = if overlay.focus == Focus::Lead {
        cyan_bold(lead_s.as_str())
    } else {
        crate::presentation::dim(lead_s.as_str())
    };
    let sk_styled = if overlay.focus == Focus::Sidekick {
        cyan_bold(sk_s.as_str())
    } else {
        crate::presentation::dim(sk_s.as_str())
    };
    let lw = text_width(lead_styled.as_str());
    let sw = text_width(sk_styled.as_str());
    let used: usize = if lw > usize::MAX - 8 || sw > usize::MAX - 8 - lw {
        usize::MAX
    } else {
        lw + sw + 8
    };
    let pad = if width > used {
        width - used
    } else {
        0
    };
    let pad = if pad > 4 {
        pad
    } else {
        4
    };
    let mut v = chars_of("  ");
    append_chars(&mut v, chars_of(lead_styled.as_str()).as_slice());
    append_chars(&mut v, space_chars(pad).as_slice());
    append_chars(&mut v, chars_of(sk_styled.as_str()).as_slice());
    let r = string_of(v.as_slice());
    assert(header_parts(lead_styled@, sk_styled@, rows@, current_provider@, current_model@, *overlay));
    r
}

/// `out` is the header for the overlay's state.
pub open spec fn header_rendered(
    width: int,
    rows: Seq<ModelRow>,
    current_provider: Seq<char>,
    current_model: Seq<char>,
    overlay: Overlay,
    out: Seq<char>,
) -> bool {
    exists|lead: Seq<char>, sidekick: Seq<char>|
        #[trigger] header_parts(lead, sidekick, rows, current_provider, current_model, overlay)
            && out == header_text(lead, sidekick, width)
}

/// `lead` and `sidekick` are the two labels, styled for the focus.
pub open spec fn header_parts(
    lead: Seq<char>,
    sidekick: Seq<char>,
    rows: Seq<ModelRow>,
    current_provider: Seq<char>,
    current_model: Seq<char>,
    overlay: Overlay,
) -> bool {
    &&& side_styled(overlay.focus == Focus::Lead, lead_label(rows, current_provider, current_model), lead)
    &&& side_styled(
        overlay.focus == Focus::Sidekick,
        sidekick_label(opt_view(overlay.sidekick_provider), opt_view(overlay.sidekick_model)),
        sidekick,
    )
}

/// What a list line shows before truncation: name, provider, effort, and
/// whether it is the session's current choice.
pub open spec fn entry_fields(
    entry: ListEntry,
    rows: Seq<ModelRow>,
    current_provider: Seq<char>,
    current_model: Seq<char>,
) -> (Seq<char>, Seq<char>, Option<ThinkingEffort>, bool) {
    match entry {
        ListEntry::SameAsLead => ("same as lead"@, Seq::<char>::empty(), None, current_model.len() == 0),
        ListEntry::Model(k) => {
            let row = rows[k as int];
            (
                friendly_name(row.model@),
                row.provider@,
                if row.reasoning {
                    Some(row.effort)
                } else {
                    None
                },
                row.provider@ == current_provider && row.model@ == current_model,
            )
        },
    }
}

/// The right-hand side of a list line: provider and effort, two spaces apart
/// when both are there.
pub open spec fn row_suffix(provider: Seq<char>, effort: Option<ThinkingEffort>) -> Seq<char> {
    let effort_text = match effort {
        Some(e) => effort_bar_text(e) + " "@ + effort_label_text(e),
        None => Seq::<char>::empty(),
    };
    if provider.len() == 0 {
        effort_text
    } else if effort_text.len() == 0 {
        provider
    } else {
        provider + "  "@ + effort_text
    }
}

pub open spec fn row_prefix(selected: bool, is_current: bool) -> Seq<char> {
    "  "@ + (if selected {
        "▸"@
    } else {
        " "@
    }) + " "@ + if is_current {
        "● "@
    } else {
        "  "@
    }
}

/// A list line: marker and current dot, the name cut to what the width
/// leaves (at least eight columns), padding, then the suffix.
pub open spec fn row_body(prefix: Seq<char>, name: Seq<char>, suffix: Seq<char>, width: int) -> Seq<char> {
    let pw = display_width(prefix) as int;
    let sw = display_width(suffix) as int;
    let budget = at_least(sat_sub(width, pw + sw + 3), 8);
    let shown = truncated_to(name, budget);
    let pad = at_least(sat_sub(width, pw + display_width(shown) + sw + 2), 1);
    prefix + shown + spaces(pad as nat) + suffix
}

/// `out` is the list line for `entry`; a selected line is styled cyan.
pub open spec fn row_rendered(
    width: int,
    entry: ListEntry,
    rows: Seq<ModelRow>,
    selected: bool,
    current_provider: Seq<char>,
    current_model: Seq<char>,
    out: Seq<char>,
) -> bool {
    let (name, provider, effort, is_current) = entry_fields(entry, rows, current_provider, current_model);
    let body = row_body(row_prefix(selected, is_current), name, row_suffix(provider, effort), width);
    if selected {
        crate::presentation::styled(body, "36"@, out)
    } else {
        out == body
    }
}

fn sat_add3(a: usize, b: usize, c: usize) -> (r: usize)
    ensures
        r == if a + b + c > usize::MAX {
            usize::MAX as int
        } else {
            a + b + c
        },
{
    if a > usize::MAX - b {
        usize::MAX
    } else if a + b > usize::MAX - c {
        usize::MAX
    } else {
        a + b + c
    }
}

pub fn row_line(
    width: usize,
    entry: ListEntry,
    rows: &[ModelRow],
    selected: bool,
    current_provider: &str,
    current_model: &str,
) -> (r: String)
    requires
        entry matches ListEntry::Model(k) ==> k < rows@.len(),
    ensures
        row_rendered(width as int, entry, rows@, selected, current_provider@, current_model@, r@),
{
    let (name, provider, effort, is_current) = match entry {
        ListEntry::SameAsLead => {
            let cm = chars_of(current_model);
            ("same as lead".to_owned(), String::new(), None, cm.len() == 0)
        },
        ListEntry::Model(k) => {
            let row = &rows[k];
            let pc = chars_eq(chars_of(row.provider.as_str()).as_slice(), chars_of(current_provider).as_slice());
            let mc = chars_eq(chars_of(row.model.as_str()).as_slice(), chars_of(current_model).as_slice());
            (
                friendly_model_name(row.model.as_str()),
                row.provider.clone(),
                if row.reasoning {
                    Some(row.effort)
                } else {
                    None
                },
                pc && mc,
            )
        },
    };
    let mut prefix = chars_of("  ");
    append_chars(&mut prefix, chars_of(if selected { "▸" } else { " " }).as_slice());
    append_chars(&mut prefix, chars_of(" ").as_slice());
    append_chars(&mut prefix, chars_of(if is_current { "● " } else { "  " }).as_slice());
    let effort_text = match effort {
        Some(e) => {
            let mut t = chars_of(effort_bar(e));
            append_chars(&mut t, chars_of(" ").as_slice());
            append_chars(&mut t, chars_of(effort_label(e)).as_slice());
            t
        },
        None => Vec::new(),
    };
    let pv = chars_of(provider.as_str());
    let suffix = if pv.len() == 0 {
        effort_text
    } else if effort_text.len() == 0 {
        pv
    } else {
        let mut t = pv;
        append_chars(&mut t, chars_of("  ").as_slice());
        append_chars(&mut t, effort_text.as_slice());
        t
    };
    assert(suffix@ == row_suffix(provider@, effort));
    let prefix_s = string_of(prefix.as_slice());
    let suffix_s = string_of(suffix.as_slice());
    let b = row_body_text(prefix_s.as_str(), name.as_str(), suffix_s.as_str(), width);
    if selected {
        crate::presentation::cyan(b.as_str())
    } else {
        b
    }
}

fn row_body_text(prefix: &str, name: &str, suffix: &str, width: usize) -> (r: String)
    ensures
        r@ == row_body(prefix@, name@, suffix@, width as int),
{
    let prefix_s = prefix;
    let suffix_s = suffix;
    let pw = text_width(prefix_s);
    let sw = text_width(suffix_s);
    let need = sat_add3(pw, sw, 3);
    let budget = if width > need {
        width - need
    } else {
        0
    };
    let budget = if budget > 8 {
        budget
    } else {
        8
    };
    let shown = truncate_to(name, budget);
    let nw = text_width(shown.as_str());
    let need2 = sat_add3(pw, nw, sw);
    let need2 = if need2 == usize::MAX {
        usize::MAX
    } else {
        sat_add3(need2, 2, 0)
    };
    let pad = if width > need2 {
        width - need2
    } else {
        0
    };
    let pad = if pad > 1 {
        pad
    } else {
        1
    };
    let mut body = chars_of(prefix_s);
    append_chars(&mut body, chars_of(shown.as_str()).as_slice());
    append_chars(&mut body, space_chars(pad).as_slice());
    append_chars(&mut body, chars_of(suffix_s).as_slice());
    string_of(body.as_slice())
}

/// `out` is `text` styled dim, indented two spaces.
pub open spec fn dim_line(text: Seq<char>, out: Seq<char>) -> bool {
    exists|d: Seq<char>| #[trigger] crate::presentation::styled(text, "2"@, d) && out == "  "@ + d
}

pub open spec fn rule_text(width: int) -> Seq<char> {
    Seq::new(sat_sub(width, 4) as nat, |i: int| '─')
}

/// `out` is the search line: a dim prompt while the query is empty, else a
/// dim `/ ` and the query.
pub open spec fn search_rendered(query: Seq<char>, out: Seq<char>) -> bool {
    if query.len() == 0 {
        dim_line("type to search"@, out)
    } else {
        exists|d: Seq<char>| #[trigger] crate::presentation::styled("/ "@, "2"@, d) && out == "  "@ + d + query
    }
}

pub open spec fn help_text() -> Seq<char> {
    "↑↓ select  → reasoning  ←/enter confirm  tab sidekick  esc cancel"@
}

/// `lines` draw the overlay: a blank line, the header, a rule, the search
/// line, the visible window of the list (or a note that nothing matches, and
/// a count of the entries below the window), a rule, and the key help.
pub open spec fn overlay_drawn(
    width: int,
    max_rows: int,
    rows: Seq<ModelRow>,
    list: Seq<ListEntry>,
    overlay: Overlay,
    current_provider: Seq<char>,
    current_model: Seq<char>,
    lines: Seq<Seq<char>>,
) -> bool {
    let (a, b) = window_of(list.len() as int, overlay.selected as int, max_rows);
    let below = list.len() - b;
    let body_len = if list.len() == 0 {
        1
    } else {
        (b - a) + if below > 0 {
            1int
        } else {
            0int
        }
    };
    &&& lines.len() == 6 + body_len
    &&& lines[0].len() == 0
    &&& header_rendered(width, rows, current_provider, current_model, overlay, lines[1])
    &&& dim_line(rule_text(width), lines[2])
    &&& search_rendered(overlay.query@, lines[3])
    &&& (list.len() == 0 ==> dim_line("no matching models"@, lines[4]))
    &&& (list.len() > 0 ==> forall|i: int|
        0 <= i < b - a ==> row_rendered(
            width,
            list[a + i],
            rows,
            a + i == overlay.selected,
            current_provider,
            current_model,
            #[trigger] lines[4 + i],
        ))
    &&& (list.len() > 0 && below > 0 ==> dim_line(crate::text::decimal(below as nat) + " more below"@, lines[4 + b - a]))
    &&& dim_line(rule_text(width), lines[4 + body_len])
    &&& dim_line(help_text(), lines[5 + body_len])
}

fn dim_line_of(text: &str) -> (r: String)
    ensures
        dim_line(text@, r@),
{
    let d = crate::presentation::dim(text);
    let mut v = chars_of("  ");
    append_chars(&mut v, chars_of(d.as_str()).as_slice());
    let r = string_of(v.as_slice());
    assert(crate::presentation::styled(text@, "2"@, d@) && r@ == "  "@ + d@);
    r
}

fn rule_of(width: usize) -> (r: String)
    ensures
        dim_line(rule_text(width as int), r@),
{
    let n = if width > 4 {
        width - 4
    } else {
        0
    };
    let mut v: Vec<char> = Vec::new();
    let mut k: usize = 0;
    while k < n
        invariant
            k <= n,
            v@ == Seq::new(k as nat, |i: int| '─'),
        decreases n - k,
    {
        v.push('─');
        k = k + 1;
        assert(v@ =~= Seq::new(k as nat, |i: int| '─'));
    }
    assert(v@ =~= rule_text(width as int));
    let t = string_of(v.as_slice());
    dim_line_of(t.as_str())
}

/// Draw the overlay as lines of text, for a terminal `width` columns wide
/// and `terminal_rows` rows high.
pub fn draw_lines(
    width: usize,
    terminal_rows: usize,
    rows: &[ModelRow],
    list: &[ListEntry],
    overlay: &Overlay,
    current_provider: &str,
    current_model: &str,
) -> (lines: Vec<String>)
    requires
        forall|i: int| 0 <= i < list@.len() ==> (#[trigger] list@[i] matches ListEntry::Model(k) ==> k < rows@.len()),
        list@.len() > 0 ==> overlay.selected < list@.len(),
        list@.len() <= usize::MAX - MAX_VISIBLE_ROWS,
    ensures
        overlay_drawn(
            width as int,
            visible_row_budget_spec(terminal_rows as int),
            rows@,
            list@,
            *overlay,
            current_provider@,
            current_model@,
            string_views(lines@),
        ),
{
    let max_rows = visible_row_budget(terminal_rows);
    let (a, b) = window(list.len(), overlay.selected, max_rows);
    let mut lines: Vec<String> = Vec::new();
    push_line(&mut lines, String::new());
    push_line(&mut lines, header_line(width, rows, current_provider, current_model, overlay));
    push_line(&mut lines, rule_of(width));
    let q = chars_of(overlay.query.as_str());
    let search = if q.len() == 0 {
        dim_line_of("type to search")
    } else {
        let d = crate::presentation::dim("/ ");
        let mut v = chars_of("  ");
        append_chars(&mut v, chars_of(d.as_str()).as_slice());
        append_chars(&mut v, q.as_slice());
        let r = string_of(v.as_slice());
        assert(crate::presentation::styled("/ "@, "2"@, d@) && r@ == "  "@ + d@ + overlay.query@);
        r
    };
    push_line(&mut lines, search);
    let ghost first4 = string_views(lines@);
    assert(first4.len() == 4);
    if list.len() == 0 {
        push_line(&mut lines, dim_line_of("no matching models"));
    } else {
        let mut i: usize = a;
        while i < b
            invariant
                a <= i <= b <= list@.len(),
                lines@.len() == 4 + (i - a),
                forall|n: int| 0 <= n < list@.len() ==> (#[trigger] list@[n] matches ListEntry::Model(k) ==> k < rows@.len()),
                forall|n: int|
                    0 <= n < i - a ==> row_rendered(
                        width as int,
                        list@[a + n],
                        rows@,
                        a + n == overlay.selected,
                        current_provider@,
                        current_model@,
                        #[trigger] string_views(lines@)[4 + n],
                    ),
                forall|n: int| 0 <= n < 4 ==> #[trigger] string_views(lines@)[n] == first4[n],
            decreases b - i,
        {
            let line = row_line(width, list[i], rows, i == overlay.selected, current_provider, current_model);
            push_line(&mut lines, line);
            i = i + 1;
        }
        let below = list.len() - b;
        if below > 0 {
            let mut t = crate::text::decimal_u64(below as u64);
            append_chars(&mut t, chars_of(" more below").as_slice());
            let ts = string_of(t.as_slice());
            push_line(&mut lines, dim_line_of(ts.as_str()));
        }
    }
    push_line(&mut lines, rule_of(width));
    push_line(&mut lines, dim_line_of("↑↓ select  → reasoning  ←/enter confirm  tab sidekick  esc cancel"));
    lines
}

fn push_line(lines: &mut Vec<String>, line: String)
    ensures
        string_views(final(lines)@) == string_views(old(lines)@).push(line@),
        final(lines)@.len() == old(lines)@.len() + 1,
{
    let ghost before = string_views(lines@);
    let ghost lv = line@;
    lines.push(line);
    assert(string_views(lines@) =~= before.push(lv));
}

/// What keeping candidates does: no pair twice, none with an empty side,
/// every candidate with both sides kept, and nothing that was not a
/// candidate.
pub proof fn lemma_kept_pairs(cands: Seq<Pair>)
    ensures
        forall|i: int, j: int|
            0 <= i < j < kept_pairs(cands).len() ==> #[trigger] kept_pairs(cands)[i]
                != #[trigger] kept_pairs(cands)[j],
        forall|i: int|
            0 <= i < kept_pairs(cands).len() ==> (#[trigger] kept_pairs(cands)[i]).0.len() > 0
                && kept_pairs(cands)[i].1.len() > 0 && cands.contains(kept_pairs(cands)[i]),
        forall|k: int|
            0 <= k < cands.len() && (#[trigger] cands[k]).0.len() > 0 && cands[k].1.len() > 0
                ==> kept_pairs(cands).contains(cands[k]),
    decreases cands.len(),
{
    if cands.len() > 0 {
        let prev = cands.drop_last();
        lemma_kept_pairs(prev);
        let kp = kept_pairs(prev);
        let kc = kept_pairs(cands);
        assert forall|i: int| 0 <= i < kc.len() implies (#[trigger] kc[i]).0.len() > 0 && kc[i].1.len()
            > 0 && cands.contains(kc[i]) by {
            if i < kp.len() {
                assert(kc[i] == kp[i]);
                let w = choose|w: int| 0 <= w < prev.len() && prev[w] == kp[i];
                assert(cands[w] == prev[w]);
            } else {
                assert(cands[cands.len() - 1] == cands.last());
            }
        }
        assert forall|k: int|
            0 <= k < cands.len() && (#[trigger] cands[k]).0.len() > 0 && cands[k].1.len() > 0
                implies kc.contains(cands[k]) by {
            if k < prev.len() {
                assert(prev[k] == cands[k]);
                let w = choose|w: int| 0 <= w < kp.len() && kp[w] == prev[k];
                assert(kc[w] == kp[w]);
            } else if !kp.contains(cands.last()) {
                assert(kc[kc.len() - 1] == cands.last());
            }
        }
    }
}

/// Keeping candidates keeps the first one first when both its sides are
/// set.
pub proof fn lemma_kept_first(cands: Seq<Pair>)
    requires
        cands.len() > 0,
        cands[0].0.len() > 0,
        cands[0].1.len() > 0,
    ensures
        kept_pairs(cands).len() > 0,
        kept_pairs(cands)[0] == cands[0],
    decreases cands.len(),
{
    let kp = kept_pairs(cands.drop_last());
    if cands.len() > 1 {
        assert(cands.drop_last()[0] == cands[0]);
        lemma_kept_first(cands.drop_last());
        assert(kept_pairs(cands)[0] == kp[0]);
    } else {
        assert(cands.drop_last() =~= Seq::<Pair>::empty());
        assert(kp.len() == 0);
        assert(!kp.contains(cands.last()));
        assert(kept_pairs(cands) == kp.push(cands.last()));
        assert(cands.last() == cands[0]);
    }
}

/// Law: the model list never shows a model twice or a model with no
/// provider or name, shows every model that was offered, and puts the
/// session's current model first.
pub proof fn law_model_rows_distinct_current_first(
    current_provider: Seq<char>,
    current_model: Seq<char>,
    configured: Seq<Pair>,
    provider_names: Seq<Seq<char>>,
    table: Seq<(String, Vec<String>)>,
)
    ensures
        ({
            let r = row_pairs(current_provider, current_model, configured, provider_names, table);
            &&& forall|i: int, j: int| 0 <= i < j < r.len() ==> #[trigger] r[i] != #[trigger] r[j]
            &&& forall|i: int| 0 <= i < r.len() ==> (#[trigger] r[i]).0.len() > 0 && r[i].1.len() > 0
            &&& forall|k: int|
                0 <= k < configured.len() && (#[trigger] configured[k]).0.len() > 0
                    && configured[k].1.len() > 0 ==> r.contains(configured[k])
            &&& (current_provider.len() > 0 && current_model.len() > 0) ==> r.len() > 0 && r[0] == (
            current_provider,
            current_model,
            )
        }),
{
    let first = if current_provider.len() > 0 && current_model.len() > 0 {
        seq![(current_provider, current_model)]
    } else {
        Seq::<Pair>::empty()
    };
    let cands = first + configured + provider_pairs(
        ordered_providers(provider_names, current_provider),
        table,
    );
    lemma_kept_pairs(cands);
    assert forall|k: int|
        0 <= k < configured.len() && (#[trigger] configured[k]).0.len() > 0 && configured[k].1.len() > 0
            implies kept_pairs(cands).contains(configured[k]) by {
        assert(cands[first.len() + k] == configured[k]);
    }
    if current_provider.len() > 0 && current_model.len() > 0 {
        assert(cands[0] == (current_provider, current_model));
        lemma_kept_first(cands);
    }
}

} // verus!
