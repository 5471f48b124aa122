//! Presentation for the REPL: hint bar, session stats, diff rendering.
//!
//! Pure formatting, so it works on a line-based REPL. Styling goes through
//! the terminal library, which colours only when colours are enabled for the
//! output; every contract here holds either way.

use vstd::prelude::*;

use crate::text::{
    append_chars, chars_of, decimal, decimal_u64, join, split_char, split_chars, starts_with,
    string_of, utf8_len, views,
};

verus! {

/// `s` as the terminal library styles it with a single ANSI code `code`:
/// unchanged when colours are off, wrapped in the code and a reset when on.
pub open spec fn styled(s: Seq<char>, code: Seq<char>, out: Seq<char>) -> bool {
    out == s || out == "\u{1b}["@ + code + "m"@ + s + "\u{1b}[0m"@
}

/// `console::style(s).dim()`, rendered.
#[verifier::external_body]
pub(crate) fn dim(s: &str) -> (r: String)
    ensures
        styled(s@, "2"@, r@),
{
    console::style(s).dim().to_string()
}

/// `console::style(s).green()`, rendered.
#[verifier::external_body]
pub(crate) fn green(s: &str) -> (r: String)
    ensures
        styled(s@, "32"@, r@),
{
    console::style(s).green().to_string()
}

/// `console::style(s).red()`, rendered.
#[verifier::external_body]
pub(crate) fn red(s: &str) -> (r: String)
    ensures
        styled(s@, "31"@, r@),
{
    console::style(s).red().to_string()
}

/// `console::style(s).cyan()`, rendered.
#[verifier::external_body]
pub(crate) fn cyan(s: &str) -> (r: String)
    ensures
        styled(s@, "36"@, r@),
{
    console::style(s).cyan().to_string()
}

/// One key hint.
#[derive(Debug, Clone, PartialEq, Eq)]
pub struct Hint {
    pub key: &'static str,
    pub label: &'static str,
}

/// What the user can do right now.
#[derive(Debug, Clone, Copy, PartialEq, Eq, Structural)]
pub enum Context {
    /// Waiting for input.
    Idle,
    /// The model is producing output.
    Streaming,
    /// A tool is running.
    ToolRunning,
    /// A question is waiting on the user.
    AwaitingAnswer,
}

/// The hints of a context, as `(key, label)` pairs in display order.
pub open spec fn hints_of(c: Context) -> Seq<(Seq<char>, Seq<char>)> {
    match c {
        Context::Idle => seq![
            ("enter"@, "send"@),
            ("ctrl+j"@, "newline"@),
            ("ctrl+c"@, "exit"@),
            ("?"@, "shortcuts"@),
        ],
        Context::Streaming => seq![("esc"@, "interrupt"@), ("ctrl+o"@, "expand"@)],
        Context::ToolRunning => seq![("esc"@, "cancel tool"@), ("ctrl+o"@, "show output"@)],
        Context::AwaitingAnswer => seq![("1-9"@, "choose"@), ("enter"@, "confirm"@)],
    }
}

pub open spec fn hint_views(hs: Seq<Hint>) -> Seq<(Seq<char>, Seq<char>)> {
    hs.map_values(|h: Hint| (h.key@, h.label@))
}

fn hint(key: &'static str, label: &'static str) -> (r: Hint)
    ensures
        r.key == key,
        r.label == label,
{
    Hint { key, label }
}

impl Context {
    pub fn hints(self) -> (r: Vec<Hint>)
        ensures
            hint_views(r@) == hints_of(self),
    {
        let v = match self {
            Context::Idle => vec![
                hint("enter", "send"),
                hint("ctrl+j", "newline"),
                hint("ctrl+c", "exit"),
                hint("?", "shortcuts"),
            ],
            Context::Streaming => vec![hint("esc", "interrupt"), hint("ctrl+o", "expand")],
            Context::ToolRunning => vec![hint("esc", "cancel tool"), hint("ctrl+o", "show output")],
            Context::AwaitingAnswer => vec![hint("1-9", "choose"), hint("enter", "confirm")],
        };
        assert(hint_views(v@) =~= hints_of(self));
        v
    }
}

/// Pieces laid out left to right, two spaces apart, stopping at the first
/// that would bring the bar (plus three bytes of slack) past `width` bytes.
pub open spec fn fit_from(out: Seq<char>, pieces: Seq<Seq<char>>, width: int) -> Seq<char>
    decreases pieces.len(),
{
    if pieces.len() == 0 {
        out
    } else if utf8_len(out) + utf8_len(pieces[0]) + 3 > width {
        out
    } else {
        let next = if out.len() > 0 {
            out + "  "@ + pieces[0]
        } else {
            pieces[0]
        };
        fit_from(next, pieces.drop_first(), width)
    }
}

/// A hint as shown: its key and label, each styled dim, one space apart.
pub open spec fn hint_piece(key: Seq<char>, label: Seq<char>, piece: Seq<char>) -> bool {
    exists|k: Seq<char>, l: Seq<char>|
        styled(key, "2"@, k) && styled(label, "2"@, l) && piece == k + " "@ + l
}

fn byte_len(s: &[char]) -> (n: usize)
    requires
        utf8_len(s@) <= usize::MAX,
    ensures
        n == utf8_len(s@),
{
    let owned = string_of(s);
    owned.as_str().len()
}

proof fn lemma_two_spaces()
    ensures
        utf8_len("  "@) == 2,
        "  "@.len() == 2,
{
    reveal_strlit("  ");
    let s = "  "@;
    assert(s.drop_first().drop_first() =~= Seq::<char>::empty());
    assert(vstd::utf8::encode_utf8(s.drop_first().drop_first()) =~= Seq::<u8>::empty());
    assert(vstd::utf8::encode_scalar(' ' as u32).len() == 1);
    assert(vstd::utf8::encode_utf8(s.drop_first()).len() == 1);
}

/// Lay out `pieces` within `width` bytes; see [`fit_from`].
pub fn fit_pieces(pieces: &Vec<Vec<char>>, width: usize) -> (r: Vec<char>)
    ensures
        r@ == fit_from(Seq::<char>::empty(), views(pieces@), width as int),
        utf8_len(r@) <= width,
{
    let ghost ps = views(pieces@);
    let mut out: Vec<char> = Vec::new();
    let mut k: usize = 0;
    assert(ps.skip(0) =~= ps);
    assert(vstd::utf8::encode_utf8(Seq::<char>::empty()) =~= Seq::<u8>::empty());
    proof {
        lemma_two_spaces();
    }
    while k < pieces.len()
        invariant
            k <= pieces@.len(),
            ps == views(pieces@),
            utf8_len(out@) <= width,
            utf8_len("  "@) == 2,
            fit_from(Seq::<char>::empty(), ps, width as int) == fit_from(out@, ps.skip(k as int), width as int),
        decreases pieces@.len() - k,
    {
        let out_len = byte_len(out.as_slice());
        let piece = pieces[k].as_slice();
        assert(ps.skip(k as int)[0] == piece@);
        assert(ps.skip(k as int).drop_first() =~= ps.skip(k + 1));
        let fits = if utf8_len_at_most(piece, width) {
            let piece_len = byte_len(piece);
            out_len <= width - piece_len && 3 <= width - piece_len - out_len
        } else {
            false
        };
        if !fits {
            return out;
        }
        if out.len() > 0 {
            let ghost before = out@;
            append_chars(&mut out, chars_of("  ").as_slice());
            append_chars(&mut out, piece);
            proof {
                crate::text::lemma_encode_utf8_concat(before, "  "@);
                crate::text::lemma_encode_utf8_concat(before + "  "@, piece@);
            }
        } else {
            let ghost before = out@;
            append_chars(&mut out, piece);
            assert(out@ =~= piece@);
        }
        k = k + 1;
    }
    out
}

/// `utf8_len(s) <= limit`, computed without overflow.
pub(crate) fn utf8_len_at_most(s: &[char], limit: usize) -> (r: bool)
    ensures
        r == (utf8_len(s@) <= limit),
{
    let mut used: usize = 0;
    let mut k: usize = 0;
    assert(s@.take(0) =~= Seq::<char>::empty());
    assert(vstd::utf8::encode_utf8(Seq::<char>::empty()) =~= Seq::<u8>::empty());
    while k < s.len()
        invariant
            k <= s@.len(),
            used == utf8_len(s@.take(k as int)),
            used <= limit,
        decreases s@.len() - k,
    {
        let w = crate::text::char_utf8_len(s[k]);
        proof {
            crate::text::lemma_utf8_len_push(s@.take(k as int), s@[k as int]);
            assert(s@.take(k as int).push(s@[k as int]) =~= s@.take(k + 1));
        }
        if w > limit - used {
            proof {
                crate::budget::lemma_prefix_utf8_len(s@, k + 1);
            }
            return false;
        }
        used = used + w;
        k = k + 1;
    }
    assert(s@.take(k as int) =~= s@);
    true
}

/// Render the hint bar for the current context.
///
/// `width` is the terminal width in bytes; hints are dropped from the end
/// rather than wrapped, because a wrapped hint bar steals a line from the
/// conversation on every render.
pub fn hint_bar(context: Context, width: usize) -> (r: String)
    ensures
        utf8_len(r@) <= width,
        exists|ps: Seq<Seq<char>>|
            {
                &&& ps.len() == hints_of(context).len()
                &&& forall|i: int|
                    0 <= i < ps.len() ==> hint_piece(
                        #[trigger] hints_of(context)[i].0,
                        hints_of(context)[i].1,
                        ps[i],
                    )
                &&& r@ == fit_from(Seq::<char>::empty(), ps, width as int)
            },
{
    let hs = context.hints();
    let mut pieces: Vec<Vec<char>> = Vec::new();
    let mut k: usize = 0;
    while k < hs.len()
        invariant
            k <= hs@.len(),
            hint_views(hs@) == hints_of(context),
            pieces@.len() == k,
            forall|i: int|
                0 <= i < k ==> hint_piece(
                    #[trigger] hints_of(context)[i].0,
                    hints_of(context)[i].1,
                    views(pieces@)[i],
                ),
        decreases hs@.len() - k,
    {
        let kk = dim(hs[k].key);
        let ll = dim(hs[k].label);
        let mut piece = chars_of(kk.as_str());
        append_chars(&mut piece, chars_of(" ").as_slice());
        append_chars(&mut piece, chars_of(ll.as_str()).as_slice());
        assert(hint_views(hs@)[k as int] == (hs@[k as int].key@, hs@[k as int].label@));
        assert(hint_piece(hints_of(context)[k as int].0, hints_of(context)[k as int].1, piece@));
        let ghost before = views(pieces@);
        pieces.push(piece);
        assert(views(pieces@) =~= before.push(piece@));
        k = k + 1;
    }
    let bar = fit_pieces(&pieces, width);
    string_of(bar.as_slice())
}

/// Usage summary for the session.
#[derive(Debug, Clone, Default, PartialEq, Eq)]
pub struct SessionStats {
    pub turns: u64,
    pub input_tokens: u64,
    pub output_tokens: u64,
    pub cached_tokens: u64,
    pub tool_calls: u64,
    pub elapsed_secs: u64,
}

/// The digits `d[..n]`, with a comma before each digit (other than the
/// first) that starts a group of three counted from the right end of `d`.
pub open spec fn with_commas(d: Seq<char>, n: int) -> Seq<char>
    decreases n,
{
    if n <= 0 {
        Seq::<char>::empty()
    } else {
        let i = n - 1;
        let sep = if i > 0 && (d.len() - i) % 3 == 0 {
            seq![',']
        } else {
            Seq::<char>::empty()
        };
        with_commas(d, n - 1) + sep + seq![d[i]]
    }
}

/// `n` in decimal with thousands separated by commas.
pub open spec fn thousands_spec(n: nat) -> Seq<char> {
    with_commas(decimal(n), decimal(n).len() as int)
}

pub fn thousands(n: u64) -> (r: String)
    ensures
        r@ == thousands_spec(n as nat),
{
    let d = decimal_u64(n);
    let mut out: Vec<char> = Vec::new();
    let mut i: usize = 0;
    while i < d.len()
        invariant
            i <= d@.len(),
            out@ == with_commas(d@, i as int),
        decreases d@.len() - i,
    {
        let ghost before = out@;
        if i > 0 && (d.len() - i) % 3 == 0 {
            out.push(',');
        }
        out.push(d[i]);
        i = i + 1;
        assert(out@ =~= with_commas(d@, i as int));
    }
    string_of(out.as_slice())
}

/// Two digits, zero-padded (`{:02}`) for `n < 100`.
pub open spec fn two_digits(n: nat) -> Seq<char> {
    if n < 10 {
        seq!['0'] + decimal(n)
    } else {
        decimal(n)
    }
}

pub open spec fn elapsed_text(secs: nat) -> Seq<char> {
    let m = secs / 60;
    let s = secs % 60;
    if m >= 60 {
        decimal(m / 60) + "h"@ + two_digits(m % 60) + "m"@
    } else if m > 0 {
        decimal(m) + "m"@ + two_digits(s) + "s"@
    } else {
        decimal(s) + "s"@
    }
}

fn two_digit_chars(n: u64) -> (r: Vec<char>)
    requires
        n < 100,
    ensures
        r@ == two_digits(n as nat),
{
    if n < 10 {
        let mut v = vec!['0'];
        append_chars(&mut v, decimal_u64(n).as_slice());
        assert(v@ =~= seq!['0'] + decimal(n as nat));
        v
    } else {
        decimal_u64(n)
    }
}

/// The line of counts, without the cache figure.
pub open spec fn stats_line(s: SessionStats) -> Seq<char> {
    decimal(s.turns as nat) + " turns · "@ + thousands_spec(s.input_tokens as nat) + " in · "@
        + thousands_spec(s.output_tokens as nat) + " out · "@ + decimal(s.tool_calls as nat)
        + " tools · "@ + elapsed_text(s.elapsed_secs as nat)
}

impl SessionStats {
    pub fn format_elapsed(&self) -> (r: String)
        ensures
            r@ == elapsed_text(self.elapsed_secs as nat),
    {
        let m = self.elapsed_secs / 60;
        let s = self.elapsed_secs % 60;
        let mut v: Vec<char>;
        if m >= 60 {
            v = decimal_u64(m / 60);
            append_chars(&mut v, chars_of("h").as_slice());
            append_chars(&mut v, two_digit_chars(m % 60).as_slice());
            append_chars(&mut v, chars_of("m").as_slice());
        } else if m > 0 {
            v = decimal_u64(m);
            append_chars(&mut v, chars_of("m").as_slice());
            append_chars(&mut v, two_digit_chars(s).as_slice());
            append_chars(&mut v, chars_of("s").as_slice());
        } else {
            v = decimal_u64(s);
            append_chars(&mut v, chars_of("s").as_slice());
        }
        string_of(v.as_slice())
    }

    /// Turns, tokens in and out, tool calls and elapsed time on one line.
    pub fn summary_line(&self) -> (r: String)
        ensures
            r@ == stats_line(*self),
    {
        let mut v = decimal_u64(self.turns);
        append_chars(&mut v, chars_of(" turns · ").as_slice());
        append_chars(&mut v, chars_of(thousands(self.input_tokens).as_str()).as_slice());
        append_chars(&mut v, chars_of(" in · ").as_slice());
        append_chars(&mut v, chars_of(thousands(self.output_tokens).as_str()).as_slice());
        append_chars(&mut v, chars_of(" out · ").as_slice());
        append_chars(&mut v, decimal_u64(self.tool_calls).as_slice());
        append_chars(&mut v, chars_of(" tools · ").as_slice());
        append_chars(&mut v, chars_of(self.format_elapsed().as_str()).as_slice());
        string_of(v.as_slice())
    }
}

/// A single line of a unified diff.
#[derive(Debug, Clone, PartialEq, Eq)]
pub enum DiffLine<'a> {
    Added(&'a str),
    Removed(&'a str),
    Context(&'a str),
    Header(&'a str),
}

/// The kinds of diff line.
#[derive(Debug, Clone, Copy, PartialEq, Eq, Structural)]
pub enum DiffKind {
    Added,
    Removed,
    Context,
    Header,
}

pub open spec fn diff_kind(line: Seq<char>) -> DiffKind {
    if starts_with(line, "+++"@) || starts_with(line, "---"@) {
        DiffKind::Header
    } else if starts_with(line, "+"@) {
        DiffKind::Added
    } else if starts_with(line, "-"@) {
        DiffKind::Removed
    } else {
        DiffKind::Context
    }
}

pub open spec fn kind_of(d: DiffLine) -> DiffKind {
    match d {
        DiffLine::Added(_) => DiffKind::Added,
        DiffLine::Removed(_) => DiffKind::Removed,
        DiffLine::Context(_) => DiffKind::Context,
        DiffLine::Header(_) => DiffKind::Header,
    }
}

pub open spec fn text_of(d: DiffLine) -> Seq<char> {
    match d {
        DiffLine::Added(l) => l@,
        DiffLine::Removed(l) => l@,
        DiffLine::Context(l) => l@,
        DiffLine::Header(l) => l@,
    }
}

fn starts(line: &[char], prefix: &str) -> (r: bool)
    ensures
        r == starts_with(line@, prefix@),
{
    crate::text::starts_with_chars(line, chars_of(prefix).as_slice())
}

/// Classify one line of unified diff text.
pub fn classify_diff_line(line: &str) -> (r: DiffLine<'_>)
    ensures
        kind_of(r) == diff_kind(line@),
        text_of(r) == line@,
{
    let c = chars_of(line);
    let c = c.as_slice();
    if starts(c, "+++") || starts(c, "---") {
        DiffLine::Header(line)
    } else if starts(c, "+") {
        DiffLine::Added(line)
    } else if starts(c, "-") {
        DiffLine::Removed(line)
    } else {
        DiffLine::Context(line)
    }
}

/// `l` without one trailing carriage return.
pub open spec fn strip_cr(l: Seq<char>) -> Seq<char> {
    if l.len() > 0 && l.last() == '\r' {
        l.drop_last()
    } else {
        l
    }
}

/// `str::lines`: the pieces between line feeds, each without a trailing
/// carriage return, and no empty piece after a final line feed.
pub open spec fn text_lines(s: Seq<char>) -> Seq<Seq<char>> {
    let parts = split_char(s, '\n');
    let kept = if parts.len() > 0 && parts.last().len() == 0 {
        parts.drop_last()
    } else {
        parts
    };
    kept.map_values(|l: Seq<char>| strip_cr(l))
}

pub(crate) fn lines_of(s: &str) -> (r: Vec<Vec<char>>)
    ensures
        views(r@) == text_lines(s@),
{
    let c = chars_of(s);
    let parts = split_chars(c.as_slice(), '\n');
    let ghost pv = split_char(c@, '\n');
    proof {
        crate::text::lemma_split_char_nonempty(c@, '\n');
    }
    let keep = if parts[parts.len() - 1].len() == 0 {
        parts.len() - 1
    } else {
        parts.len()
    };
    let ghost kept = if pv.len() > 0 && pv.last().len() == 0 {
        pv.drop_last()
    } else {
        pv
    };
    assert(kept.len() == keep);
    let mut out: Vec<Vec<char>> = Vec::new();
    let mut k: usize = 0;
    while k < keep
        invariant
            k <= keep <= parts@.len() == pv.len(),
            kept.len() == keep,
            forall|i: int| 0 <= i < keep ==> #[trigger] kept[i] == pv[i],
            forall|i: int| 0 <= i < parts@.len() ==> #[trigger] parts@[i]@ == pv[i],
            views(out@) == kept.take(k as int).map_values(|l: Seq<char>| strip_cr(l)),
        decreases keep - k,
    {
        let p = parts[k].as_slice();
        let n = p.len();
        let line = if n > 0 && p[n - 1] == '\r' {
            crate::text::copy_range(p, 0, n - 1)
        } else {
            crate::text::copy_range(p, 0, n)
        };
        assert(line@ == strip_cr(pv[k as int]));
        let ghost before = views(out@);
        out.push(line);
        assert(views(out@) =~= before.push(line@));
        assert(kept.take(k + 1).map_values(|l: Seq<char>| strip_cr(l)) =~= kept.take(
            k as int,
        ).map_values(|l: Seq<char>| strip_cr(l)).push(strip_cr(kept[k as int])));
        k = k + 1;
    }
    assert(kept.take(k as int) =~= kept);
    out
}

/// Count added and removed lines of a diff.
pub open spec fn count_kind(ls: Seq<Seq<char>>, k: DiffKind) -> nat
    decreases ls.len(),
{
    if ls.len() == 0 {
        0
    } else {
        count_kind(ls.drop_last(), k) + if diff_kind(ls.last()) == k {
            1nat
        } else {
            0nat
        }
    }
}

/// Count added and removed lines, for a one-line summary.
pub fn diff_summary(diff: &str) -> (r: (usize, usize))
    ensures
        r.0 == count_kind(text_lines(diff@), DiffKind::Added),
        r.1 == count_kind(text_lines(diff@), DiffKind::Removed),
{
    let lines = lines_of(diff);
    let ghost ls = views(lines@);
    let mut add: usize = 0;
    let mut del: usize = 0;
    let mut k: usize = 0;
    while k < lines.len()
        invariant
            k <= lines@.len(),
            ls == views(lines@),
            add == count_kind(ls.take(k as int), DiffKind::Added),
            del == count_kind(ls.take(k as int), DiffKind::Removed),
            add <= k,
            del <= k,
        decreases lines@.len() - k,
    {
        assert(ls.take(k + 1).drop_last() =~= ls.take(k as int));
        let text = string_of(lines[k].as_slice());
        let kind = classify_diff_line(text.as_str());
        match kind {
            DiffLine::Added(_) => {
                add = add + 1;
            },
            DiffLine::Removed(_) => {
                del = del + 1;
            },
            _ => {},
        }
        k = k + 1;
    }
    assert(ls.take(k as int) =~= ls);
    (add, del)
}

/// A diff line as shown: added green, removed red, headers cyan, context
/// plain.
pub open spec fn shown_line(l: Seq<char>, out: Seq<char>) -> bool {
    match diff_kind(l) {
        DiffKind::Added => styled(l, "32"@, out),
        DiffKind::Removed => styled(l, "31"@, out),
        DiffKind::Header => styled(l, "36"@, out),
        DiffKind::Context => out == l,
    }
}

/// The elision marker for `n` hidden lines.
pub open spec fn elision(n: nat) -> Seq<char> {
    "… "@ + decimal(n) + " more line(s) not shown"@
}

/// `out` renders the first `max_lines` lines of `diff` as `shown` (one per
/// line, each followed by a line feed), then the styled elision `marker` for
/// what was left out, if anything was.
pub open spec fn diff_rendering(
    diff: Seq<char>,
    max_lines: int,
    shown: Seq<Seq<char>>,
    marker: Seq<char>,
    out: Seq<char>,
) -> bool {
    let ls = text_lines(diff);
    let n = if ls.len() < max_lines {
        ls.len() as int
    } else {
        max_lines
    };
    &&& shown.len() == n
    &&& forall|i: int| 0 <= i < n ==> shown_line(#[trigger] ls[i], shown[i])
    &&& (ls.len() > max_lines ==> styled(elision((ls.len() - max_lines) as nat), "2"@, marker))
    &&& out == concat_lines(shown) + if ls.len() > max_lines {
        marker.push('\n')
    } else {
        Seq::<char>::empty()
    }
}

/// Each of `ls` followed by a line feed, all run together.
pub open spec fn concat_lines(ls: Seq<Seq<char>>) -> Seq<char>
    decreases ls.len(),
{
    if ls.len() == 0 {
        Seq::<char>::empty()
    } else {
        concat_lines(ls.drop_last()) + ls.last().push('\n')
    }
}

/// Render a unified diff with colour.
///
/// `max_lines` bounds the output; an elision marker is appended rather than
/// silently truncating, so a partial diff never reads as the whole change.
pub fn render_diff(diff: &str, max_lines: usize) -> (r: String)
    ensures
        exists|shown: Seq<Seq<char>>, marker: Seq<char>|
            #[trigger] diff_rendering(diff@, max_lines as int, shown, marker, r@),
{
    let lines = lines_of(diff);
    let ghost ls = views(lines@);
    let n = if lines.len() < max_lines {
        lines.len()
    } else {
        max_lines
    };
    let mut shown: Vec<Vec<char>> = Vec::new();
    let mut v: Vec<char> = Vec::new();
    let mut k: usize = 0;
    while k < n
        invariant
            k <= n <= lines@.len(),
            ls == views(lines@),
            shown@.len() == k,
            forall|i: int| 0 <= i < k ==> shown_line(#[trigger] ls[i], views(shown@)[i]),
            v@ == concat_lines(views(shown@)),
        decreases n - k,
    {
        let text = string_of(lines[k].as_slice());
        let kind = classify_diff_line(text.as_str());
        let out = match kind {
            DiffLine::Added(l) => green(l),
            DiffLine::Removed(l) => red(l),
            DiffLine::Header(l) => cyan(l),
            DiffLine::Context(l) => l.to_owned(),
        };
        let oc = chars_of(out.as_str());
        append_chars(&mut v, oc.as_slice());
        v.push('\n');
        let ghost sb = views(shown@);
        shown.push(oc);
        assert(views(shown@) =~= sb.push(oc@));
        assert(views(shown@).drop_last() =~= sb);
        k = k + 1;
    }
    let ghost marker: Seq<char> = Seq::<char>::empty();
    let ghost body = v@;
    if lines.len() > max_lines {
        let mut m = chars_of("… ");
        append_chars(&mut m, decimal_u64((lines.len() - max_lines) as u64).as_slice());
        append_chars(&mut m, chars_of(" more line(s) not shown").as_slice());
        let ms = string_of(m.as_slice());
        let styled_marker = dim(ms.as_str());
        let sc = chars_of(styled_marker.as_str());
        proof {
            marker = sc@;
        }
        append_chars(&mut v, sc.as_slice());
        v.push('\n');
        assert(v@ =~= body + marker.push('\n'));
    } else {
        assert(v@ =~= body + Seq::<char>::empty());
    }
    let r = string_of(v.as_slice());
    assert(diff_rendering(diff@, max_lines as int, views(shown@), marker, r@));
    r
}

/// Law: the hint bar never exceeds the terminal width, whatever styling is
/// in effect.
pub proof fn law_fit_never_exceeds_width(out: Seq<char>, pieces: Seq<Seq<char>>, width: int)
    requires
        utf8_len(out) <= width,
    ensures
        utf8_len(fit_from(out, pieces, width)) <= width,
    decreases pieces.len(),
{
    if pieces.len() > 0 && utf8_len(out) + utf8_len(pieces[0]) + 3 <= width {
        let next = if out.len() > 0 {
            out + "  "@ + pieces[0]
        } else {
            pieces[0]
        };
        lemma_two_spaces();
        crate::text::lemma_encode_utf8_concat(out, "  "@);
        crate::text::lemma_encode_utf8_concat(out + "  "@, pieces[0]);
        law_fit_never_exceeds_width(next, pieces.drop_first(), width);
    }
}

/// Law: a diff of a single line counts that line exactly when it is of the
/// kind counted.
pub proof fn law_count_single_line(l: Seq<char>, k: DiffKind)
    ensures
        count_kind(seq![l], k) == if diff_kind(l) == k {
            1nat
        } else {
            0nat
        },
{
    assert(seq![l].drop_last() =~= Seq::<Seq<char>>::empty());
    assert(seq![l].last() == l);
    assert(count_kind(Seq::<Seq<char>>::empty(), k) == 0);
    assert(count_kind(seq![l], k) == count_kind(seq![l].drop_last(), k) + if diff_kind(l) == k {
        1nat
    } else {
        0nat
    });
}

/// Law: counting is additive: the lines of two diffs read one after the other
/// count as many of a kind as the two diffs counted apart.
pub proof fn law_count_concat(a: Seq<Seq<char>>, b: Seq<Seq<char>>, k: DiffKind)
    ensures
        count_kind(a + b, k) == count_kind(a, k) + count_kind(b, k),
    decreases b.len(),
{
    if b.len() == 0 {
        assert(a + b =~= a);
    } else {
        law_count_concat(a, b.drop_last(), k);
        assert((a + b).drop_last() =~= a + b.drop_last());
        assert((a + b).last() == b.last());
    }
}

/// Law: the count of a kind is the number of lines of that kind, and never
/// more than the number of lines.
pub proof fn law_count_is_lines_of_kind(ls: Seq<Seq<char>>, k: DiffKind)
    ensures
        count_kind(ls, k) == ls.filter(|l: Seq<char>| diff_kind(l) == k).len(),
        count_kind(ls, k) <= ls.len(),
    decreases ls.len(),
{
    reveal(Seq::filter);
    if ls.len() > 0 {
        law_count_is_lines_of_kind(ls.drop_last(), k);
    }
}

} // verus!
