//! Rewrites Content-Security-Policy so the injected page bridge is allowed to run.
//!
//! The preview only works if the page can execute our script and POST capture
//! data back to the proxy origin. A strict CSP on the target app would block
//! both, so exactly the directives the bridge needs are relaxed and the rest
//! of the policy is left alone.

use vstd::prelude::*;

use crate::text::{
    append_chars, chars_eq, chars_of, contains, contains_chars, copy_range, find, find_chars,
    is_whitespace, is_ws, join, join_chars, lower_ascii_seq, lower_chars, split_char,
    split_chars, string_of, trim, trim_chars, trim_start, ws_prefix_len, views, one_of,
};

verus! {

/// The path the bridge is served from, on the proxy origin.
pub const BRIDGE_PATH: &'static str = "/cascade-browser-integration.js";

/// Position of the first whitespace character of `q` (its length if none).
pub open spec fn ws_index(q: Seq<char>) -> nat
    decreases q.len(),
{
    if q.len() == 0 || is_ws(q[0]) {
        0
    } else {
        1 + ws_index(q.drop_first())
    }
}

/// `split_whitespace().next()`, empty when `p` is blank.
pub open spec fn first_token(p: Seq<char>) -> Seq<char> {
    let q = trim_start(p);
    q.take(ws_index(q) as int)
}

/// Part `p` of a policy is the directive `d` (names compared ignoring ASCII case).
pub open spec fn names_directive(p: Seq<char>, d: Seq<char>) -> bool {
    lower_ascii_seq(first_token(p)) == lower_ascii_seq(d)
}

/// The trimmed, non-empty pieces of a policy split on `;`.
pub open spec fn kept_parts(pieces: Seq<Seq<char>>) -> Seq<Seq<char>>
    decreases pieces.len(),
{
    if pieces.len() == 0 {
        Seq::<Seq<char>>::empty()
    } else {
        let r = kept_parts(pieces.drop_last());
        let t = trim(pieces.last());
        if t.len() > 0 {
            r.push(t)
        } else {
            r
        }
    }
}

pub open spec fn policy_parts(value: Seq<char>) -> Seq<Seq<char>> {
    kept_parts(split_char(value, ';'))
}

/// The first part at or after `i` that is directive `d`.
pub open spec fn find_directive(parts: Seq<Seq<char>>, d: Seq<char>, i: int) -> Option<int>
    decreases parts.len() - i,
{
    if i < 0 || i >= parts.len() {
        None
    } else if names_directive(parts[i], d) {
        Some(i)
    } else {
        find_directive(parts, d, i + 1)
    }
}

/// The tokens of `toks` that do not already occur in `p`.
pub open spec fn missing_tokens(p: Seq<char>, toks: Seq<Seq<char>>) -> Seq<Seq<char>>
    decreases toks.len(),
{
    if toks.len() == 0 {
        Seq::<Seq<char>>::empty()
    } else {
        let r = missing_tokens(p, toks.drop_last());
        if contains(p, toks.last()) {
            r
        } else {
            r.push(toks.last())
        }
    }
}

/// Part `p` with the missing sources appended (unchanged when none is missing).
pub open spec fn augment(p: Seq<char>, toks: Seq<Seq<char>>) -> Seq<char> {
    let m = missing_tokens(p, toks);
    if m.len() == 0 {
        p
    } else {
        p + seq![' '] + join(m, seq![' '])
    }
}

/// Grant sources `toks` under directive `d`: extend the first part naming it,
/// or add the directive at the end.
pub open spec fn grant(parts: Seq<Seq<char>>, d: Seq<char>, toks: Seq<Seq<char>>) -> Seq<
    Seq<char>,
> {
    match find_directive(parts, d, 0) {
        Some(i) => parts.update(i, augment(parts[i], toks)),
        None => parts.push(d + seq![' '] + join(toks, seq![' '])),
    }
}

pub open spec fn script_sources() -> Seq<Seq<char>> {
    seq!["'self'"@, "'unsafe-inline'"@, "'unsafe-eval'"@]
}

pub open spec fn connect_sources() -> Seq<Seq<char>> {
    seq!["'self'"@]
}

/// The parts of the rewritten policy, before they are joined with `"; "`.
pub open spec fn rewritten_parts(value: Seq<char>) -> Seq<Seq<char>> {
    grant(
        grant(policy_parts(value), "script-src"@, script_sources()),
        "connect-src"@,
        connect_sources(),
    )
}

pub open spec fn rewrite_policy_spec(value: Seq<char>) -> Seq<char> {
    join(rewritten_parts(value), "; "@)
}

fn first_token_chars(p: &[char]) -> (v: Vec<char>)
    ensures
        v@ == first_token(p@),
{
    let n = p.len();
    let mut i: usize = 0;
    assert(p@.skip(0) =~= p@);
    while i < n && is_whitespace(p[i])
        invariant
            i <= n == p@.len(),
            ws_prefix_len(p@) == i + ws_prefix_len(p@.skip(i as int)),
        decreases n - i,
    {
        assert(p@.skip(i as int).drop_first() =~= p@.skip(i + 1));
        i = i + 1;
    }
    assert(ws_prefix_len(p@.skip(i as int)) == 0);
    let mut j: usize = i;
    while j < n && !is_whitespace(p[j])
        invariant
            i <= j <= n == p@.len(),
            ws_prefix_len(p@) == i,
            ws_index(p@.skip(i as int)) == (j - i) + ws_index(p@.skip(j as int)),
        decreases n - j,
    {
        assert(p@.skip(j as int).drop_first() =~= p@.skip(j + 1));
        j = j + 1;
    }
    assert(ws_index(p@.skip(j as int)) == 0);
    assert(p@.skip(i as int).take(j - i) =~= p@.subrange(i as int, j as int));
    copy_range(p, i, j)
}

fn names_directive_chars(p: &[char], d: &[char]) -> (r: bool)
    ensures
        r == names_directive(p@, d@),
{
    let t = first_token_chars(p);
    let a = lower_chars(t.as_slice());
    let b = lower_chars(d);
    chars_eq(a.as_slice(), b.as_slice())
}

fn find_directive_in(parts: &Vec<Vec<char>>, d: &[char]) -> (r: Option<usize>)
    ensures
        r matches Some(i) ==> find_directive(views(parts@), d@, 0) == Some(i as int),
        r is None ==> find_directive(views(parts@), d@, 0) is None,
{
    let ghost vs = views(parts@);
    let mut k: usize = 0;
    while k < parts.len()
        invariant
            k <= parts@.len(),
            vs == views(parts@),
            find_directive(vs, d@, 0) == find_directive(vs, d@, k as int),
        decreases parts@.len() - k,
    {
        if names_directive_chars(parts[k].as_slice(), d) {
            return Some(k);
        }
        k = k + 1;
    }
    None
}

fn augment_chars(p: &[char], toks: &Vec<Vec<char>>) -> (v: Vec<char>)
    ensures
        v@ == augment(p@, views(toks@)),
{
    let ghost tv = views(toks@);
    let mut missing: Vec<Vec<char>> = Vec::new();
    let mut k: usize = 0;
    while k < toks.len()
        invariant
            k <= toks@.len(),
            tv == views(toks@),
            views(missing@) == missing_tokens(p@, tv.take(k as int)),
        decreases toks@.len() - k,
    {
        assert(tv.take(k + 1).drop_last() =~= tv.take(k as int));
        let t = toks[k].as_slice();
        if !contains_chars(p, t) {
            let owned = copy_range(t, 0, t.len());
            assert(owned@ =~= t@);
            missing.push(owned);
        }
        k = k + 1;
        assert(views(missing@) =~= missing_tokens(p@, tv.take(k as int)));
    }
    assert(tv.take(k as int) =~= tv);
    let mut v = copy_range(p, 0, p.len());
    assert(v@ =~= p@);
    if missing.len() > 0 {
        let sp: Vec<char> = vec![' '];
        append_chars(&mut v, sp.as_slice());
        let tail = join_chars(&missing, sp.as_slice());
        append_chars(&mut v, tail.as_slice());
        assert(sp@ =~= seq![' ']);
    }
    v
}

fn grant_in(parts: &mut Vec<Vec<char>>, d: &[char], toks: &Vec<Vec<char>>)
    ensures
        views(final(parts)@) == grant(views(old(parts)@), d@, views(toks@)),
{
    let sp: Vec<char> = vec![' '];
    assert(sp@ =~= seq![' ']);
    match find_directive_in(parts, d) {
        Some(i) => {
            proof {
                let f = find_directive(views(parts@), d@, 0);
                lemma_find_directive_in_range(views(parts@), d@, 0);
            }
            let np = augment_chars(parts[i].as_slice(), toks);
            let ghost before = views(parts@);
            parts.set(i, np);
            assert(views(parts@) =~= before.update(i as int, augment(before[i as int], views(toks@))));
        },
        None => {
            let mut np = copy_range(d, 0, d.len());
            append_chars(&mut np, sp.as_slice());
            let tail = join_chars(toks, sp.as_slice());
            append_chars(&mut np, tail.as_slice());
            assert(np@ == d@ + seq![' '] + join(views(toks@), seq![' ']));
            let ghost before = views(parts@);
            parts.push(np);
            assert(views(parts@) =~= before.push(d@ + seq![' '] + join(views(toks@), seq![' '])));
        },
    }
}

/// A found directive lies inside the parts.
pub proof fn lemma_find_directive_in_range(parts: Seq<Seq<char>>, d: Seq<char>, i: int)
    ensures
        find_directive(parts, d, i) matches Some(j) ==> i <= j < parts.len() && names_directive(
            parts[j],
            d,
        ),
    decreases parts.len() - i,
{
    if 0 <= i < parts.len() && !names_directive(parts[i], d) {
        lemma_find_directive_in_range(parts, d, i + 1);
    }
}

fn source_list(a: &str, b: &str, c: &str) -> (v: Vec<Vec<char>>)
    ensures
        views(v@) == seq![a@, b@, c@],
{
    let v = vec![chars_of(a), chars_of(b), chars_of(c)];
    assert(views(v@) =~= seq![a@, b@, c@]);
    v
}

/// Rewrite a single CSP header value.
///
/// For each directive the bridge needs: if it is absent, append it; if
/// present, append the missing sources to its existing list rather than
/// replacing it, so the target app's own policy keeps working.
pub fn rewrite_policy(value: &str) -> (r: String)
    ensures
        r@ == rewrite_policy_spec(value@),
{
    let chars = chars_of(value);
    let pieces = split_chars(chars.as_slice(), ';');
    let ghost pv = split_char(chars@, ';');
    let mut parts: Vec<Vec<char>> = Vec::new();
    let mut k: usize = 0;
    while k < pieces.len()
        invariant
            k <= pieces@.len() == pv.len(),
            forall|i: int| 0 <= i < pieces@.len() ==> #[trigger] pieces@[i]@ == pv[i],
            views(parts@) == kept_parts(pv.take(k as int)),
        decreases pieces@.len() - k,
    {
        assert(pv.take(k + 1).drop_last() =~= pv.take(k as int));
        let t = trim_chars(pieces[k].as_slice());
        if t.len() > 0 {
            let ghost before = views(parts@);
            parts.push(t);
            assert(views(parts@) =~= before.push(t@));
        }
        k = k + 1;
    }
    assert(pv.take(k as int) =~= pv);
    let script = source_list("'self'", "'unsafe-inline'", "'unsafe-eval'");
    let self_only = vec![chars_of("'self'")];
    assert(views(self_only@) =~= connect_sources());
    let script_dir = chars_of("script-src");
    let connect_dir = chars_of("connect-src");
    grant_in(&mut parts, script_dir.as_slice(), &script);
    grant_in(&mut parts, connect_dir.as_slice(), &self_only);
    let sep = chars_of("; ");
    let joined = join_chars(&parts, sep.as_slice());
    string_of(joined.as_slice())
}

/// The bridge tag: the CSRF token for the bridge to read, then the bridge script.
pub open spec fn bridge_tag(csrf: Seq<char>) -> Seq<char> {
    "<meta name=\"codeium-csrf-token\" content=\""@ + csrf + "\"><script src=\""@
        + BRIDGE_PATH@ + "\"></script>"@
}

/// Where the bridge tag goes: right after the `>` closing the first `<head`
/// tag (found ignoring ASCII case), or at the very front without one.
pub open spec fn inject_at(html: Seq<char>) -> int {
    match find(lower_ascii_seq(html), "<head"@) {
        Some(s) => match find(html.skip(s), seq!['>']) {
            Some(r) => s + r + 1,
            None => 0,
        },
        None => 0,
    }
}

pub open spec fn inject_bridge_spec(html: Seq<char>, csrf: Seq<char>) -> Seq<char> {
    let at = inject_at(html);
    html.take(at) + bridge_tag(csrf) + html.skip(at)
}

/// Insert the bridge script as the first thing in `<head>` so it runs before
/// app code, and expose the CSRF token for it to read.
pub fn inject_bridge(html: &str, csrf: &str) -> (r: String)
    ensures
        r@ == inject_bridge_spec(html@, csrf@),
{
    let h = chars_of(html);
    let mut tag = chars_of("<meta name=\"codeium-csrf-token\" content=\"");
    let token = chars_of(csrf);
    append_chars(&mut tag, token.as_slice());
    let mid = chars_of("\"><script src=\"");
    append_chars(&mut tag, mid.as_slice());
    let path = chars_of(BRIDGE_PATH);
    append_chars(&mut tag, path.as_slice());
    let close = chars_of("\"></script>");
    append_chars(&mut tag, close.as_slice());
    assert(tag@ == bridge_tag(csrf@));
    let lower = lower_chars(h.as_slice());
    let open = chars_of("<head");
    let gt: Vec<char> = vec!['>'];
    assert(gt@ =~= seq!['>']);
    let mut at: usize = 0;
    match find_chars(lower.as_slice(), open.as_slice()) {
        Some(s) => {
            proof {
                crate::text::lemma_find_from(lower@, open@, 0);
            }
            let rest = copy_range(h.as_slice(), s, h.len());
            assert(rest@ =~= h@.skip(s as int));
            match find_chars(rest.as_slice(), gt.as_slice()) {
                Some(r) => {
                    proof {
                        crate::text::lemma_find_from(rest@, gt@, 0);
                    }
                    at = s + r + 1;
                },
                None => {},
            }
        },
        None => {},
    }
    assert(at as int == inject_at(h@));
    let mut out = copy_range(h.as_slice(), 0, at);
    append_chars(&mut out, tag.as_slice());
    let tail = copy_range(h.as_slice(), at, h.len());
    append_chars(&mut out, tail.as_slice());
    assert(out@ =~= inject_bridge_spec(h@, csrf@));
    string_of(out.as_slice())
}

/// Header names that are never forwarded in either direction.
pub open spec fn hop_by_hop_names() -> Seq<Seq<char>> {
    seq![
        "connection"@,
        "keep-alive"@,
        "proxy-authenticate"@,
        "proxy-authorization"@,
        "te"@,
        "trailers"@,
        "transfer-encoding"@,
        "upgrade"@,
    ]
}

/// Headers that must never be forwarded in either direction (ASCII case ignored).
pub fn is_hop_by_hop(name: &str) -> (r: bool)
    ensures
        r == hop_by_hop_names().contains(lower_ascii_seq(name@)),
{
    let lower = lower_chars(chars_of(name).as_slice());
    let names = vec![
        chars_of("connection"),
        chars_of("keep-alive"),
        chars_of("proxy-authenticate"),
        chars_of("proxy-authorization"),
        chars_of("te"),
        chars_of("trailers"),
        chars_of("transfer-encoding"),
        chars_of("upgrade"),
    ];
    assert(views(names@) =~= hop_by_hop_names());
    one_of(lower.as_slice(), &names)
}

/// `pat` is a prefix of `s`.
proof fn lemma_prefix_of_concat(p: Seq<char>, q: Seq<char>)
    ensures
        crate::text::starts_with(p + q, p),
{
    assert((p + q).subrange(0, p.len() as int) =~= p);
}

proof fn lemma_prefix_transitive(a: Seq<char>, b: Seq<char>, c: Seq<char>)
    requires
        crate::text::starts_with(a, b),
        crate::text::starts_with(b, c),
    ensures
        crate::text::starts_with(a, c),
{
    assert(a.subrange(0, c.len() as int) =~= b.subrange(0, c.len() as int));
}

/// A token of `toks` that `p` lacks is among the missing ones.
proof fn lemma_missing(p: Seq<char>, toks: Seq<Seq<char>>, t: Seq<char>)
    requires
        toks.contains(t),
        !contains(p, t),
    ensures
        missing_tokens(p, toks).contains(t),
    decreases toks.len(),
{
    if toks.last() == t {
        assert(missing_tokens(p, toks).last() == t);
    } else {
        let k = choose|k: int| 0 <= k < toks.len() && toks[k] == t;
        assert(toks.drop_last()[k] == t);
        lemma_missing(p, toks.drop_last(), t);
        let m = missing_tokens(p, toks.drop_last());
        let j = choose|j: int| 0 <= j < m.len() && m[j] == t;
        if !contains(p, toks.last()) {
            assert(missing_tokens(p, toks)[j] == t);
        }
    }
}

/// An augmented part holds every requested source.
proof fn lemma_augment_contains(p: Seq<char>, toks: Seq<Seq<char>>, t: Seq<char>)
    requires
        toks.contains(t),
    ensures
        contains(augment(p, toks), t),
{
    let m = missing_tokens(p, toks);
    if contains(p, t) {
        if m.len() > 0 {
            crate::text::lemma_contains_extend(p, seq![' '] + join(m, seq![' ']), t);
            assert(p + (seq![' '] + join(m, seq![' '])) =~= augment(p, toks));
        }
    } else {
        lemma_missing(p, toks, t);
        let k = choose|k: int| 0 <= k < m.len() && m[k] == t;
        crate::text::lemma_join_contains(m, seq![' '], k);
        crate::text::lemma_contains_suffix(p + seq![' '], join(m, seq![' ']), t);
    }
}

proof fn lemma_ws_prefix_concat(p: Seq<char>, q: Seq<char>)
    requires
        ws_prefix_len(p) < p.len(),
    ensures
        ws_prefix_len(p + q) == ws_prefix_len(p),
    decreases p.len(),
{
    if is_ws(p[0]) {
        assert((p + q).drop_first() =~= p.drop_first() + q);
        lemma_ws_prefix_concat(p.drop_first(), q);
    }
}

proof fn lemma_ws_index_bound(q: Seq<char>)
    ensures
        ws_index(q) <= q.len(),
        ws_index(q) < q.len() ==> is_ws(q[ws_index(q) as int]),
        forall|i: int| 0 <= i < ws_index(q) ==> !is_ws(#[trigger] q[i]),
    decreases q.len(),
{
    if q.len() > 0 && !is_ws(q[0]) {
        lemma_ws_index_bound(q.drop_first());
        assert forall|i: int| 0 <= i < ws_index(q) implies !is_ws(#[trigger] q[i]) by {
            if i > 0 {
                assert(q.drop_first()[i - 1] == q[i]);
            }
        }
    }
}

/// The whitespace index of `q` then `r`: unchanged when `q` has whitespace,
/// the end of `q` when `r` starts with whitespace.
proof fn lemma_ws_index_concat(q: Seq<char>, r: Seq<char>)
    requires
        r.len() > 0,
        is_ws(r[0]),
    ensures
        ws_index(q + r) == ws_index(q),
    decreases q.len(),
{
    if q.len() == 0 {
        assert(q + r =~= r);
    } else if !is_ws(q[0]) {
        assert((q + r).drop_first() =~= q.drop_first() + r);
        lemma_ws_index_concat(q.drop_first(), r);
    }
}

/// A part that names a directive keeps naming it when text starting with a
/// space is appended.
proof fn lemma_names_extend(p: Seq<char>, d: Seq<char>, rest: Seq<char>)
    requires
        names_directive(p, d),
        d.len() > 0,
    ensures
        names_directive(p + (seq![' '] + rest), d),
{
    let r = seq![' '] + rest;
    let q = trim_start(p);
    crate::text::lemma_ws_prefix_len_bound(p);
    lemma_ws_index_bound(q);
    assert(lower_ascii_seq(first_token(p)).len() == first_token(p).len());
    assert(lower_ascii_seq(d).len() == d.len());
    assert(q.len() > 0);
    lemma_ws_prefix_concat(p, r);
    assert(trim_start(p + r) =~= q + r);
    assert(is_ws(r[0]));
    lemma_ws_index_concat(q, r);
    assert((q + r).take(ws_index(q) as int) =~= q.take(ws_index(q) as int));
}

/// A directive written out as its name, a space and its sources names it,
/// when the name starts the text and holds no whitespace.
proof fn lemma_names_new(d: Seq<char>, rest: Seq<char>)
    requires
        d.len() > 0,
        forall|i: int| 0 <= i < d.len() ==> !is_ws(#[trigger] d[i]),
    ensures
        names_directive(d + (seq![' '] + rest), d),
{
    let r = seq![' '] + rest;
    let x = d + r;
    assert(x[0] == d[0]);
    assert(ws_prefix_len(x) == 0);
    assert(trim_start(x) =~= x);
    lemma_ws_index_bound(d);
    lemma_ws_index_concat(d, r);
    assert(x.take(d.len() as int) =~= d);
}

proof fn lemma_find_directive(parts: Seq<Seq<char>>, d: Seq<char>, from: int)
    requires
        0 <= from,
    ensures
        match find_directive(parts, d, from) {
            Some(i) => from <= i < parts.len() && names_directive(parts[i], d) && forall|j: int|
                from <= j < i ==> !names_directive(#[trigger] parts[j], d),
            None => forall|j: int| from <= j < parts.len() ==> !names_directive(#[trigger] parts[j], d),
        },
    decreases parts.len() - from,
{
    if from < parts.len() && !names_directive(parts[from], d) {
        lemma_find_directive(parts, d, from + 1);
    }
}

/// What granting does: some part then names `d` and holds every source of
/// `toks`; no part is lost, each keeps its text as a prefix, and parts that
/// do not name `d` are untouched.
proof fn lemma_grant(parts: Seq<Seq<char>>, d: Seq<char>, toks: Seq<Seq<char>>) -> (i: int)
    requires
        d.len() > 0,
        forall|k: int| 0 <= k < d.len() ==> !is_ws(#[trigger] d[k]),
    ensures
        0 <= i < grant(parts, d, toks).len(),
        names_directive(grant(parts, d, toks)[i], d),
        forall|t: Seq<char>| toks.contains(t) ==> contains(#[trigger] grant(parts, d, toks)[i], t),
        grant(parts, d, toks).len() >= parts.len(),
        forall|j: int|
            0 <= j < parts.len() ==> crate::text::starts_with(#[trigger] grant(parts, d, toks)[j], parts[j]),
        forall|j: int|
            0 <= j < parts.len() && !names_directive(parts[j], d) ==> #[trigger] grant(parts, d, toks)[j]
                == parts[j],
        forall|j: int| 0 <= j < i ==> !names_directive(#[trigger] grant(parts, d, toks)[j], d),
        i < parts.len() ==> grant(parts, d, toks).len() == parts.len(),
        forall|j: int| 0 <= j < parts.len() && j != i ==> #[trigger] grant(parts, d, toks)[j] == parts[j],
{
    lemma_find_directive(parts, d, 0);
    let g = grant(parts, d, toks);
    match find_directive(parts, d, 0) {
        Some(i) => {
            let p = parts[i];
            let m = missing_tokens(p, toks);
            if m.len() > 0 {
                lemma_names_extend(p, d, join(m, seq![' ']));
                assert(p + (seq![' '] + join(m, seq![' '])) =~= augment(p, toks));
                lemma_prefix_of_concat(p, seq![' '] + join(m, seq![' ']));
            } else {
                assert(p.subrange(0, p.len() as int) =~= p);
            }
            assert forall|t: Seq<char>| toks.contains(t) implies contains(#[trigger] g[i], t) by {
                lemma_augment_contains(p, toks, t);
            }
            assert forall|j: int| 0 <= j < parts.len() implies crate::text::starts_with(
                #[trigger] g[j],
                parts[j],
            ) by {
                if j != i {
                    assert(parts[j].subrange(0, parts[j].len() as int) =~= parts[j]);
                }
            }
            i
        },
        None => {
            let i = parts.len() as int;
            let body = join(toks, seq![' ']);
            lemma_names_new(d, body);
            assert(d + seq![' '] + body =~= d + (seq![' '] + body));
            assert forall|t: Seq<char>| toks.contains(t) implies contains(#[trigger] g[i], t) by {
                let k = choose|k: int| 0 <= k < toks.len() && toks[k] == t;
                crate::text::lemma_join_contains(toks, seq![' '], k);
                crate::text::lemma_contains_suffix(d + seq![' '], body, t);
            }
            assert forall|j: int| 0 <= j < parts.len() implies crate::text::starts_with(
                #[trigger] g[j],
                parts[j],
            ) by {
                assert(parts[j].subrange(0, parts[j].len() as int) =~= parts[j]);
            }
            i
        },
    }
}

proof fn lemma_directive_names_have_no_space()
    ensures
        "script-src"@.len() > 0,
        "connect-src"@.len() > 0,
        forall|k: int| 0 <= k < "script-src"@.len() ==> !is_ws(#[trigger] "script-src"@[k]),
        forall|k: int| 0 <= k < "connect-src"@.len() ==> !is_ws(#[trigger] "connect-src"@[k]),
        lower_ascii_seq("script-src"@) != lower_ascii_seq("connect-src"@),
{
    reveal_strlit("script-src");
    reveal_strlit("connect-src");
    assert(lower_ascii_seq("script-src"@)[0] == 's');
    assert(lower_ascii_seq("connect-src"@)[0] == 'c');
}

/// Law: rewriting keeps the app's own policy. Every directive of the
/// original policy is still there, in place, with its sources as they were
/// (sources are only ever appended).
pub proof fn law_rewrite_keeps_existing_directives(value: Seq<char>)
    ensures
        rewritten_parts(value).len() >= policy_parts(value).len(),
        forall|j: int|
            0 <= j < policy_parts(value).len() ==> crate::text::starts_with(
                #[trigger] rewritten_parts(value)[j],
                policy_parts(value)[j],
            ),
{
    lemma_directive_names_have_no_space();
    let p0 = policy_parts(value);
    let p1 = grant(p0, "script-src"@, script_sources());
    lemma_grant(p0, "script-src"@, script_sources());
    lemma_grant(p1, "connect-src"@, connect_sources());
    let p2 = rewritten_parts(value);
    assert forall|j: int| 0 <= j < p0.len() implies crate::text::starts_with(#[trigger] p2[j], p0[j]) by {
        assert(crate::text::starts_with(p1[j], p0[j]));
        assert(crate::text::starts_with(p2[j], p1[j]));
        lemma_prefix_transitive(p2[j], p1[j], p0[j]);
    }
}

/// Law: whatever the policy was, the rewritten one lets the bridge run and
/// report back: a `script-src` directive allows `'self'`, `'unsafe-inline'`
/// and `'unsafe-eval'`, and a `connect-src` directive allows `'self'`.
pub proof fn law_rewrite_grants_bridge(value: Seq<char>)
    ensures
        exists|i: int|
            0 <= i < rewritten_parts(value).len() && names_directive(
                #[trigger] rewritten_parts(value)[i],
                "script-src"@,
            ) && forall|t: Seq<char>|
                script_sources().contains(t) ==> contains(rewritten_parts(value)[i], t),
        exists|i: int|
            0 <= i < rewritten_parts(value).len() && names_directive(
                #[trigger] rewritten_parts(value)[i],
                "connect-src"@,
            ) && forall|t: Seq<char>|
                connect_sources().contains(t) ==> contains(rewritten_parts(value)[i], t),
{
    lemma_directive_names_have_no_space();
    let p0 = policy_parts(value);
    let p1 = grant(p0, "script-src"@, script_sources());
    let i1 = lemma_grant(p0, "script-src"@, script_sources());
    let i2 = lemma_grant(p1, "connect-src"@, connect_sources());
    let p2 = rewritten_parts(value);
    assert(!names_directive(p1[i1], "connect-src"@));
    assert(p2[i1] == p1[i1]);
    assert(names_directive(p2[i1], "script-src"@));
    assert(names_directive(p2[i2], "connect-src"@));
}

/// Law: injecting the bridge changes nothing else on the page: the tag goes
/// in at one place, and taking it out again gives back the page as served.
pub proof fn law_inject_keeps_page(html: Seq<char>, csrf: Seq<char>)
    ensures
        0 <= inject_at(html) <= html.len(),
        ({
            let out = inject_bridge_spec(html, csrf);
            let at = inject_at(html);
            &&& out.subrange(at, at + bridge_tag(csrf).len()) == bridge_tag(csrf)
            &&& out.take(at) + out.skip(at + bridge_tag(csrf).len()) == html
        }),
{
    let low = lower_ascii_seq(html);
    crate::text::lemma_find_from(low, "<head"@, 0);
    match find(low, "<head"@) {
        Some(s) => {
            crate::text::lemma_find_from(html.skip(s), seq!['>'], 0);
        },
        None => {},
    }
    let out = inject_bridge_spec(html, csrf);
    let at = inject_at(html);
    assert(out.subrange(at, at + bridge_tag(csrf).len()) =~= bridge_tag(csrf));
    assert(out.take(at) + out.skip(at + bridge_tag(csrf).len()) =~= html);
}

/// A policy part as a rewrite leaves it: not empty, no `;`, and starting
/// and ending with a character that is not whitespace.
pub open spec fn clean_part(q: Seq<char>) -> bool {
    &&& q.len() > 0
    &&& !is_ws(q[0])
    &&& !is_ws(q.last())
    &&& forall|j: int| 0 <= j < q.len() ==> #[trigger] q[j] != ';'
}

pub open spec fn clean_parts(ps: Seq<Seq<char>>) -> bool {
    forall|i: int| 0 <= i < ps.len() ==> clean_part(#[trigger] ps[i])
}

/// The parts of a policy are clean.
proof fn lemma_policy_parts_clean(value: Seq<char>)
    ensures
        clean_parts(policy_parts(value)),
{
    crate::text::lemma_split_pieces_no_sep(value, ';');
    lemma_kept_parts_clean(split_char(value, ';'));
}

proof fn lemma_kept_parts_clean(pieces: Seq<Seq<char>>)
    requires
        forall|i: int, j: int|
            0 <= i < pieces.len() && 0 <= j < pieces[i].len() ==> #[trigger] pieces[i][j] != ';',
    ensures
        clean_parts(kept_parts(pieces)),
    decreases pieces.len(),
{
    if pieces.len() > 0 {
        let pre = pieces.drop_last();
        assert forall|i: int, j: int| 0 <= i < pre.len() && 0 <= j < pre[i].len() implies #[trigger] pre[i][j]
            != ';' by {
            assert(pre[i] == pieces[i]);
        }
        lemma_kept_parts_clean(pre);
        let x = pieces.last();
        let t = trim(x);
        crate::text::lemma_trim_ends(x);
        if t.len() > 0 {
            let a = choose|a: int| 0 <= a && a + t.len() <= x.len() && t == #[trigger] x.subrange(a, a + t.len());
            assert forall|j: int| 0 <= j < t.len() implies #[trigger] t[j] != ';' by {
                assert(t[j] == x[a + j]);
                assert(pieces[pieces.len() - 1] == x);
            }
            let kp = kept_parts(pre);
            assert forall|i: int| 0 <= i < kept_parts(pieces).len() implies clean_part(
                #[trigger] kept_parts(pieces)[i],
            ) by {
                if i < kp.len() {
                    assert(kept_parts(pieces)[i] == kp[i]);
                }
            }
        }
    }
}

/// Joining clean parts with `"; "` and reading the policy back gives the
/// parts.
proof fn lemma_round_trip(q: Seq<Seq<char>>)
    requires
        clean_parts(q),
    ensures
        policy_parts(join(q, "; "@)) == q,
    decreases q.len(),
{
    reveal_strlit("; ");
    if q.len() == 0 {
        assert(join(q, "; "@) =~= Seq::<char>::empty());
        assert(split_char(Seq::<char>::empty(), ';') =~= seq![Seq::<char>::empty()]);
        let e = Seq::<char>::empty();
        assert(seq![e].drop_last() =~= Seq::<Seq<char>>::empty());
        assert(kept_parts(Seq::<Seq<char>>::empty()) =~= Seq::<Seq<char>>::empty());
        assert(ws_prefix_len(e) == 0);
        assert(trim_start(e).len() == 0);
        assert(trim(e).len() == 0);
        assert(seq![e].last() == e);
        assert(kept_parts(seq![e]) =~= q);
    } else if q.len() == 1 {
        assert(clean_part(q[0]));
        crate::text::lemma_split_no_sep(q[0], ';');
        crate::text::lemma_trim_clean(q[0]);
        assert(seq![q[0]].drop_last() =~= Seq::<Seq<char>>::empty());
        assert(kept_parts(Seq::<Seq<char>>::empty()) =~= Seq::<Seq<char>>::empty());
        assert(seq![q[0]].last() == q[0]);
        assert(join(q, "; "@) == q[0]);
        assert(kept_parts(seq![q[0]]) =~= q);
    } else {
        let pre = q.drop_last();
        let last = q.last();
        assert(clean_part(q[q.len() - 1]));
        assert forall|i: int| 0 <= i < pre.len() implies clean_part(#[trigger] pre[i]) by {
            assert(pre[i] == q[i]);
        }
        lemma_round_trip(pre);
        let a = join(pre, "; "@);
        let tail = seq![' '] + last;
        assert(join(q, "; "@) =~= a.push(';') + tail);
        crate::text::lemma_split_concat(a, tail, ';');
        assert forall|j: int| 0 <= j < tail.len() implies tail[j] != ';' by {
            if j > 0 {
                assert(tail[j] == last[j - 1]);
            }
        }
        crate::text::lemma_split_no_sep(tail, ';');
        let pieces = split_char(a, ';') + seq![tail];
        assert(pieces.drop_last() =~= split_char(a, ';'));
        crate::text::lemma_trim_clean(last);
        assert(kept_parts(pieces) =~= q);
    }
}

/// The elements of `missing_tokens` are among the tokens asked for.
proof fn lemma_missing_from(p: Seq<char>, toks: Seq<Seq<char>>)
    ensures
        forall|k: int| 0 <= k < missing_tokens(p, toks).len() ==> toks.contains(
            #[trigger] missing_tokens(p, toks)[k],
        ),
    decreases toks.len(),
{
    if toks.len() > 0 {
        lemma_missing_from(p, toks.drop_last());
        let m = missing_tokens(p, toks.drop_last());
        assert forall|k: int| 0 <= k < missing_tokens(p, toks).len() implies toks.contains(
            #[trigger] missing_tokens(p, toks)[k],
        ) by {
            if k < m.len() {
                let w = choose|w: int| 0 <= w < toks.drop_last().len() && toks.drop_last()[w] == m[k];
                assert(toks[w] == m[k]);
            } else {
                assert(toks[toks.len() - 1] == toks.last());
            }
        }
    }
}

/// When `p` holds every token, none is missing.
proof fn lemma_missing_none(p: Seq<char>, toks: Seq<Seq<char>>)
    requires
        forall|t: Seq<char>| toks.contains(t) ==> contains(p, t),
    ensures
        missing_tokens(p, toks).len() == 0,
    decreases toks.len(),
{
    if toks.len() > 0 {
        assert forall|t: Seq<char>| toks.drop_last().contains(t) implies contains(p, t) by {
            let w = choose|w: int| 0 <= w < toks.drop_last().len() && toks.drop_last()[w] == t;
            assert(toks[w] == t);
        }
        lemma_missing_none(p, toks.drop_last());
        assert(toks[toks.len() - 1] == toks.last());
    }
}

/// Appending a space and clean tokens to a clean part keeps it clean.
proof fn lemma_extend_clean(p: Seq<char>, m: Seq<Seq<char>>)
    requires
        clean_part(p),
        m.len() > 0,
        forall|k: int| 0 <= k < m.len() ==> clean_part(#[trigger] m[k]),
    ensures
        clean_part(p + (seq![' '] + join(m, seq![' ']))),
{
    let j = join(m, seq![' ']);
    assert(clean_part(m[m.len() - 1]));
    crate::text::lemma_join_last(m, seq![' ']);
    crate::text::lemma_join_without(m, seq![' '], ';');
    let x = p + (seq![' '] + j);
    assert(x[0] == p[0]);
    assert(x.last() == j.last());
    assert forall|k: int| 0 <= k < x.len() implies #[trigger] x[k] != ';' by {
        if k < p.len() {
            assert(x[k] == p[k]);
        } else if k > p.len() {
            assert(x[k] == j[k - p.len() - 1]);
        }
    }
}

/// Granting clean tokens under a clean directive name keeps the parts clean.
proof fn lemma_grant_clean(parts: Seq<Seq<char>>, d: Seq<char>, toks: Seq<Seq<char>>)
    requires
        clean_parts(parts),
        clean_part(d),
        toks.len() > 0,
        forall|k: int| 0 <= k < toks.len() ==> clean_part(#[trigger] toks[k]),
    ensures
        clean_parts(grant(parts, d, toks)),
{
    let g = grant(parts, d, toks);
    match find_directive(parts, d, 0) {
        Some(i) => {
            lemma_find_directive(parts, d, 0);
            let p = parts[i];
            let m = missing_tokens(p, toks);
            if m.len() > 0 {
                lemma_missing_from(p, toks);
                assert forall|k: int| 0 <= k < m.len() implies clean_part(#[trigger] m[k]) by {
                    let w = choose|w: int| 0 <= w < toks.len() && toks[w] == m[k];
                    assert(clean_part(toks[w]));
                }
                assert(clean_part(parts[i]));
                lemma_extend_clean(p, m);
                assert(p + (seq![' '] + join(m, seq![' '])) =~= augment(p, toks));
            }
            assert forall|k: int| 0 <= k < g.len() implies clean_part(#[trigger] g[k]) by {
                if k != i {
                    assert(g[k] == parts[k]);
                }
            }
        },
        None => {
            lemma_extend_clean(d, toks);
            assert(d + seq![' '] + join(toks, seq![' ']) =~= d + (seq![' '] + join(toks, seq![' '])));
            assert forall|k: int| 0 <= k < g.len() implies clean_part(#[trigger] g[k]) by {
                if k < parts.len() {
                    assert(g[k] == parts[k]);
                }
            }
        },
    }
}

/// Granting again what was just granted changes nothing.
proof fn lemma_grant_fixed(parts: Seq<Seq<char>>, d: Seq<char>, toks: Seq<Seq<char>>)
    requires
        d.len() > 0,
        forall|k: int| 0 <= k < d.len() ==> !is_ws(#[trigger] d[k]),
    ensures
        grant(grant(parts, d, toks), d, toks) == grant(parts, d, toks),
{
    let g = grant(parts, d, toks);
    let i = lemma_grant(parts, d, toks);
    lemma_regrant(g, d, toks, i);
}

/// Granting under `d` changes nothing when the first part naming `d` is at
/// `i` and already holds every token.
proof fn lemma_regrant(g: Seq<Seq<char>>, d: Seq<char>, toks: Seq<Seq<char>>, i: int)
    requires
        0 <= i < g.len(),
        names_directive(g[i], d),
        forall|j: int| 0 <= j < i ==> !names_directive(#[trigger] g[j], d),
        forall|t: Seq<char>| toks.contains(t) ==> contains(g[i], t),
    ensures
        grant(g, d, toks) == g,
{
    lemma_find_directive(g, d, 0);
    match find_directive(g, d, 0) {
        Some(k) => {
            if k < i {
                assert(!names_directive(g[k], d));
            }
            if k > i {
                assert(!names_directive(g[i], d));
            }
            assert(k == i);
        },
        None => {
            assert(!names_directive(g[i], d));
        },
    }
    lemma_missing_none(g[i], toks);
    assert(augment(g[i], toks) == g[i]);
    assert(g.update(i, g[i]) =~= g);
}

proof fn lemma_sources_clean()
    ensures
        clean_part("script-src"@),
        clean_part("connect-src"@),
        forall|k: int| 0 <= k < script_sources().len() ==> clean_part(#[trigger] script_sources()[k]),
        forall|k: int| 0 <= k < connect_sources().len() ==> clean_part(#[trigger] connect_sources()[k]),
{
    reveal_strlit("script-src");
    reveal_strlit("connect-src");
    reveal_strlit("'self'");
    reveal_strlit("'unsafe-inline'");
    reveal_strlit("'unsafe-eval'");
    assert forall|k: int| 0 <= k < script_sources().len() implies clean_part(#[trigger] script_sources()[k]) by {
        if k == 0 {
            assert(script_sources()[k] == "'self'"@);
        } else if k == 1 {
            assert(script_sources()[k] == "'unsafe-inline'"@);
        } else {
            assert(script_sources()[k] == "'unsafe-eval'"@);
        }
    }
    assert(connect_sources()[0] == "'self'"@);
}

/// Law: rewriting a policy that was already rewritten changes nothing; in
/// particular no source the bridge needs is added twice.
pub proof fn law_rewrite_idempotent(value: Seq<char>)
    ensures
        rewrite_policy_spec(rewrite_policy_spec(value)) == rewrite_policy_spec(value),
{
    lemma_directive_names_have_no_space();
    lemma_sources_clean();
    let s = "script-src"@;
    let c = "connect-src"@;
    let p0 = policy_parts(value);
    let p1 = grant(p0, s, script_sources());
    let p2 = grant(p1, c, connect_sources());
    lemma_policy_parts_clean(value);
    lemma_grant_clean(p0, s, script_sources());
    lemma_grant_clean(p1, c, connect_sources());
    lemma_round_trip(p2);
    let i1 = lemma_grant(p0, s, script_sources());
    let i2 = lemma_grant(p1, c, connect_sources());
    assert(!names_directive(p1[i1], c));
    assert(p2[i1] == p1[i1]);
    assert forall|j: int| 0 <= j < i1 implies !names_directive(#[trigger] p2[j], s) by {
        assert(!names_directive(p1[j], s));
        if j != i2 {
            assert(p2[j] == p1[j]);
        } else {
            assert(names_directive(p2[j], c));
        }
    }
    lemma_regrant(p2, s, script_sources(), i1);
    lemma_grant_fixed(p1, c, connect_sources());
    assert(rewritten_parts(rewrite_policy_spec(value)) == p2);
}

} // verus!
