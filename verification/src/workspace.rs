//! Local workspace index: validate, qualify, cache, search.
//!
//! Retrieval is local and lexical, needing no backend and no embeddings.
//! Walking the tree and reading files is the caller's; this module decides
//! which directories never count, when a workspace is too large, how a file
//! scores against a query, how hits are ranked, and how they are presented.
//! Paths are absolute, `/`-separated and canonical, as the walk yields them.

use vstd::prelude::*;

use crate::presentation::{lines_of, text_lines, utf8_len_at_most};
use crate::text::{
    append_chars, chars_eq, chars_of, contains, contains_chars, decimal, decimal_i64, decimal_u64,
    lex_less, signed_decimal, split_char, string_of, to_lowercase, trim, trim_chars,
    unicode_lowercase, utf8_len, views,
};

verus! {

/// Directories that never belong in an index, even if not ignored.
pub open spec fn always_skip() -> Seq<Seq<char>> {
    seq![
        ".git"@,
        "node_modules"@,
        "target"@,
        "dist"@,
        "build"@,
        ".venv"@,
        "__pycache__"@,
        ".next"@,
    ]
}

/// A directory entry with this name is never walked into or indexed.
pub fn is_always_skipped(name: &str) -> (r: bool)
    ensures
        r == always_skip().contains(name@),
{
    let names = vec![
        chars_of(".git"),
        chars_of("node_modules"),
        chars_of("target"),
        chars_of("dist"),
        chars_of("build"),
        chars_of(".venv"),
        chars_of("__pycache__"),
        chars_of(".next"),
    ];
    assert(views(names@) =~= always_skip());
    crate::text::one_of(chars_of(name).as_slice(), &names)
}

#[derive(Debug, Clone)]
pub struct Hit {
    pub path: String,
    pub score: i64,
    pub line: usize,
    pub snippet: String,
}

pub struct HitView {
    pub path: Seq<char>,
    pub score: i64,
    pub line: usize,
    pub snippet: Seq<char>,
}

impl View for Hit {
    type V = HitView;

    open spec fn view(&self) -> HitView {
        HitView { path: self.path@, score: self.score, line: self.line, snippet: self.snippet@ }
    }
}

pub open spec fn hit_views(hs: Seq<Hit>) -> Seq<HitView> {
    hs.map_values(|h: Hit| h@)
}

#[derive(Debug)]
pub struct WorkspaceIndex {
    root: String,
    files: Vec<String>,
    file_count: usize,
}

pub open spec fn too_many_message(max_files: nat) -> Seq<char> {
    "workspace has more than "@ + decimal(max_files)
        + " files; add a .gitignore or .karmxignore entry to exclude large directories"@
}

impl WorkspaceIndex {
    pub closed spec fn root_path(&self) -> Seq<char> {
        self.root@
    }

    pub closed spec fn file_paths(&self) -> Seq<Seq<char>> {
        self.files@.map_values(|f: String| f@)
    }

    /// Qualify a walked workspace: more than `max_files` files is an error
    /// rather than a silent partial index, so the caller can say the
    /// workspace is too large.
    pub fn from_files(root: String, files: Vec<String>, max_files: usize) -> (r: Result<Self, String>)
        ensures
            files@.len() > max_files ==> (r matches Err(m) && m@ == too_many_message(max_files as nat)),
            files@.len() <= max_files ==> (r matches Ok(ix) && ix.root_path() == root@ && ix.file_paths()
                == files@.map_values(|f: String| f@) && ix.count() == files@.len()),
    {
        if files.len() > max_files {
            let mut v = chars_of("workspace has more than ");
            append_chars(&mut v, decimal_u64(max_files as u64).as_slice());
            append_chars(
                &mut v,
                chars_of(" files; add a .gitignore or .karmxignore entry to exclude large directories").as_slice(),
            );
            return Err(string_of(v.as_slice()));
        }
        let n = files.len();
        Ok(WorkspaceIndex { root, files, file_count: n })
    }

    pub closed spec fn count(&self) -> nat {
        self.file_count as nat
    }

    pub fn file_count(&self) -> (r: usize)
        ensures
            r == self.count(),
    {
        self.file_count
    }

    pub fn root(&self) -> (r: &str)
        ensures
            r@ == self.root_path(),
    {
        self.root.as_str()
    }

    pub fn files(&self) -> (r: &[String])
        ensures
            r@.map_values(|f: String| f@) == self.file_paths(),
    {
        self.files.as_slice()
    }

    /// Render hits the way a retrieval result is presented to a model: each
    /// with its path relative to the root, line and score, then the snippet.
    pub fn format_hits(&self, hits: &[Hit]) -> (r: String)
        ensures
            r@ == "The following code sections were retrieved:\n"@ + hits_text(self.root_path(), hit_views(hits@)),
    {
        let mut v = chars_of("The following code sections were retrieved:\n");
        let ghost head = v@;
        let mut k: usize = 0;
        while k < hits.len()
            invariant
                k <= hits@.len(),
                v@ == head + hits_text(self.root_path(), hit_views(hits@).take(k as int)),
            decreases hits@.len() - k,
        {
            let h = &hits[k];
            let rel = relative_to(self.root.as_str(), h.path.as_str());
            append_chars(&mut v, chars_of("\n").as_slice());
            append_chars(&mut v, rel.as_slice());
            append_chars(&mut v, chars_of(":").as_slice());
            append_chars(&mut v, decimal_u64(h.line as u64).as_slice());
            append_chars(&mut v, chars_of(" (score ").as_slice());
            append_chars(&mut v, decimal_i64(h.score).as_slice());
            append_chars(&mut v, chars_of(")\n").as_slice());
            append_chars(&mut v, chars_of(h.snippet.as_str()).as_slice());
            append_chars(&mut v, chars_of("\n").as_slice());
            assert(hit_views(hits@).take(k + 1).drop_last() =~= hit_views(hits@).take(k as int));
            assert(hit_views(hits@).take(k + 1).last() == h@);
            k = k + 1;
        }
        assert(hit_views(hits@).take(k as int) =~= hit_views(hits@));
        string_of(v.as_slice())
    }
}

/// The path starts at the file-system root.
pub open spec fn has_root(p: Seq<char>) -> bool {
    p.len() > 0 && p[0] == '/'
}

/// The named parts among `ps`: empty parts and `.` are dropped.
pub open spec fn named_parts(ps: Seq<Seq<char>>) -> Seq<Seq<char>>
    decreases ps.len(),
{
    if ps.len() == 0 {
        Seq::<Seq<char>>::empty()
    } else {
        let prev = named_parts(ps.drop_last());
        if ps.last().len() > 0 && ps.last() != "."@ {
            prev.push(ps.last())
        } else {
            prev
        }
    }
}

/// The components of a `/`-separated path, as `Path::components` reads
/// them: repeated separators and `.` parts vanish, except a leading `.` of a
/// relative path; the root is told apart by [`has_root`].
pub open spec fn path_components(p: Seq<char>) -> Seq<Seq<char>> {
    let pieces = split_char(p, '/');
    if !has_root(p) && pieces[0] == "."@ {
        seq!["."@] + named_parts(pieces.drop_first())
    } else {
        named_parts(pieces)
    }
}

/// A part of a path that names nothing: empty (a repeated or trailing
/// separator) or `.`.
pub open spec fn skipped(x: Seq<char>) -> bool {
    x.len() == 0 || x == "."@
}

/// What is left of `ps` once its first `n` named parts, and the unnamed
/// parts before them, have been passed.
pub open spec fn after_named(ps: Seq<Seq<char>>, n: nat) -> Seq<Seq<char>>
    decreases ps.len(),
{
    if n == 0 || ps.len() == 0 {
        ps
    } else if skipped(ps[0]) {
        after_named(ps.drop_first(), n)
    } else {
        after_named(ps.drop_first(), (n - 1) as nat)
    }
}

/// `ps` without its leading unnamed parts.
pub open spec fn trim_front(ps: Seq<Seq<char>>) -> Seq<Seq<char>>
    decreases ps.len(),
{
    if ps.len() > 0 && skipped(ps[0]) {
        trim_front(ps.drop_first())
    } else {
        ps
    }
}

/// `ps` without its trailing unnamed parts.
pub open spec fn trim_back(ps: Seq<Seq<char>>) -> Seq<Seq<char>>
    decreases ps.len(),
{
    if ps.len() > 0 && skipped(ps.last()) {
        trim_back(ps.drop_last())
    } else {
        ps
    }
}

/// The text of `path` after its first `n` components (as [`path_components`]
/// counts them), as `Components::as_path` gives it: the characters
/// themselves, with repeated separators and `.` parts inside kept, and only
/// the unnamed parts at either end dropped. A relative path that keeps its
/// leading `.` keeps it whole.
pub open spec fn remainder(path: Seq<char>, n: nat) -> Seq<char> {
    let pieces = split_char(path, '/');
    if !has_root(path) && pieces[0] == "."@ {
        if n == 0 {
            crate::text::join(seq!["."@] + trim_back(pieces.drop_first()), "/"@)
        } else {
            crate::text::join(
                trim_back(trim_front(after_named(pieces.drop_first(), (n - 1) as nat))),
                "/"@,
            )
        }
    } else {
        crate::text::join(trim_back(trim_front(after_named(pieces, n))), "/"@)
    }
}

/// `path` relative to `root` (`Path::strip_prefix`, then `display`): when
/// both or neither start at the root and the components of `root` begin
/// those of `path`, the rest of `path` after them, character for character
/// (the root itself gives the empty path); otherwise `path` unchanged.
pub open spec fn relative_path(root: Seq<char>, path: Seq<char>) -> Seq<char> {
    let rc = path_components(root);
    let pc = path_components(path);
    if has_root(root) == has_root(path) && rc.len() <= pc.len() && pc.take(rc.len() as int) == rc {
        remainder(path, rc.len())
    } else {
        path
    }
}

fn named_parts_of(ps: &Vec<Vec<char>>, from: usize) -> (r: Vec<Vec<char>>)
    requires
        from <= ps@.len(),
    ensures
        views(r@) == named_parts(views(ps@).skip(from as int)),
{
    let ghost pv = views(ps@).skip(from as int);
    let mut out: Vec<Vec<char>> = Vec::new();
    let mut k: usize = from;
    let dot: Vec<char> = vec!['.'];
    proof {
        reveal_strlit(".");
    }
    assert(dot@ =~= "."@);
    assert(pv.take(0) =~= Seq::<Seq<char>>::empty());
    while k < ps.len()
        invariant
            from <= k <= ps@.len(),
            pv == views(ps@).skip(from as int),
            dot@ == "."@,
            views(out@) == named_parts(pv.take(k - from)),
        decreases ps@.len() - k,
    {
        let ghost j = k - from;
        assert(pv.take(j + 1).drop_last() =~= pv.take(j));
        assert(pv.take(j + 1).last() == ps@[k as int]@);
        if ps[k].len() > 0 && !chars_eq(ps[k].as_slice(), dot.as_slice()) {
            let ghost before = views(out@);
            let item = crate::text::copy_range(ps[k].as_slice(), 0, ps[k].len());
            assert(item@ =~= ps@[k as int]@);
            out.push(item);
            assert(views(out@) =~= before.push(item@));
        }
        k = k + 1;
    }
    assert(pv.take(k - from) =~= pv);
    out
}

fn components_of(p: &str) -> (r: Vec<Vec<char>>)
    ensures
        views(r@) == path_components(p@),
{
    let c = chars_of(p);
    let pieces = crate::text::split_chars(c.as_slice(), '/');
    let ghost pv = split_char(p@, '/');
    proof {
        crate::text::lemma_split_char_nonempty(p@, '/');
        reveal_strlit(".");
    }
    assert(views(pieces@) =~= pv);
    let rooted = c.len() > 0 && c[0] == '/';
    let dot: Vec<char> = vec!['.'];
    assert(dot@ =~= "."@);
    if !rooted && chars_eq(pieces[0].as_slice(), dot.as_slice()) {
        let rest = named_parts_of(&pieces, 1);
        assert(pv.drop_first() =~= views(pieces@).skip(1));
        let mut out: Vec<Vec<char>> = vec![dot];
        let ghost head = views(out@);
        assert(head =~= seq!["."@]);
        let mut rest = rest;
        out.append(&mut rest);
        assert(views(out@) =~= seq!["."@] + named_parts(pv.drop_first()));
        out
    } else {
        let r = named_parts_of(&pieces, 0);
        assert(views(pieces@).skip(0) =~= pv);
        r
    }
}

fn relative_to(root: &str, path: &str) -> (r: Vec<char>)
    ensures
        r@ == relative_path(root@, path@),
{
    let rc = components_of(root);
    let pc = components_of(path);
    let rchars = chars_of(root);
    let pchars = chars_of(path);
    let rr = rchars.len() > 0 && rchars[0] == '/';
    let pr = pchars.len() > 0 && pchars[0] == '/';
    if rr != pr || rc.len() > pc.len() {
        return pchars;
    }
    let ghost rv = views(rc@);
    let ghost pv = views(pc@);
    let mut i: usize = 0;
    while i < rc.len()
        invariant
            i <= rc@.len() <= pc@.len(),
            rv == views(rc@),
            pv == views(pc@),
            pchars@ == path@,
            rv == path_components(root@),
            pv == path_components(path@),
            forall|j: int| 0 <= j < i ==> rv[j] == pv[j],
        decreases rc@.len() - i,
    {
        if !chars_eq(rc[i].as_slice(), pc[i].as_slice()) {
            assert(pv.take(rv.len() as int)[i as int] != rv[i as int]);
            assert(pv.take(rv.len() as int) != rv);
            return pchars;
        }
        i = i + 1;
    }
    assert(pv.take(rv.len() as int) =~= rv);
    remainder_of(path, rc.len())
}

fn is_skipped(x: &[char]) -> (r: bool)
    ensures
        r == skipped(x@),
{
    proof {
        reveal_strlit(".");
    }
    if x.len() == 0 {
        return true;
    }
    let r = x.len() == 1 && x[0] == '.';
    proof {
        if r {
            assert(x@ =~= "."@);
        } else if x@ == "."@ {
            assert(x@[0] == '.');
        }
    }
    r
}

fn copy_pieces(ps: &Vec<Vec<char>>, lo: usize, hi: usize) -> (r: Vec<Vec<char>>)
    requires
        lo <= hi <= ps@.len(),
    ensures
        views(r@) == views(ps@).subrange(lo as int, hi as int),
{
    let mut out: Vec<Vec<char>> = Vec::new();
    let mut k: usize = lo;
    while k < hi
        invariant
            lo <= k <= hi <= ps@.len(),
            views(out@) == views(ps@).subrange(lo as int, k as int),
        decreases hi - k,
    {
        let ghost before = views(out@);
        let item = crate::text::copy_range(ps[k].as_slice(), 0, ps[k].len());
        assert(item@ =~= ps@[k as int]@);
        out.push(item);
        assert(views(out@) =~= before.push(item@));
        assert(views(out@) =~= views(ps@).subrange(lo as int, k + 1));
        k = k + 1;
    }
    out
}

/// The last index above `lo` that ends the parts `lo..hi` once their trailing
/// unnamed parts are dropped.
fn trimmed_end(ps: &Vec<Vec<char>>, lo: usize) -> (hi: usize)
    requires
        lo <= ps@.len(),
    ensures
        lo <= hi <= ps@.len(),
        trim_back(views(ps@).skip(lo as int)) == views(ps@).subrange(lo as int, hi as int),
{
    let ghost pv = views(ps@);
    let mut hi: usize = ps.len();
    assert(pv.skip(lo as int) =~= pv.subrange(lo as int, hi as int));
    while hi > lo && is_skipped(ps[hi - 1].as_slice())
        invariant
            lo <= hi <= ps@.len(),
            pv == views(ps@),
            trim_back(pv.skip(lo as int)) == trim_back(pv.subrange(lo as int, hi as int)),
        decreases hi,
    {
        assert(pv.subrange(lo as int, hi as int).drop_last() =~= pv.subrange(lo as int, hi - 1));
        assert(pv.subrange(lo as int, hi as int).last() == ps@[hi - 1]@);
        hi = hi - 1;
    }
    hi
}

fn remainder_of(path: &str, n: usize) -> (r: Vec<char>)
    ensures
        r@ == remainder(path@, n as nat),
{
    let c = chars_of(path);
    let pieces = crate::text::split_chars(c.as_slice(), '/');
    let ghost pv = split_char(path@, '/');
    proof {
        crate::text::lemma_split_char_nonempty(path@, '/');
        reveal_strlit(".");
        reveal_strlit("/");
    }
    assert(views(pieces@) =~= pv);
    let rooted = c.len() > 0 && c[0] == '/';
    let dot: Vec<char> = vec!['.'];
    assert(dot@ =~= "."@);
    let slash: Vec<char> = vec!['/'];
    assert(slash@ =~= "/"@);
    let len = pieces.len();
    let lead = !rooted && chars_eq(pieces[0].as_slice(), dot.as_slice());
    assert(pv.skip(1) =~= pv.drop_first());
    assert(pv.skip(0) =~= pv);
    if lead && n == 0 {
        let hi = trimmed_end(&pieces, 1);
        let mut rest = copy_pieces(&pieces, 1, hi);
        let mut parts: Vec<Vec<char>> = vec![dot];
        let ghost head = views(parts@);
        assert(head =~= seq!["."@]);
        parts.append(&mut rest);
        assert(views(parts@) =~= seq!["."@] + trim_back(pv.drop_first()));
        return crate::text::join_chars(&parts, slash.as_slice());
    }
    let start: usize = if lead { 1 } else { 0 };
    let mut m: usize = if lead { n - 1 } else { n };
    let ghost m0 = m as nat;
    let mut i: usize = start;
    while m > 0 && i < len
        invariant
            start <= i <= len,
            len == pv.len(),
            pv == views(pieces@),
            after_named(pv.skip(start as int), m0) == after_named(pv.skip(i as int), m as nat),
        decreases len - i,
    {
        assert(pv.skip(i as int).drop_first() =~= pv.skip(i + 1));
        assert(pv.skip(i as int)[0] == pieces@[i as int]@);
        if !is_skipped(pieces[i].as_slice()) {
            m = m - 1;
        }
        i = i + 1;
    }
    assert(after_named(pv.skip(i as int), m as nat) == pv.skip(i as int));
    while i < len && is_skipped(pieces[i].as_slice())
        invariant
            start <= i <= len,
            len == pv.len(),
            pv == views(pieces@),
            trim_front(after_named(pv.skip(start as int), m0)) == trim_front(pv.skip(i as int)),
        decreases len - i,
    {
        assert(pv.skip(i as int).drop_first() =~= pv.skip(i + 1));
        assert(pv.skip(i as int)[0] == pieces@[i as int]@);
        i = i + 1;
    }
    assert(trim_front(pv.skip(i as int)) == pv.skip(i as int));
    let hi = trimmed_end(&pieces, i);
    let parts = copy_pieces(&pieces, i, hi);
    crate::text::join_chars(&parts, slash.as_slice())
}

/// One presented hit.
pub open spec fn hit_text(root: Seq<char>, h: HitView) -> Seq<char> {
    "\n"@ + relative_path(root, h.path) + ":"@ + decimal(h.line as nat) + " (score "@ + signed_decimal(
        h.score as int,
    ) + ")\n"@ + h.snippet + "\n"@
}

pub open spec fn hits_text(root: Seq<char>, hs: Seq<HitView>) -> Seq<char>
    decreases hs.len(),
{
    if hs.len() == 0 {
        Seq::<char>::empty()
    } else {
        hits_text(root, hs.drop_last()) + hit_text(root, hs.last())
    }
}

/// What `char::is_alphanumeric` says of `c` (Unicode alphabetic or numeric).
pub uninterp spec fn alphanumeric(c: char) -> bool;

/// `char::is_alphanumeric`; on ASCII it means a letter or a digit.
#[verifier::external_body]
fn is_alphanumeric(c: char) -> (r: bool)
    ensures
        r == alphanumeric(c),
        (c as u32) < 128 ==> r == (('a' <= c <= 'z') || ('A' <= c <= 'Z') || ('0' <= c <= '9')),
{
    c.is_alphanumeric()
}

/// Characters that separate query terms.
pub open spec fn term_separator(c: char) -> bool {
    !alphanumeric(c) && c != '_'
}

/// The pieces of `s` between separators (`str::split` on a predicate).
pub open spec fn term_pieces(s: Seq<char>) -> Seq<Seq<char>>
    decreases s.len(),
{
    if s.len() == 0 {
        seq![Seq::<char>::empty()]
    } else {
        let p = term_pieces(s.drop_last());
        if term_separator(s.last()) {
            p.push(Seq::<char>::empty())
        } else {
            p.update(p.len() - 1, p.last().push(s.last()))
        }
    }
}

pub proof fn lemma_term_pieces_nonempty(s: Seq<char>)
    ensures
        term_pieces(s).len() >= 1,
    decreases s.len(),
{
    if s.len() > 0 {
        lemma_term_pieces_nonempty(s.drop_last());
    }
}

/// Pieces longer than two bytes, lower-cased.
pub open spec fn long_terms(ps: Seq<Seq<char>>) -> Seq<Seq<char>>
    decreases ps.len(),
{
    if ps.len() == 0 {
        Seq::<Seq<char>>::empty()
    } else {
        let prev = long_terms(ps.drop_last());
        if utf8_len(ps.last()) > 2 {
            prev.push(unicode_lowercase(ps.last()))
        } else {
            prev
        }
    }
}

/// The terms of a query: its alphanumeric (and `_`) runs longer than two
/// bytes, lower-cased.
pub open spec fn terms_of(query: Seq<char>) -> Seq<Seq<char>> {
    long_terms(term_pieces(query))
}

fn split_terms(s: &[char]) -> (parts: Vec<Vec<char>>)
    ensures
        views(parts@) == term_pieces(s@),
{
    let mut parts: Vec<Vec<char>> = Vec::new();
    let mut cur: Vec<char> = Vec::new();
    let mut k: usize = 0;
    while k < s.len()
        invariant
            k <= s@.len(),
            views(parts@).push(cur@) == term_pieces(s@.take(k as int)),
        decreases s@.len() - k,
    {
        proof {
            lemma_term_pieces_nonempty(s@.take(k as int));
            assert(s@.take(k + 1).drop_last() =~= s@.take(k as int));
        }
        let ghost before = views(parts@);
        let c = s[k];
        if !is_alphanumeric(c) && c != '_' {
            let done = cur;
            parts.push(done);
            cur = Vec::new();
            assert(views(parts@) =~= before.push(done@));
            assert(views(parts@).push(cur@) =~= term_pieces(s@.take(k + 1)));
        } else {
            cur.push(c);
            assert(views(parts@).push(cur@) =~= term_pieces(s@.take(k + 1)));
        }
        k = k + 1;
    }
    assert(s@.take(k as int) =~= s@);
    let ghost before = views(parts@);
    parts.push(cur);
    assert(views(parts@) =~= before.push(cur@));
    parts
}

/// The search terms of a query.
pub fn query_terms(query: &str) -> (r: Vec<String>)
    ensures
        r@.map_values(|t: String| t@) == terms_of(query@),
{
    let pieces = split_terms(chars_of(query).as_slice());
    let ghost ps = views(pieces@);
    let mut out: Vec<String> = Vec::new();
    let mut k: usize = 0;
    while k < pieces.len()
        invariant
            k <= pieces@.len(),
            ps == views(pieces@),
            out@.map_values(|t: String| t@) == long_terms(ps.take(k as int)),
        decreases pieces@.len() - k,
    {
        assert(ps.take(k + 1).drop_last() =~= ps.take(k as int));
        assert(ps[k as int] == pieces@[k as int]@);
        if !utf8_len_at_most(pieces[k].as_slice(), 2) {
            let piece = string_of(pieces[k].as_slice());
            let lowered = to_lowercase(piece.as_str());
            let ghost before = out@.map_values(|t: String| t@);
            let ghost lv = lowered@;
            out.push(lowered);
            assert(out@.map_values(|t: String| t@) =~= before.push(lv));
        }
        k = k + 1;
    }
    assert(ps.take(k as int) =~= ps);
    out
}

/// How many of `terms` occur in `text`.
pub open spec fn terms_in(terms: Seq<Seq<char>>, text: Seq<char>) -> nat
    decreases terms.len(),
{
    if terms.len() == 0 {
        0
    } else {
        terms_in(terms.drop_last(), text) + if contains(text, terms.last()) {
            1nat
        } else {
            0nat
        }
    }
}

fn count_terms(terms: &[String], text: &[char]) -> (r: usize)
    ensures
        r == terms_in(terms@.map_values(|t: String| t@), text@),
        r <= terms@.len(),
{
    let ghost tv = terms@.map_values(|t: String| t@);
    let mut n: usize = 0;
    let mut k: usize = 0;
    while k < terms.len()
        invariant
            k <= terms@.len(),
            tv == terms@.map_values(|t: String| t@),
            n == terms_in(tv.take(k as int), text@),
            n <= k,
        decreases terms@.len() - k,
    {
        assert(tv.take(k + 1).drop_last() =~= tv.take(k as int));
        assert(tv[k as int] == terms@[k as int]@);
        if contains_chars(text, chars_of(terms[k].as_str()).as_slice()) {
            n = n + 1;
        }
        k = k + 1;
    }
    assert(tv.take(k as int) =~= tv);
    n
}

/// A line's snippet: trimmed, at most 240 characters.
pub open spec fn snippet_of(line: Seq<char>) -> Seq<char> {
    let t = trim(line);
    if t.len() <= 240 {
        t
    } else {
        t.take(240)
    }
}

/// The hits of file `path` with `content`: every line holding at least one
/// term, scored by how many terms the line holds plus twice how many the file
/// holds (so files matching more of the query outrank files repeating one
/// term). A file holding none of the terms has no hits.
pub open spec fn hits_in(terms: Seq<Seq<char>>, path: Seq<char>, content: Seq<char>) -> Seq<HitView> {
    let distinct = terms_in(terms, unicode_lowercase(content));
    if distinct == 0 {
        Seq::<HitView>::empty()
    } else {
        line_hits(terms, path, text_lines(content), distinct, text_lines(content).len() as int)
    }
}

pub open spec fn line_hits(
    terms: Seq<Seq<char>>,
    path: Seq<char>,
    lines: Seq<Seq<char>>,
    distinct: nat,
    n: int,
) -> Seq<HitView>
    decreases n,
{
    if n <= 0 {
        Seq::<HitView>::empty()
    } else {
        let prev = line_hits(terms, path, lines, distinct, n - 1);
        let score = terms_in(terms, unicode_lowercase(lines[n - 1]));
        if score > 0 {
            prev.push(
                HitView {
                    path,
                    score: (score + distinct * 2) as i64,
                    line: n as usize,
                    snippet: snippet_of(lines[n - 1]),
                },
            )
        } else {
            prev
        }
    }
}

/// Score the lines of one file against the query's terms.
pub fn file_hits(terms: &[String], path: &str, content: &str) -> (r: Vec<Hit>)
    requires
        3 * terms@.len() <= i64::MAX,
    ensures
        hit_views(r@) == hits_in(terms@.map_values(|t: String| t@), path@, content@),
{
    let ghost tv = terms@.map_values(|t: String| t@);
    let lowered = to_lowercase(content);
    let distinct = count_terms(terms, chars_of(lowered.as_str()).as_slice());
    let mut out: Vec<Hit> = Vec::new();
    if distinct == 0 {
        assert(hit_views(out@) =~= Seq::<HitView>::empty());
        return out;
    }
    let lines = lines_of(content);
    let ghost lv = views(lines@);
    let mut k: usize = 0;
    while k < lines.len()
        invariant
            k <= lines@.len(),
            lv == views(lines@),
            lv == text_lines(content@),
            tv == terms@.map_values(|t: String| t@),
            3 * terms@.len() <= i64::MAX,
            distinct <= terms@.len(),
            distinct == terms_in(tv, unicode_lowercase(content@)),
            hit_views(out@) == line_hits(tv, path@, lv, distinct as nat, k as int),
        decreases lines@.len() - k,
    {
        let line = string_of(lines[k].as_slice());
        let ll = to_lowercase(line.as_str());
        let score = count_terms(terms, chars_of(ll.as_str()).as_slice());
        if score > 0 {
            let t = trim_chars(lines[k].as_slice());
            let snippet = if t.len() <= 240 {
                t
            } else {
                crate::text::copy_range(t.as_slice(), 0, 240)
            };
            let h = Hit {
                path: path.to_owned(),
                score: (score as i64) + (distinct as i64) * 2,
                line: k + 1,
                snippet: string_of(snippet.as_slice()),
            };
            let ghost before = hit_views(out@);
            out.push(h);
            assert(hit_views(out@) =~= before.push(h@));
        }
        k = k + 1;
    }
    out
}

/// The non-empty `/`-separated segments of a path.
pub open spec fn segments(p: Seq<char>) -> Seq<Seq<char>> {
    non_empty(split_char(p, '/'))
}

pub open spec fn non_empty(ps: Seq<Seq<char>>) -> Seq<Seq<char>>
    decreases ps.len(),
{
    if ps.len() == 0 {
        Seq::<Seq<char>>::empty()
    } else {
        let prev = non_empty(ps.drop_last());
        if ps.last().len() > 0 {
            prev.push(ps.last())
        } else {
            prev
        }
    }
}

/// Lexicographic order on segment lists, segments compared by
/// [`lex_less`]: the order of `Path` for canonical paths.
pub open spec fn segments_less(a: Seq<Seq<char>>, b: Seq<Seq<char>>) -> bool
    decreases a.len(),
{
    if a.len() == 0 {
        b.len() > 0
    } else if b.len() == 0 {
        false
    } else if a[0] != b[0] {
        lex_less(a[0], b[0])
    } else {
        segments_less(a.drop_first(), b.drop_first())
    }
}

pub proof fn lemma_segments_irreflexive(a: Seq<Seq<char>>)
    ensures
        !segments_less(a, a),
    decreases a.len(),
{
    if a.len() > 0 {
        lemma_segments_irreflexive(a.drop_first());
    }
}

pub proof fn lemma_segments_transitive(a: Seq<Seq<char>>, b: Seq<Seq<char>>, c: Seq<Seq<char>>)
    requires
        segments_less(a, b),
        segments_less(b, c),
    ensures
        segments_less(a, c),
    decreases a.len(),
{
    if a.len() > 0 && b.len() > 0 && c.len() > 0 {
        if a[0] == b[0] && b[0] == c[0] {
            lemma_segments_transitive(a.drop_first(), b.drop_first(), c.drop_first());
        } else if a[0] == b[0] {
        } else if b[0] == c[0] {
        } else {
            crate::text::lemma_lex_transitive(a[0], b[0], c[0]);
            if a[0] == c[0] {
                crate::text::lemma_lex_irreflexive(a[0]);
                crate::text::lemma_lex_transitive(a[0], b[0], a[0]);
            }
        }
    }
}

/// `a` ranks before `b`: higher score first, then path order, then line.
pub open spec fn ranks_before(a: HitView, b: HitView) -> bool {
    a.score > b.score || (a.score == b.score && (segments_less(segments(a.path), segments(b.path)) || (
    segments(a.path) == segments(b.path) && a.line < b.line)))
}

pub proof fn lemma_ranks_irreflexive(a: HitView)
    ensures
        !ranks_before(a, a),
{
    lemma_segments_irreflexive(segments(a.path));
}

pub proof fn lemma_ranks_transitive(a: HitView, b: HitView, c: HitView)
    requires
        ranks_before(a, b),
        ranks_before(b, c),
    ensures
        ranks_before(a, c),
{
    let (sa, sb, sc) = (segments(a.path), segments(b.path), segments(c.path));
    if a.score == b.score && b.score == c.score {
        if segments_less(sa, sb) && segments_less(sb, sc) {
            lemma_segments_transitive(sa, sb, sc);
        }
    }
}

/// In ranking order: no hit ranks before an earlier one.
pub open spec fn ranked_order(hs: Seq<HitView>) -> bool {
    forall|i: int, j: int| 0 <= i < j < hs.len() ==> !ranks_before(#[trigger] hs[j], #[trigger] hs[i])
}

fn segment_list(p: &str) -> (r: Vec<Vec<char>>)
    ensures
        views(r@) == segments(p@),
{
    let parts = crate::text::split_chars(chars_of(p).as_slice(), '/');
    let ghost pv = split_char(p@, '/');
    let mut out: Vec<Vec<char>> = Vec::new();
    let mut k: usize = 0;
    while k < parts.len()
        invariant
            k <= parts@.len() == pv.len(),
            forall|i: int| 0 <= i < parts@.len() ==> #[trigger] parts@[i]@ == pv[i],
            views(out@) == non_empty(pv.take(k as int)),
        decreases parts@.len() - k,
    {
        assert(pv.take(k + 1).drop_last() =~= pv.take(k as int));
        assert(pv.take(k + 1).last() == parts@[k as int]@);
        if parts[k].len() > 0 {
            let ghost before = views(out@);
            let item = crate::text::copy_range(parts[k].as_slice(), 0, parts[k].len());
            assert(item@ =~= parts@[k as int]@);
            out.push(item);
            assert(views(out@) =~= before.push(item@));
        }
        k = k + 1;
    }
    assert(pv.take(k as int) =~= pv);
    out
}

fn segments_lt(a: &Vec<Vec<char>>, b: &Vec<Vec<char>>) -> (r: bool)
    ensures
        r == segments_less(views(a@), views(b@)),
{
    let ghost av = views(a@);
    let ghost bv = views(b@);
    let mut i: usize = 0;
    assert(av.skip(0) =~= av);
    assert(bv.skip(0) =~= bv);
    while i < a.len() && i < b.len() && chars_eq(a[i].as_slice(), b[i].as_slice())
        invariant
            i <= a@.len(),
            i <= b@.len(),
            av == views(a@),
            bv == views(b@),
            segments_less(av, bv) == segments_less(av.skip(i as int), bv.skip(i as int)),
        decreases a@.len() - i,
    {
        assert(av.skip(i as int).drop_first() =~= av.skip(i + 1));
        assert(bv.skip(i as int).drop_first() =~= bv.skip(i + 1));
        i = i + 1;
    }
    if i == a.len() {
        return i < b.len();
    }
    if i == b.len() {
        return false;
    }
    assert(av.skip(i as int)[0] == av[i as int]);
    assert(bv.skip(i as int)[0] == bv[i as int]);
    crate::text::lex_lt(a[i].as_slice(), b[i].as_slice())
}

fn same_segments(a: &Vec<Vec<char>>, b: &Vec<Vec<char>>) -> (r: bool)
    ensures
        r == (views(a@) == views(b@)),
{
    if a.len() != b.len() {
        assert(views(a@).len() != views(b@).len());
        return false;
    }
    let mut i: usize = 0;
    while i < a.len()
        invariant
            i <= a@.len() == b@.len(),
            forall|k: int| 0 <= k < i ==> views(a@)[k] == views(b@)[k],
        decreases a@.len() - i,
    {
        if !chars_eq(a[i].as_slice(), b[i].as_slice()) {
            assert(views(a@)[i as int] != views(b@)[i as int]);
            return false;
        }
        i = i + 1;
    }
    assert(views(a@) =~= views(b@));
    true
}

fn ranks_before_exec(a: &Hit, b: &Hit) -> (r: bool)
    ensures
        r == ranks_before(a@, b@),
{
    if a.score != b.score {
        return a.score > b.score;
    }
    let sa = segment_list(a.path.as_str());
    let sb = segment_list(b.path.as_str());
    segments_lt(&sa, &sb) || (same_segments(&sa, &sb) && a.line < b.line)
}

fn copy_hit(h: &Hit) -> (r: Hit)
    ensures
        r@ == h@,
{
    Hit { path: h.path.clone(), score: h.score, line: h.line, snippet: h.snippet.clone() }
}

/// `r` is the first `max_hits` of `hits` put in ranking order.
pub open spec fn ranked_top(r: Seq<HitView>, hits: Seq<HitView>, max_hits: nat) -> bool {
    &&& ranked_order(r)
    &&& r.len() == if hits.len() < max_hits {
        hits.len()
    } else {
        max_hits
    }
    &&& exists|all: Seq<HitView>|
        {
            &&& #[trigger] ranked_order(all)
            &&& all.to_multiset() == hits.to_multiset()
            &&& r == all.take(r.len() as int)
        }
}

/// Rank hits — higher score first, then path, then line, equal hits in the
/// order given — and keep the first `max_hits`.
pub fn rank_hits(hits: &[Hit], max_hits: usize) -> (r: Vec<Hit>)
    ensures
        ranked_top(hit_views(r@), hit_views(hits@), max_hits as nat),
{
    let ghost hv = hit_views(hits@);
    let mut out: Vec<Hit> = Vec::new();
    let mut k: usize = 0;
    assert(hit_views(out@) =~= hv.take(0));
    while k < hits.len()
        invariant
            k <= hits@.len(),
            hv == hit_views(hits@),
            out@.len() == k,
            ranked_order(hit_views(out@)),
            hit_views(out@).to_multiset() == hv.take(k as int).to_multiset(),
        decreases hits@.len() - k,
    {
        let x = &hits[k];
        let ghost ov = hit_views(out@);
        let mut p: usize = 0;
        while p < out.len() && !ranks_before_exec(x, &out[p])
            invariant
                p <= out@.len(),
                ov == hit_views(out@),
                forall|i: int| 0 <= i < p ==> !ranks_before(x@, #[trigger] ov[i]),
            decreases out@.len() - p,
        {
            p = p + 1;
        }
        let h = copy_hit(x);
        let ghost oraw = out@;
        out.insert(p, h);
        assert(out@ == oraw.insert(p as int, out@[p as int]));
        assert(hit_views(out@) =~= ov.insert(p as int, x@)) by {
            assert forall|i: int| 0 <= i < hit_views(out@).len() implies #[trigger] hit_views(out@)[i] == ov.insert(p as int, x@)[i] by {
                if i < p {
                    assert(out@[i] == oraw[i]);
                } else if i > p {
                    assert(out@[i] == oraw[i - 1]);
                }
            }
        }
        proof {
            let nv = hit_views(out@);
            vstd::seq_lib::to_multiset_insert(ov, p as int, x@);
            assert(hv.take(k + 1) =~= hv.take(k as int).push(x@));
            vstd::seq_lib::to_multiset_build(hv.take(k as int), x@);
            assert forall|i: int, j: int| 0 <= i < j < nv.len() implies !ranks_before(#[trigger] nv[j], #[trigger] nv[i]) by {
                if j == p {
                    assert(nv[i] == ov[i]);
                } else if i == p {
                    assert(nv[j] == ov[j - 1]);
                    if ranks_before(ov[j - 1], x@) {
                        if p < ov.len() {
                            assert(ranks_before(x@, ov[p as int]));
                            lemma_ranks_transitive(ov[j - 1], x@, ov[p as int]);
                            if j - 1 > p {
                            } else {
                                lemma_ranks_irreflexive(ov[p as int]);
                            }
                        }
                    }
                } else if i < p && j > p {
                    assert(nv[i] == ov[i]);
                    assert(nv[j] == ov[j - 1]);
                } else if i > p {
                    assert(nv[i] == ov[i - 1]);
                    assert(nv[j] == ov[j - 1]);
                } else {
                    assert(nv[i] == ov[i]);
                    assert(nv[j] == ov[j]);
                }
            }
        }
        k = k + 1;
    }
    assert(hv.take(k as int) =~= hv);
    let ghost all = hit_views(out@);
    let keep = if out.len() < max_hits {
        out.len()
    } else {
        max_hits
    };
    let mut r: Vec<Hit> = Vec::new();
    let mut i: usize = 0;
    while i < keep
        invariant
            i <= keep <= out@.len(),
            all == hit_views(out@),
            hit_views(r@) == all.take(i as int),
        decreases keep - i,
    {
        let h = copy_hit(&out[i]);
        let ghost before = hit_views(r@);
        r.push(h);
        assert(hit_views(r@) =~= before.push(h@));
        assert(all[i as int] == out@[i as int]@);
        assert(hit_views(r@) =~= all.take(i + 1));
        i = i + 1;
    }
    assert(ranked_order(all));
    assert(hit_views(r@) == all.take(hit_views(r@).len() as int));
    assert(ranked_order(hit_views(r@))) by {
        assert forall|a: int, b: int| 0 <= a < b < hit_views(r@).len() implies !ranks_before(#[trigger] hit_views(r@)[b], #[trigger] hit_views(r@)[a]) by {
            assert(hit_views(r@)[a] == all[a]);
            assert(hit_views(r@)[b] == all[b]);
        }
    }
    r
}

/// What was read of each indexed file: its text, or nothing when it could
/// not be read as text (binary or unreadable files are passed over).
pub open spec fn read_view(o: Option<String>) -> Option<Seq<char>> {
    match o {
        Some(t) => Some(t@),
        None => None,
    }
}

pub open spec fn read_views(cs: Seq<Option<String>>) -> Seq<Option<Seq<char>>> {
    cs.map_values(|o: Option<String>| read_view(o))
}

/// The hits of the first `n` files, file by file in index order.
pub open spec fn all_hits(
    terms: Seq<Seq<char>>,
    paths: Seq<Seq<char>>,
    contents: Seq<Option<Seq<char>>>,
    n: int,
) -> Seq<HitView>
    decreases n,
{
    if n <= 0 {
        Seq::<HitView>::empty()
    } else {
        all_hits(terms, paths, contents, n - 1) + match contents[n - 1] {
            Some(c) => hits_in(terms, paths[n - 1], c),
            None => Seq::<HitView>::empty(),
        }
    }
}

/// What a search returns: the best `max_hits` of the hits of every readable
/// file.
pub open spec fn search_result(
    query: Seq<char>,
    paths: Seq<Seq<char>>,
    contents: Seq<Option<Seq<char>>>,
    max_hits: nat,
    r: Seq<HitView>,
) -> bool {
    ranked_top(r, all_hits(terms_of(query), paths, contents, paths.len() as int), max_hits)
}

pub proof fn lemma_term_pieces_len(s: Seq<char>)
    ensures
        term_pieces(s).len() <= s.len() + 1,
    decreases s.len(),
{
    if s.len() > 0 {
        lemma_term_pieces_len(s.drop_last());
        lemma_term_pieces_nonempty(s.drop_last());
    }
}

pub proof fn lemma_long_terms_len(ps: Seq<Seq<char>>)
    ensures
        long_terms(ps).len() <= ps.len(),
    decreases ps.len(),
{
    if ps.len() > 0 {
        lemma_long_terms_len(ps.drop_last());
    }
}

impl WorkspaceIndex {
    /// Lexical search: score the lines of each file by how many query terms
    /// they hold, weighted by how many the whole file holds, and return the
    /// best matching lines. `contents[i]` is what was read of the `i`-th
    /// indexed file. Deliberately not semantic: a local lexical hit is exact
    /// and cheap. A query without a term longer than two bytes finds nothing.
    pub fn search(&self, query: &str, max_hits: usize, contents: &[Option<String>]) -> (r: Vec<Hit>)
        requires
            contents@.len() == self.file_paths().len(),
            3 * (query@.len() + 1) <= i64::MAX,
        ensures
            search_result(query@, self.file_paths(), read_views(contents@), max_hits as nat, hit_views(r@)),
    {
        let terms = query_terms(query);
        let ghost tv = terms@.map_values(|t: String| t@);
        proof {
            lemma_term_pieces_len(query@);
            lemma_long_terms_len(term_pieces(query@));
        }
        let ghost paths = self.file_paths();
        let ghost cv = read_views(contents@);
        let mut hits: Vec<Hit> = Vec::new();
        let mut k: usize = 0;
        while k < contents.len()
            invariant
                k <= contents@.len() == self.files@.len(),
                paths == self.file_paths(),
                cv == read_views(contents@),
                tv == terms@.map_values(|t: String| t@),
                tv == terms_of(query@),
                3 * terms@.len() <= i64::MAX,
                hit_views(hits@) == all_hits(tv, paths, cv, k as int),
            decreases contents@.len() - k,
        {
            let ghost before = hit_views(hits@);
            match &contents[k] {
                Some(c) => {
                    let mut found = file_hits(terms.as_slice(), self.files[k].as_str(), c.as_str());
                    let ghost fv = hit_views(found@);
                    hits.append(&mut found);
                    assert(hit_views(hits@) =~= before + fv);
                    assert(paths[k as int] == self.files@[k as int]@);
                    assert(cv[k as int] == Some(c@));
                },
                None => {
                    assert(cv[k as int] == None::<Seq<char>>);
                    assert(hit_views(hits@) =~= before + Seq::<HitView>::empty());
                },
            }
            k = k + 1;
        }
        rank_hits(hits.as_slice(), max_hits)
    }
}

/// Law: a query with no term longer than two bytes finds nothing, whatever
/// the files hold.
pub proof fn law_no_terms_no_hits(
    query: Seq<char>,
    paths: Seq<Seq<char>>,
    contents: Seq<Option<Seq<char>>>,
    n: int,
)
    requires
        terms_of(query).len() == 0,
        n <= contents.len(),
    ensures
        all_hits(terms_of(query), paths, contents, n).len() == 0,
    decreases n,
{
    if n > 0 {
        law_no_terms_no_hits(query, paths, contents, n - 1);
        match contents[n - 1] {
            Some(c) => {
                assert(terms_in(terms_of(query), unicode_lowercase(c)) == 0);
            },
            None => {},
        }
    }
}

} // verus!
