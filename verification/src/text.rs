//! Character-level string helpers shared by the other modules.

use vstd::prelude::*;
use vstd::utf8::encode_utf8;
use vstd::utf8::encode_scalar;

verus! {

/// The characters of `s`, in order.
pub fn chars_of(s: &str) -> (v: Vec<char>)
    ensures
        v@ == s@,
{
    let mut v: Vec<char> = Vec::new();
    for c in it: s.chars()
        invariant
            v@ == it.seq().take(it.index() as int),
            it.seq() == s@,
    {
        v.push(c);
    }
    v
}

/// Appends `c` to `s` (std `String::push`).
#[verifier::external_body]
fn push_char(s: &mut String, c: char)
    ensures
        final(s)@ == old(s)@.push(c),
{
    s.push(c);
}

/// A string holding exactly the characters `v`.
pub fn string_of(v: &[char]) -> (s: String)
    ensures
        s@ == v@,
{
    let mut s = String::new();
    let mut i: usize = 0;
    while i < v.len()
        invariant
            i <= v@.len(),
            s@ == v@.take(i as int),
        decreases v@.len() - i,
    {
        push_char(&mut s, v[i]);
        i = i + 1;
        assert(s@ =~= v@.take(i as int));
    }
    assert(v@.take(v@.len() as int) =~= v@);
    s
}


/// ASCII lower-casing of one character.
pub open spec fn lower_ascii(c: char) -> char {
    if 'A' <= c && c <= 'Z' {
        ((c as u32) + 32) as char
    } else {
        c
    }
}

/// ASCII lower-casing of a whole sequence.
pub open spec fn lower_ascii_seq(s: Seq<char>) -> Seq<char> {
    s.map_values(|c: char| lower_ascii(c))
}

pub fn lower_char(c: char) -> (r: char)
    ensures
        r == lower_ascii(c),
{
    if 'A' <= c && c <= 'Z' {
        let b: u8 = (c as u32) as u8;
        let r = (b + 32) as char;
        r
    } else {
        c
    }
}


/// Unicode `White_Space`, the property `char::is_whitespace` tests.
pub open spec fn is_ws(c: char) -> bool {
    let u = c as u32;
    ||| 0x09 <= u && u <= 0x0D
    ||| u == 0x20
    ||| u == 0x85
    ||| u == 0xA0
    ||| u == 0x1680
    ||| 0x2000 <= u && u <= 0x200A
    ||| u == 0x2028
    ||| u == 0x2029
    ||| u == 0x202F
    ||| u == 0x205F
    ||| u == 0x3000
}

pub fn is_whitespace(c: char) -> (b: bool)
    ensures
        b == is_ws(c),
{
    let u = c as u32;
    (0x09 <= u && u <= 0x0D) || u == 0x20 || u == 0x85 || u == 0xA0 || u == 0x1680 || (0x2000
        <= u && u <= 0x200A) || u == 0x2028 || u == 0x2029 || u == 0x202F || u == 0x205F || u
        == 0x3000
}

/// Number of leading whitespace characters.
pub open spec fn ws_prefix_len(s: Seq<char>) -> nat
    decreases s.len(),
{
    if s.len() > 0 && is_ws(s[0]) {
        1 + ws_prefix_len(s.drop_first())
    } else {
        0
    }
}

/// Number of trailing whitespace characters.
pub open spec fn ws_suffix_len(s: Seq<char>) -> nat
    decreases s.len(),
{
    if s.len() > 0 && is_ws(s.last()) {
        1 + ws_suffix_len(s.drop_last())
    } else {
        0
    }
}

pub open spec fn trim_start(s: Seq<char>) -> Seq<char> {
    s.skip(ws_prefix_len(s) as int)
}

pub open spec fn trim_end(s: Seq<char>) -> Seq<char> {
    s.take(s.len() - ws_suffix_len(s))
}

/// `str::trim`: both ends stripped of Unicode whitespace.
pub open spec fn trim(s: Seq<char>) -> Seq<char> {
    trim_end(trim_start(s))
}

pub proof fn lemma_ws_prefix_len_bound(s: Seq<char>)
    ensures
        ws_prefix_len(s) <= s.len(),
    decreases s.len(),
{
    if s.len() > 0 && is_ws(s[0]) {
        lemma_ws_prefix_len_bound(s.drop_first());
    }
}

pub proof fn lemma_ws_suffix_len_bound(s: Seq<char>)
    ensures
        ws_suffix_len(s) <= s.len(),
    decreases s.len(),
{
    if s.len() > 0 && is_ws(s.last()) {
        lemma_ws_suffix_len_bound(s.drop_last());
    }
}

proof fn lemma_ws_prefix_before(s: Seq<char>, i: int)
    requires
        0 <= i < s.len(),
        !is_ws(s[i]),
    ensures
        ws_prefix_len(s) <= i,
    decreases s.len(),
{
    if s.len() > 0 && is_ws(s[0]) {
        assert(s.drop_first()[i - 1] == s[i]);
        lemma_ws_prefix_before(s.drop_first(), i - 1);
    }
}

proof fn lemma_ws_suffix_after(s: Seq<char>, i: int)
    requires
        0 <= i < s.len(),
        !is_ws(s[i]),
    ensures
        ws_suffix_len(s) <= s.len() - 1 - i,
    decreases s.len(),
{
    if s.len() > 0 && is_ws(s.last()) {
        assert(s.drop_last()[i] == s[i]);
        lemma_ws_suffix_after(s.drop_last(), i);
    }
}

/// Text holding a character that is not whitespace does not trim to nothing.
pub proof fn lemma_trim_nonempty(s: Seq<char>, i: int)
    requires
        0 <= i < s.len(),
        !is_ws(s[i]),
    ensures
        trim(s).len() > 0,
{
    lemma_ws_prefix_before(s, i);
    let t = trim_start(s);
    let j = i - ws_prefix_len(s);
    assert(t[j] == s[i]);
    lemma_ws_suffix_after(t, j);
}

/// Text that starts and ends with a character that is not whitespace is its
/// own trim, also behind one leading space.
pub proof fn lemma_trim_clean(q: Seq<char>)
    requires
        q.len() > 0,
        !is_ws(q[0]),
        !is_ws(q.last()),
    ensures
        trim(q) == q,
        trim(seq![' '] + q) == q,
{
    assert(ws_prefix_len(q) == 0);
    assert(q.skip(0) =~= q);
    assert(ws_suffix_len(q) == 0);
    assert(q.take(q.len() as int) =~= q);
    let sq = seq![' '] + q;
    assert(is_ws(sq[0]));
    assert(sq.drop_first() =~= q);
    assert(ws_prefix_len(sq) == 1);
    assert(sq.skip(1) =~= q);
}

proof fn lemma_ws_prefix_stop(s: Seq<char>)
    requires
        ws_prefix_len(s) < s.len(),
    ensures
        !is_ws(s[ws_prefix_len(s) as int]),
    decreases s.len(),
{
    if is_ws(s[0]) {
        lemma_ws_prefix_stop(s.drop_first());
    }
}

proof fn lemma_ws_suffix_stop(s: Seq<char>)
    requires
        ws_suffix_len(s) < s.len(),
    ensures
        !is_ws(s[s.len() - 1 - ws_suffix_len(s)]),
    decreases s.len(),
{
    if is_ws(s.last()) {
        lemma_ws_suffix_stop(s.drop_last());
    }
}

/// A trimmed text is a stretch of the text that, unless empty, starts and
/// ends with a character that is not whitespace.
pub proof fn lemma_trim_ends(s: Seq<char>)
    ensures
        exists|a: int| 0 <= a && a + trim(s).len() <= s.len() && trim(s) == #[trigger] s.subrange(a, a + trim(s).len()),
        trim(s).len() > 0 ==> !is_ws(trim(s)[0]) && !is_ws(trim(s).last()),
{
    lemma_ws_prefix_len_bound(s);
    let w = ws_prefix_len(s) as int;
    let t = trim_start(s);
    lemma_ws_suffix_len_bound(t);
    let u = trim(s);
    assert(u =~= s.subrange(w, w + u.len()));
    if u.len() > 0 {
        lemma_ws_prefix_stop(s);
        lemma_ws_suffix_stop(t);
        assert(u[0] == s[w]);
        assert(u.last() == t[t.len() - 1 - ws_suffix_len(t)]);
    }
}

/// No piece of a split holds the separator.
pub proof fn lemma_split_pieces_no_sep(s: Seq<char>, sep: char)
    ensures
        forall|i: int, j: int|
            0 <= i < split_char(s, sep).len() && 0 <= j < split_char(s, sep)[i].len()
                ==> #[trigger] split_char(s, sep)[i][j] != sep,
    decreases s.len(),
{
    if s.len() > 0 {
        lemma_split_pieces_no_sep(s.drop_last(), sep);
        lemma_split_char_nonempty(s.drop_last(), sep);
        let p = split_char(s.drop_last(), sep);
        let q = split_char(s, sep);
        assert forall|i: int, j: int| 0 <= i < q.len() && 0 <= j < q[i].len() implies #[trigger] q[i][j]
            != sep by {
            if i < p.len() - 1 {
                assert(q[i] == p[i]);
            } else if i == p.len() - 1 {
                if s.last() != sep {
                    assert(q[i] == p[i].push(s.last()));
                    if j < p[i].len() {
                        assert(q[i][j] == p[i][j]);
                    }
                } else {
                    assert(q[i] == p[i]);
                }
            } else {
                assert(q[i] == Seq::<char>::empty());
            }
        }
    }
}

/// A join holds a character only where a piece or the separator does.
pub proof fn lemma_join_without(parts: Seq<Seq<char>>, sep: Seq<char>, c: char)
    requires
        forall|i: int, j: int| 0 <= i < parts.len() && 0 <= j < parts[i].len() ==> #[trigger] parts[i][j] != c,
        forall|j: int| 0 <= j < sep.len() ==> #[trigger] sep[j] != c,
    ensures
        forall|j: int| 0 <= j < join(parts, sep).len() ==> #[trigger] join(parts, sep)[j] != c,
    decreases parts.len(),
{
    if parts.len() > 1 {
        let pre = parts.drop_last();
        assert forall|i: int, j: int| 0 <= i < pre.len() && 0 <= j < pre[i].len() implies #[trigger] pre[i][j] != c by {
            assert(pre[i] == parts[i]);
        }
        lemma_join_without(pre, sep, c);
        let a = join(pre, sep);
        let x = join(parts, sep);
        assert forall|j: int| 0 <= j < x.len() implies #[trigger] x[j] != c by {
            if j < a.len() {
                assert(x[j] == a[j]);
            } else if j < a.len() + sep.len() {
                assert(x[j] == sep[j - a.len()]);
            } else {
                assert(x[j] == parts.last()[j - a.len() - sep.len()]);
            }
        }
    } else if parts.len() == 1 {
        assert(join(parts, sep) == parts[0]);
    }
}

/// A join of non-empty pieces ends with the last piece's last character.
pub proof fn lemma_join_last(parts: Seq<Seq<char>>, sep: Seq<char>)
    requires
        parts.len() > 0,
        parts.last().len() > 0,
    ensures
        join(parts, sep).len() > 0,
        join(parts, sep).last() == parts.last().last(),
{
}

/// Bounds `(a, b)` such that `s[a..b]` is `s` trimmed.
pub fn trim_bounds(s: &[char]) -> (r: (usize, usize))
    ensures
        r.0 <= r.1 <= s@.len(),
        s@.subrange(r.0 as int, r.1 as int) == trim(s@),
{
    let n = s.len();
    let mut i: usize = 0;
    assert(s@.skip(0) =~= s@);
    while i < n && is_whitespace(s[i])
        invariant
            i <= n == s@.len(),
            ws_prefix_len(s@) == i + ws_prefix_len(s@.skip(i as int)),
        decreases n - i,
    {
        assert(s@.skip(i as int).drop_first() =~= s@.skip(i + 1));
        i = i + 1;
    }
    assert(ws_prefix_len(s@.skip(i as int)) == 0);
    let mut j: usize = n;
    while j > i && is_whitespace(s[j - 1])
        invariant
            i <= j <= n == s@.len(),
            ws_prefix_len(s@) == i,
            ws_suffix_len(s@.skip(i as int)) == (n - j) + ws_suffix_len(s@.subrange(i as int, j as int)),
        decreases j - i,
    {
        assert(s@.subrange(i as int, j as int).drop_last() =~= s@.subrange(i as int, j - 1));
        j = j - 1;
    }
    assert(ws_suffix_len(s@.subrange(i as int, j as int)) == 0);
    assert(s@.skip(i as int).take(j - i) =~= s@.subrange(i as int, j as int));
    (i, j)
}

/// A copy of `s[a..b]`.
pub fn copy_range(s: &[char], a: usize, b: usize) -> (v: Vec<char>)
    requires
        a <= b <= s@.len(),
    ensures
        v@ == s@.subrange(a as int, b as int),
{
    let mut v: Vec<char> = Vec::new();
    let mut k = a;
    while k < b
        invariant
            a <= k <= b <= s@.len(),
            v@ == s@.subrange(a as int, k as int),
        decreases b - k,
    {
        v.push(s[k]);
        k = k + 1;
        assert(v@ =~= s@.subrange(a as int, k as int));
    }
    v
}

/// `s` with surrounding whitespace removed.
pub fn trim_chars(s: &[char]) -> (v: Vec<char>)
    ensures
        v@ == trim(s@),
{
    let (a, b) = trim_bounds(s);
    copy_range(s, a, b)
}

/// ASCII lower-casing of a character sequence.
pub fn lower_chars(s: &[char]) -> (v: Vec<char>)
    ensures
        v@ == lower_ascii_seq(s@),
{
    let mut v: Vec<char> = Vec::new();
    let mut k: usize = 0;
    while k < s.len()
        invariant
            k <= s@.len(),
            v@ == lower_ascii_seq(s@.take(k as int)),
        decreases s@.len() - k,
    {
        let c = lower_char(s[k]);
        v.push(c);
        k = k + 1;
        assert(v@ =~= lower_ascii_seq(s@.take(k as int)));
    }
    assert(s@.take(s@.len() as int) =~= s@);
    v
}

/// Element-wise equality of two character slices.
pub fn chars_eq(a: &[char], b: &[char]) -> (r: bool)
    ensures
        r == (a@ == b@),
{
    if a.len() != b.len() {
        return false;
    }
    let mut k: usize = 0;
    while k < a.len()
        invariant
            k <= a@.len() == b@.len(),
            a@.take(k as int) == b@.take(k as int),
        decreases a@.len() - k,
    {
        if a[k] != b[k] {
            assert(a@.take(k + 1)[k as int] != b@.take(k + 1)[k as int]);
            return false;
        }
        k = k + 1;
        assert(a@.take(k as int) =~= b@.take(k as int));
    }
    assert(a@ =~= a@.take(k as int));
    assert(b@ =~= b@.take(k as int));
    true
}

/// `s` spells exactly the literal `lit`.
pub fn eq_str(s: &[char], lit: &str) -> (r: bool)
    ensures
        r == (s@ == lit@),
{
    let l = chars_of(lit);
    chars_eq(s, l.as_slice())
}

/// `pat` occurs in `s` starting at index `i`.
pub open spec fn occurs_at(s: Seq<char>, pat: Seq<char>, i: int) -> bool {
    0 <= i && i + pat.len() <= s.len() && s.subrange(i, i + pat.len()) == pat
}

/// The first index at or after `from` where `pat` occurs in `s`.
pub open spec fn find_from(s: Seq<char>, pat: Seq<char>, from: int) -> Option<int>
    decreases s.len() + 1 - from,
{
    if from < 0 || from + pat.len() > s.len() {
        None
    } else if occurs_at(s, pat, from) {
        Some(from)
    } else {
        find_from(s, pat, from + 1)
    }
}

/// `str::find`: the first occurrence of `pat` in `s`.
pub open spec fn find(s: Seq<char>, pat: Seq<char>) -> Option<int> {
    find_from(s, pat, 0)
}

/// `str::contains`.
pub open spec fn contains(s: Seq<char>, pat: Seq<char>) -> bool {
    find(s, pat) is Some
}

/// `str::starts_with`.
pub open spec fn starts_with(s: Seq<char>, pat: Seq<char>) -> bool {
    occurs_at(s, pat, 0)
}

/// What `find_from` returns: the first occurrence at or after `from`, or none.
pub proof fn lemma_find_from(s: Seq<char>, pat: Seq<char>, from: int)
    requires
        0 <= from,
    ensures
        match find_from(s, pat, from) {
            Some(i) => from <= i && occurs_at(s, pat, i) && forall|j: int|
                from <= j < i ==> !occurs_at(s, pat, j),
            None => forall|j: int| from <= j ==> !occurs_at(s, pat, j),
        },
    decreases s.len() + 1 - from,
{
    if from + pat.len() > s.len() {
    } else if occurs_at(s, pat, from) {
    } else {
        lemma_find_from(s, pat, from + 1);
    }
}

/// An occurrence anywhere means `s` contains `pat`.
pub proof fn lemma_contains_at(s: Seq<char>, pat: Seq<char>, i: int)
    requires
        occurs_at(s, pat, i),
    ensures
        contains(s, pat),
{
    lemma_find_from(s, pat, 0);
}

/// What `s` contains, `s` followed by anything contains too.
pub proof fn lemma_contains_extend(s: Seq<char>, tail: Seq<char>, pat: Seq<char>)
    requires
        contains(s, pat),
    ensures
        contains(s + tail, pat),
{
    lemma_find_from(s, pat, 0);
    let i = find(s, pat)->0;
    assert((s + tail).subrange(i, i + pat.len()) =~= s.subrange(i, i + pat.len()));
    lemma_contains_at(s + tail, pat, i);
}

/// What `s` contains, anything followed by `s` contains too.
pub proof fn lemma_contains_suffix(head: Seq<char>, s: Seq<char>, pat: Seq<char>)
    requires
        contains(s, pat),
    ensures
        contains(head + s, pat),
{
    lemma_find_from(s, pat, 0);
    let i = find(s, pat)->0;
    let j = head.len() + i;
    assert((head + s).subrange(j, j + pat.len()) =~= s.subrange(i, i + pat.len()));
    lemma_contains_at(head + s, pat, j);
}

/// Every string contains itself.
pub proof fn lemma_contains_self(s: Seq<char>)
    ensures
        contains(s, s),
{
    assert(s.subrange(0, s.len() as int) =~= s);
    lemma_contains_at(s, s, 0);
}

/// A joined list contains each of its pieces.
pub proof fn lemma_join_contains(parts: Seq<Seq<char>>, sep: Seq<char>, k: int)
    requires
        0 <= k < parts.len(),
    ensures
        contains(join(parts, sep), parts[k]),
    decreases parts.len(),
{
    if parts.len() == 1 {
        lemma_contains_self(parts[0]);
    } else if k == parts.len() - 1 {
        lemma_contains_self(parts.last());
        lemma_contains_suffix(join(parts.drop_last(), sep) + sep, parts.last(), parts[k]);
    } else {
        lemma_join_contains(parts.drop_last(), sep, k);
        assert(parts.drop_last()[k] == parts[k]);
        lemma_contains_extend(join(parts.drop_last(), sep), sep + parts.last(), parts[k]);
        assert(join(parts.drop_last(), sep) + (sep + parts.last()) =~= join(parts, sep));
    }
}

pub fn matches_at(s: &[char], pat: &[char], i: usize) -> (r: bool)
    ensures
        r == occurs_at(s@, pat@, i as int),
{
    if i > s.len() || pat.len() > s.len() - i {
        return false;
    }
    let mut k: usize = 0;
    while k < pat.len()
        invariant
            i + pat@.len() <= s@.len(),
            s@.len() == s.len(),
            pat@.len() == pat.len(),
            k <= pat@.len(),
            forall|m: int| 0 <= m < k ==> s@[i + m] == pat@[m],
        decreases pat@.len() - k,
    {
        if s[i + k] != pat[k] {
            assert(s@.subrange(i as int, i + pat@.len())[k as int] != pat@[k as int]);
            return false;
        }
        k = k + 1;
    }
    assert(s@.subrange(i as int, i + pat@.len()) =~= pat@);
    true
}

/// The first index at or after `from` where `pat` occurs.
pub fn find_chars_from(s: &[char], pat: &[char], from: usize) -> (r: Option<usize>)
    ensures
        r matches Some(i) ==> find_from(s@, pat@, from as int) == Some(i as int),
        r is None ==> find_from(s@, pat@, from as int) is None,
{
    let mut i = from;
    if i > s.len() || pat.len() > s.len() - i {
        return None;
    }
    let last = s.len() - pat.len();
    loop
        invariant
            from <= i <= last,
            last + pat@.len() == s@.len(),
            find_from(s@, pat@, from as int) == find_from(s@, pat@, i as int),
        decreases last - i,
    {
        if matches_at(s, pat, i) {
            return Some(i);
        }
        if i == last {
            assert(find_from(s@, pat@, i + 1) is None);
            return None;
        }
        i = i + 1;
    }
}

pub fn find_chars(s: &[char], pat: &[char]) -> (r: Option<usize>)
    ensures
        r matches Some(i) ==> find(s@, pat@) == Some(i as int),
        r is None ==> find(s@, pat@) is None,
{
    find_chars_from(s, pat, 0)
}

pub fn contains_chars(s: &[char], pat: &[char]) -> (r: bool)
    ensures
        r == contains(s@, pat@),
{
    find_chars(s, pat).is_some()
}

pub fn starts_with_chars(s: &[char], pat: &[char]) -> (r: bool)
    ensures
        r == starts_with(s@, pat@),
{
    matches_at(s, pat, 0)
}

/// `str::split` on one separator character.
pub open spec fn split_char(s: Seq<char>, sep: char) -> Seq<Seq<char>>
    decreases s.len(),
{
    if s.len() == 0 {
        seq![Seq::<char>::empty()]
    } else {
        let p = split_char(s.drop_last(), sep);
        if s.last() == sep {
            p.push(Seq::<char>::empty())
        } else {
            p.update(p.len() - 1, p.last().push(s.last()))
        }
    }
}

pub proof fn lemma_split_char_nonempty(s: Seq<char>, sep: char)
    ensures
        split_char(s, sep).len() >= 1,
    decreases s.len(),
{
    if s.len() > 0 {
        lemma_split_char_nonempty(s.drop_last(), sep);
    }
}

/// The pieces of `s` between occurrences of `sep`.
pub fn split_chars(s: &[char], sep: char) -> (parts: Vec<Vec<char>>)
    ensures
        parts@.len() == split_char(s@, sep).len(),
        forall|i: int| 0 <= i < parts@.len() ==> #[trigger] parts@[i]@ == split_char(s@, sep)[i],
{
    let mut parts: Vec<Vec<char>> = Vec::new();
    let mut cur: Vec<char> = Vec::new();
    let mut k: usize = 0;
    while k < s.len()
        invariant
            k <= s@.len(),
            parts@.len() + 1 == split_char(s@.take(k as int), sep).len(),
            forall|i: int| 0 <= i < parts@.len() ==> #[trigger] parts@[i]@ == split_char(s@.take(k as int), sep)[i],
            cur@ == split_char(s@.take(k as int), sep).last(),
        decreases s@.len() - k,
    {
        proof {
            lemma_split_char_nonempty(s@.take(k as int), sep);
            assert(s@.take(k + 1).drop_last() =~= s@.take(k as int));
        }
        if s[k] == sep {
            let done = cur;
            parts.push(done);
            cur = Vec::new();
        } else {
            cur.push(s[k]);
        }
        k = k + 1;
    }
    proof {
        lemma_split_char_nonempty(s@, sep);
        assert(s@.take(k as int) =~= s@);
    }
    parts.push(cur);
    parts
}

/// Pieces joined with `sep` between consecutive ones (`[..].join(sep)`).
pub open spec fn join(parts: Seq<Seq<char>>, sep: Seq<char>) -> Seq<char>
    decreases parts.len(),
{
    if parts.len() == 0 {
        Seq::<char>::empty()
    } else if parts.len() == 1 {
        parts[0]
    } else {
        join(parts.drop_last(), sep) + sep + parts.last()
    }
}

pub fn join_chars(parts: &Vec<Vec<char>>, sep: &[char]) -> (r: Vec<char>)
    ensures
        r@ == join(parts@.map_values(|p: Vec<char>| p@), sep@),
{
    let ghost views = parts@.map_values(|p: Vec<char>| p@);
    let mut r: Vec<char> = Vec::new();
    let mut k: usize = 0;
    while k < parts.len()
        invariant
            k <= parts@.len(),
            views == parts@.map_values(|p: Vec<char>| p@),
            r@ == join(views.take(k as int), sep@),
        decreases parts@.len() - k,
    {
        assert(views.take(k + 1).drop_last() =~= views.take(k as int));
        if k > 0 {
            append_chars(&mut r, sep);
        }
        append_chars(&mut r, parts[k].as_slice());
        k = k + 1;
        assert(r@ =~= join(views.take(k as int), sep@));
    }
    assert(views.take(k as int) =~= views);
    r
}

/// The character sequences held by a vector of character vectors.
pub open spec fn views(v: Seq<Vec<char>>) -> Seq<Seq<char>> {
    v.map_values(|p: Vec<char>| p@)
}

/// `s` is one of `options`.
pub fn one_of(s: &[char], options: &Vec<Vec<char>>) -> (r: bool)
    ensures
        r == views(options@).contains(s@),
{
    let ghost vs = views(options@);
    let mut k: usize = 0;
    while k < options.len()
        invariant
            k <= options@.len(),
            vs == views(options@),
            forall|i: int| 0 <= i < k ==> vs[i] != s@,
        decreases options@.len() - k,
    {
        if chars_eq(options[k].as_slice(), s) {
            assert(vs[k as int] == s@);
            return true;
        }
        k = k + 1;
    }
    false
}

/// Appends all of `tail` to `v`.
pub fn append_chars(v: &mut Vec<char>, tail: &[char])
    ensures
        final(v)@ == old(v)@ + tail@,
{
    let mut k: usize = 0;
    while k < tail.len()
        invariant
            k <= tail@.len(),
            v@ == old(v)@ + tail@.take(k as int),
        decreases tail@.len() - k,
    {
        v.push(tail[k]);
        k = k + 1;
        assert(v@ =~= old(v)@ + tail@.take(k as int));
    }
    assert(tail@.take(k as int) =~= tail@);
}


/// The ASCII digit for `d < 10`.
pub open spec fn digit_char(d: nat) -> char {
    ((d + 48) as u32) as char
}

/// Decimal representation of `n`, as `n.to_string()` writes it.
pub open spec fn decimal(n: nat) -> Seq<char>
    decreases n,
{
    if n < 10 {
        seq![digit_char(n)]
    } else {
        decimal(n / 10).push(digit_char(n % 10))
    }
}

/// Decimal digits of `n`.
pub fn decimal_u64(n: u64) -> (v: Vec<char>)
    ensures
        v@ == decimal(n as nat),
    decreases n,
{
    let d: u8 = (n % 10) as u8;
    let c = (d + 48) as char;
    if n < 10 {
        let mut v: Vec<char> = Vec::new();
        v.push(c);
        assert(v@ =~= seq![digit_char(n as nat)]);
        v
    } else {
        let mut v = decimal_u64(n / 10);
        v.push(c);
        v
    }
}

/// `n.to_string()` for a `u64`.
pub fn u64_to_string(n: u64) -> (s: String)
    ensures
        s@ == decimal(n as nat),
{
    let v = decimal_u64(n);
    string_of(v.as_slice())
}

/// Decimal representation of a signed integer, `-` first when negative.
pub open spec fn signed_decimal(n: int) -> Seq<char> {
    if n < 0 {
        seq!['-'] + decimal((-n) as nat)
    } else {
        decimal(n as nat)
    }
}

/// Decimal digits of `n`, with a leading `-` when negative.
pub fn decimal_i64(n: i64) -> (v: Vec<char>)
    ensures
        v@ == signed_decimal(n as int),
{
    if n < 0 {
        let m: u64 = ((-(n + 1)) as u64) + 1;
        let mut v: Vec<char> = vec!['-'];
        let digits = decimal_u64(m);
        append_chars(&mut v, digits.as_slice());
        assert(v@ =~= seq!['-'] + decimal((-n) as nat));
        v
    } else {
        decimal_u64(n as u64)
    }
}

/// `s` with every non-overlapping occurrence of `pat` (left to right)
/// replaced by `with` (`str::replace`, for a non-empty pattern).
pub open spec fn replace_all(s: Seq<char>, pat: Seq<char>, with: Seq<char>) -> Seq<char>
    decreases s.len(),
{
    if pat.len() == 0 {
        s
    } else {
        match find(s, pat) {
            Some(i) => if 0 <= i && i + pat.len() <= s.len() {
                s.take(i) + with + replace_all(s.skip(i + pat.len()), pat, with)
            } else {
                s
            },
            None => s,
        }
    }
}

/// `str::replace` for a non-empty pattern.
pub fn replace_chars(s: &[char], pat: &[char], with: &[char]) -> (r: Vec<char>)
    requires
        pat@.len() > 0,
    ensures
        r@ == replace_all(s@, pat@, with@),
{
    let mut out: Vec<char> = Vec::new();
    let mut rest = copy_range(s, 0, s.len());
    assert(rest@ =~= s@);
    loop
        invariant
            pat@.len() > 0,
            out@ + replace_all(rest@, pat@, with@) == replace_all(s@, pat@, with@),
        decreases rest@.len(),
    {
        match find_chars(rest.as_slice(), pat) {
            Some(i) => {
                proof {
                    lemma_find_from(rest@, pat@, 0);
                    assert(occurs_at(rest@, pat@, i as int));
                    assert(rest@.len() == rest.len());
                    assert(pat@.len() == pat.len());
                }
                let head = copy_range(rest.as_slice(), 0, i);
                append_chars(&mut out, head.as_slice());
                append_chars(&mut out, with);
                let tail = copy_range(rest.as_slice(), i + pat.len(), rest.len());
                assert(tail@ =~= rest@.skip(i + pat@.len()));
                assert(head@ =~= rest@.take(i as int));
                rest = tail;
                assert(out@ + replace_all(rest@, pat@, with@) =~= replace_all(s@, pat@, with@));
            },
            None => {
                append_chars(&mut out, rest.as_slice());
                return out;
            },
        }
    }
}

pub open spec fn is_digit(c: char) -> bool {
    '0' <= c && c <= '9'
}

pub open spec fn digit_value(c: char) -> nat {
    ((c as u32) - 48) as nat
}

pub open spec fn all_digits(s: Seq<char>) -> bool {
    forall|i: int| 0 <= i < s.len() ==> is_digit(#[trigger] s[i])
}

/// The number a run of decimal digits spells.
pub open spec fn digits_value(s: Seq<char>) -> nat
    decreases s.len(),
{
    if s.len() == 0 {
        0
    } else {
        digits_value(s.drop_last()) * 10 + digit_value(s.last())
    }
}

/// `usize::from_str`: an optional `+`, then one or more ASCII digits whose
/// value fits in a `usize`.
pub open spec fn parse_usize(s: Seq<char>) -> Option<usize> {
    let body = if s.len() > 0 && s[0] == '+' {
        s.drop_first()
    } else {
        s
    };
    if body.len() > 0 && all_digits(body) && digits_value(body) <= usize::MAX {
        Some(digits_value(body) as usize)
    } else {
        None
    }
}

/// A longer run of digits never spells a smaller number.
pub proof fn lemma_digits_value_prefix(s: Seq<char>, k: int)
    requires
        0 <= k <= s.len(),
        all_digits(s),
    ensures
        digits_value(s.take(k)) <= digits_value(s),
    decreases s.len(),
{
    if k == s.len() {
        assert(s.take(k) =~= s);
    } else {
        assert(s.drop_last().take(k) =~= s.take(k));
        lemma_digits_value_prefix(s.drop_last(), k);
    }
}

/// Parses `s` as `usize::from_str` does.
pub fn parse_usize_chars(s: &[char]) -> (r: Option<usize>)
    ensures
        r == parse_usize(s@),
{
    let start: usize = if s.len() > 0 && s[0] == '+' {
        1
    } else {
        0
    };
    let ghost body = s@.skip(start as int);
    assert(body =~= (if s@.len() > 0 && s@[0] == '+' {
        s@.drop_first()
    } else {
        s@
    }));
    if start >= s.len() {
        return None;
    }
    let mut acc: usize = 0;
    let mut k: usize = start;
    while k < s.len()
        invariant
            start <= k <= s@.len(),
            body == s@.skip(start as int),
            body == (if s@.len() > 0 && s@[0] == '+' {
                s@.drop_first()
            } else {
                s@
            }),
            all_digits(body.take(k - start)),
            acc as nat == digits_value(body.take(k - start)),
        decreases s@.len() - k,
    {
        let c = s[k];
        if !('0' <= c && c <= '9') {
            assert(body[k - start] == c);
            assert(!is_digit(body[(k - start) as int]));
            return None;
        }
        assert(body.take(k - start + 1).drop_last() =~= body.take(k - start));
        assert(body.take(k - start + 1).last() == c);
        assert(all_digits(body.take(k - start + 1)));
        let d: usize = ((c as u32) - 48) as usize;
        match acc.checked_mul(10) {
            Some(m) => match m.checked_add(d) {
                Some(a) => {
                    acc = a;
                },
                None => {
                    proof {
                        assert(digits_value(body.take(k - start + 1)) > usize::MAX);
                        lemma_parse_overflow(body, k - start + 1);
                    }
                    return None;
                },
            },
            None => {
                proof {
                    assert(digits_value(body.take(k - start + 1)) > usize::MAX) by (nonlinear_arith)
                        requires
                            acc * 10 > usize::MAX,
                            digits_value(body.take(k - start + 1)) == acc * 10 + digit_value(c),
                    ;
                    lemma_parse_overflow(body, k - start + 1);
                }
                return None;
            },
        }
        k = k + 1;
    }
    assert(body.take(k - start) =~= body);
    Some(acc)
}

proof fn lemma_parse_overflow(body: Seq<char>, k: int)
    requires
        0 <= k <= body.len(),
        digits_value(body.take(k)) > usize::MAX,
        all_digits(body.take(k)),
    ensures
        !(all_digits(body) && digits_value(body) <= usize::MAX),
{
    if all_digits(body) {
        lemma_digits_value_prefix(body, k);
    }
}

/// Bytes in the UTF-8 encoding of a character sequence (`str::len`).
pub open spec fn utf8_len(s: Seq<char>) -> nat {
    encode_utf8(s).len()
}

/// `char::len_utf8`.
pub fn char_utf8_len(c: char) -> (n: usize)
    ensures
        n == encode_scalar(c as u32).len(),
        1 <= n <= 4,
{
    let u = c as u32;
    if u <= 0x7F {
        1
    } else if u <= 0x7FF {
        2
    } else if u <= 0xFFFF {
        proof {
            vstd::utf8::char_is_scalar(c);
        }
        3
    } else {
        4
    }
}

pub proof fn lemma_utf8_len_push(s: Seq<char>, c: char)
    ensures
        utf8_len(s.push(c)) == utf8_len(s) + encode_scalar(c as u32).len(),
    decreases s.len(),
{
    lemma_encode_utf8_push(s, c);
}

pub proof fn lemma_encode_utf8_push(s: Seq<char>, c: char)
    ensures
        encode_utf8(s.push(c)) == encode_utf8(s) + encode_scalar(c as u32),
    decreases s.len(),
{
    if s.len() == 0 {
        assert(s.push(c).drop_first() =~= Seq::<char>::empty());
        assert(encode_utf8(Seq::<char>::empty()) =~= Seq::<u8>::empty());
        assert(encode_utf8(s.push(c)) =~= encode_scalar(c as u32));
    } else {
        assert(s.push(c).drop_first() =~= s.drop_first().push(c));
        lemma_encode_utf8_push(s.drop_first(), c);
        assert(encode_utf8(s.push(c)) =~= encode_utf8(s) + encode_scalar(c as u32));
    }
}

pub proof fn lemma_encode_utf8_concat(a: Seq<char>, b: Seq<char>)
    ensures
        encode_utf8(a + b) == encode_utf8(a) + encode_utf8(b),
    decreases b.len(),
{
    if b.len() == 0 {
        assert(a + b =~= a);
        assert(encode_utf8(b) =~= Seq::<u8>::empty());
        assert(encode_utf8(a) + encode_utf8(b) =~= encode_utf8(a));
    } else {
        assert(a + b =~= (a + b.drop_last()).push(b.last()));
        assert(b =~= b.drop_last().push(b.last()));
        lemma_encode_utf8_concat(a, b.drop_last());
        lemma_encode_utf8_push(a + b.drop_last(), b.last());
        lemma_encode_utf8_push(b.drop_last(), b.last());
        assert(encode_utf8(a + b) =~= encode_utf8(a) + encode_utf8(b));
    }
}


/// What `str::to_lowercase` makes of `s`: the Unicode lowercase mapping (a
/// character may map to several, and a capital sigma maps by its context).
pub uninterp spec fn unicode_lowercase(s: Seq<char>) -> Seq<char>;

/// `str::to_lowercase`. On ASCII text it is ASCII lower-casing.
#[verifier::external_body]
pub(crate) fn to_lowercase(s: &str) -> (r: String)
    ensures
        r@ == unicode_lowercase(s@),
        vstd::utf8::is_ascii_chars(s@) ==> r@ == lower_ascii_seq(s@),
{
    s.to_lowercase()
}

/// What `format!("{:?}", s)` writes for a string: quoted, with escapes.
pub uninterp spec fn debug_str(s: Seq<char>) -> Seq<char>;

/// `<str as Debug>::fmt`, through `format!`.
#[verifier::external_body]
pub(crate) fn debug_quote(s: &str) -> (r: String)
    ensures
        r@ == debug_str(s@),
{
    format!("{s:?}")
}

/// The `Debug` rendering of a character sequence.
pub fn debug_chars(s: &[char]) -> (v: Vec<char>)
    ensures
        v@ == debug_str(s@),
{
    let owned = string_of(s);
    let q = debug_quote(owned.as_str());
    chars_of(q.as_str())
}


/// Splitting a sequence without the separator yields it whole.
pub proof fn lemma_split_no_sep(b: Seq<char>, sep: char)
    requires
        forall|i: int| 0 <= i < b.len() ==> b[i] != sep,
    ensures
        split_char(b, sep) == seq![b],
    decreases b.len(),
{
    if b.len() > 0 {
        lemma_split_no_sep(b.drop_last(), sep);
        assert(b.drop_last().push(b.last()) =~= b);
        assert(split_char(b, sep) =~= seq![b]);
    } else {
        assert(b =~= Seq::<char>::empty());
    }
}

/// Splitting at a separator concatenates the splits of both sides.
pub proof fn lemma_split_concat(a: Seq<char>, b: Seq<char>, sep: char)
    ensures
        split_char(a.push(sep) + b, sep) == split_char(a, sep) + split_char(b, sep),
    decreases b.len(),
{
    let x = a.push(sep) + b;
    if b.len() == 0 {
        assert(x =~= a.push(sep));
        assert(x.drop_last() =~= a);
        assert(split_char(b, sep) =~= seq![Seq::<char>::empty()]);
        assert(split_char(x, sep) =~= split_char(a, sep) + split_char(b, sep));
    } else {
        assert(x.drop_last() =~= a.push(sep) + b.drop_last());
        lemma_split_concat(a, b.drop_last(), sep);
        lemma_split_char_nonempty(b.drop_last(), sep);
        let pa = split_char(a, sep);
        let q = split_char(b.drop_last(), sep);
        assert(x.last() == b.last());
        if b.last() == sep {
            assert(split_char(x, sep) =~= pa + split_char(b, sep));
        } else {
            assert((pa + q).last() == q.last());
            assert((pa + q).update((pa + q).len() - 1, q.last().push(b.last())) =~= pa + q.update(
                q.len() - 1,
                q.last().push(b.last()),
            ));
            assert(split_char(x, sep) =~= pa + split_char(b, sep));
        }
    }
}

pub proof fn lemma_decimal_digits(n: nat)
    ensures
        decimal(n).len() > 0,
        all_digits(decimal(n)),
        digits_value(decimal(n)) == n,
    decreases n,
{
    if n >= 10 {
        lemma_decimal_digits(n / 10);
        let d = decimal(n);
        assert(d.drop_last() =~= decimal(n / 10));
        lemma_digit_char((n % 10) as nat);
        assert(d.last() == digit_char(n % 10));
        assert(n == (n / 10) * 10 + n % 10);
        assert forall|i: int| 0 <= i < d.len() implies is_digit(#[trigger] d[i]) by {
            if i < d.len() - 1 {
                assert(d[i] == decimal(n / 10)[i]);
            }
        }
    } else {
        lemma_digit_char(n);
        assert(decimal(n).drop_last() =~= Seq::<char>::empty());
        assert(digits_value(Seq::<char>::empty()) == 0);
    }
}

pub proof fn lemma_digit_char(d: nat)
    requires
        d < 10,
    ensures
        is_digit(digit_char(d)),
        digit_value(digit_char(d)) == d,
{
    let u: u32 = (d + 48) as u32;
    assert(u == d + 48);
    assert((u as char) as u32 == u);
}

/// Decimal text parses back to its number.
pub proof fn lemma_parse_decimal(n: usize)
    ensures
        parse_usize(decimal(n as nat)) == Some(n),
        trim(decimal(n as nat)) == decimal(n as nat),
        forall|i: int| 0 <= i < decimal(n as nat).len() ==> #[trigger] decimal(n as nat)[i] != ',',
{
    lemma_decimal_digits(n as nat);
    let d = decimal(n as nat);
    assert(is_digit(d[0]));
    assert(is_digit(d.last()));
    assert(ws_prefix_len(d) == 0);
    assert(ws_suffix_len(d.skip(0)) == 0) by {
        assert(d.skip(0) =~= d);
    }
    assert(trim(d) =~= d);
    assert forall|i: int| 0 <= i < d.len() implies #[trigger] d[i] != ',' by {
        assert(is_digit(d[i]));
    }
}

} // verus!

verus! {

/// Lexicographic order on character sequences, by code point (the order of
/// `String`'s `Ord`).
pub open spec fn lex_less(a: Seq<char>, b: Seq<char>) -> bool
    decreases a.len(),
{
    if a.len() == 0 {
        b.len() > 0
    } else if b.len() == 0 {
        false
    } else if a[0] != b[0] {
        (a[0] as u32) < (b[0] as u32)
    } else {
        lex_less(a.drop_first(), b.drop_first())
    }
}

pub proof fn lemma_lex_irreflexive(a: Seq<char>)
    ensures
        !lex_less(a, a),
    decreases a.len(),
{
    if a.len() > 0 {
        lemma_lex_irreflexive(a.drop_first());
    }
}

pub proof fn lemma_lex_transitive(a: Seq<char>, b: Seq<char>, c: Seq<char>)
    requires
        lex_less(a, b),
        lex_less(b, c),
    ensures
        lex_less(a, c),
    decreases a.len(),
{
    if a.len() > 0 && b.len() > 0 && c.len() > 0 {
        if a[0] == b[0] && b[0] == c[0] {
            lemma_lex_transitive(a.drop_first(), b.drop_first(), c.drop_first());
        }
    }
}

pub proof fn lemma_lex_total(a: Seq<char>, b: Seq<char>)
    requires
        a != b,
    ensures
        lex_less(a, b) || lex_less(b, a),
    decreases a.len(),
{
    if a.len() > 0 && b.len() > 0 {
        if a[0] == b[0] {
            if a.drop_first() == b.drop_first() {
                assert(a =~= seq![a[0]] + a.drop_first());
                assert(b =~= seq![b[0]] + b.drop_first());
            }
            lemma_lex_total(a.drop_first(), b.drop_first());
        } else {
            let x = a[0] as u32;
            let y = b[0] as u32;
            if x == y {
                vstd::utf8::char_u32_cast(a[0], x);
                vstd::utf8::char_u32_cast(b[0], y);
            }
        }
    } else if a.len() == 0 && b.len() == 0 {
        assert(a =~= b);
    }
}

/// `a` comes before `b` in lexicographic order.
pub fn lex_lt(a: &[char], b: &[char]) -> (r: bool)
    ensures
        r == lex_less(a@, b@),
{
    let mut i: usize = 0;
    assert(a@.skip(0) =~= a@);
    assert(b@.skip(0) =~= b@);
    while i < a.len() && i < b.len() && a[i] == b[i]
        invariant
            i <= a@.len(),
            i <= b@.len(),
            lex_less(a@, b@) == lex_less(a@.skip(i as int), b@.skip(i as int)),
        decreases a@.len() - i,
    {
        assert(a@.skip(i as int).drop_first() =~= a@.skip(i + 1));
        assert(b@.skip(i as int).drop_first() =~= b@.skip(i + 1));
        i = i + 1;
    }
    if i == a.len() {
        return i < b.len();
    }
    if i == b.len() {
        return false;
    }
    (a[i] as u32) < (b[i] as u32)
}

/// Strictly increasing in lexicographic order.
pub open spec fn strictly_sorted(s: Seq<Seq<char>>) -> bool {
    forall|i: int, j: int| 0 <= i < j < s.len() ==> lex_less(#[trigger] s[i], #[trigger] s[j])
}

/// The distinct items, in lexicographic order (`sort` then `dedup`).
pub fn sorted_unique(items: &Vec<Vec<char>>) -> (r: Vec<Vec<char>>)
    ensures
        strictly_sorted(views(r@)),
        forall|x: Seq<char>| #[trigger] views(r@).contains(x) <==> views(items@).contains(x),
{
    let ghost iv = views(items@);
    let mut out: Vec<Vec<char>> = Vec::new();
    let mut k: usize = 0;
    while k < items.len()
        invariant
            k <= items@.len(),
            iv == views(items@),
            strictly_sorted(views(out@)),
            forall|x: Seq<char>| #[trigger] views(out@).contains(x) <==> iv.take(k as int).contains(x),
        decreases items@.len() - k,
    {
        let x = items[k].as_slice();
        let ghost ov = views(out@);
        let mut p: usize = 0;
        while p < out.len() && lex_lt(out[p].as_slice(), x)
            invariant
                p <= out@.len(),
                ov == views(out@),
                forall|i: int| 0 <= i < p ==> lex_less(#[trigger] ov[i], x@),
            decreases out@.len() - p,
        {
            p = p + 1;
        }
        let dup = p < out.len() && chars_eq(out[p].as_slice(), x);
        assert(iv.take(k + 1) =~= iv.take(k as int).push(x@));
        if !dup {
            let owned = copy_range(x, 0, x.len());
            proof {
                if p < ov.len() {
                    lemma_lex_total(ov[p as int], x@);
                }
            }
            let ghost oraw = out@;
            let ghost ow = owned@;
            out.insert(p, owned);
            assert(out@ == oraw.insert(p as int, out@[p as int]));
            assert(out@[p as int]@ == ow);
            assert(ow == x@);
            assert forall|i: int| 0 <= i < views(out@).len() implies #[trigger] views(out@)[i] == ov.insert(p as int, x@)[i] by {
                if i < p {
                    assert(out@[i] == oraw[i]);
                } else if i > p {
                    assert(out@[i] == oraw[i - 1]);
                }
            }
            assert(views(out@) =~= ov.insert(p as int, x@));
            proof {
                let nv = views(out@);
                assert forall|i: int, j: int| 0 <= i < j < nv.len() implies lex_less(#[trigger] nv[i], #[trigger] nv[j]) by {
                    if j == p {
                    } else if i == p {
                        assert(nv[j] == ov[j - 1]);
                        if j - 1 > p {
                            lemma_lex_transitive(x@, ov[p as int], ov[j - 1]);
                        }
                    } else if i < p && j > p {
                        assert(nv[j] == ov[j - 1]);
                        if p < ov.len() {
                            lemma_lex_total(ov[p as int], x@);
                            if j - 1 > p {
                                lemma_lex_transitive(x@, ov[p as int], ov[j - 1]);
                            }
                            lemma_lex_transitive(ov[i], x@, ov[j - 1]);
                        }
                    } else if i > p {
                        assert(nv[i] == ov[i - 1]);
                        assert(nv[j] == ov[j - 1]);
                    }
                }
                assert forall|y: Seq<char>| #[trigger] nv.contains(y) <==> iv.take(k + 1).contains(y) by {
                    if nv.contains(y) {
                        let w = choose|w: int| 0 <= w < nv.len() && #[trigger] nv[w] == y;
                        if w < p {
                            assert(ov[w] == y);
                            assert(ov.contains(y));
                        } else if w > p {
                            assert(ov[w - 1] == y);
                            assert(ov.contains(y));
                        }
                        if y != x@ {
                            assert(iv.take(k as int).contains(y));
                            let z = choose|z: int| 0 <= z < k && #[trigger] iv.take(k as int)[z] == y;
                            assert(iv.take(k + 1)[z] == y);
                        } else {
                            assert(iv.take(k + 1)[k as int] == y);
                        }
                    }
                    if iv.take(k + 1).contains(y) {
                        let z = choose|z: int| 0 <= z < k + 1 && #[trigger] iv.take(k + 1)[z] == y;
                        if z < k {
                            assert(iv.take(k as int)[z] == y);
                            assert(ov.contains(y));
                            let w = choose|w: int| 0 <= w < ov.len() && #[trigger] ov[w] == y;
                            if w < p {
                                assert(nv[w] == y);
                            } else {
                                assert(nv[w + 1] == y);
                            }
                        } else {
                            assert(nv[p as int] == y);
                        }
                    }
                }
            }
        } else {
            proof {
                assert forall|y: Seq<char>| #[trigger] ov.contains(y) <==> iv.take(k + 1).contains(y) by {
                    if ov.contains(y) {
                        let z = choose|z: int| 0 <= z < k && #[trigger] iv.take(k as int)[z] == y;
                        assert(iv.take(k + 1)[z] == y);
                    }
                    if iv.take(k + 1).contains(y) {
                        let z = choose|z: int| 0 <= z < k + 1 && #[trigger] iv.take(k + 1)[z] == y;
                        if z < k {
                            assert(iv.take(k as int)[z] == y);
                        } else {
                            assert(ov[p as int] == y);
                        }
                    }
                }
            }
        }
        k = k + 1;
    }
    assert(iv.take(k as int) =~= iv);
    out
}

} // verus!
