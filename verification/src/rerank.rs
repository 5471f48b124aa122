//! Conversation reranker for `rerank_context`.
//!
//! Splits conversation history into chunks, formats them as `--- Chunk N ---`
//! blocks, asks a model to rank them by relevance to the current query, and
//! reorders the kept chunks. Inclusive by design and fails open: any error,
//! unparseable output, or out-of-range index keeps the original ordering.
//!
//! The model call is the caller's: [`should_rerank`] says whether to make it,
//! [`build_request`] what to send, and [`apply_ranking`] what the reply means.

use vstd::prelude::*;

use crate::text::{
    append_chars, chars_of, copy_range, decimal, decimal_i64, decimal_u64, find, join,
    replace_all, replace_chars, signed_decimal, string_of, trim, trim_chars, trim_end, utf8_len,
    views,
};

verus! {

#[derive(Debug, Clone)]
pub struct Message {
    pub role: String,
    pub content: String,
    pub timestamp_ms: i64,
}

#[derive(Debug, Clone)]
pub struct Chunk {
    pub start: usize,
    pub end: usize,
    pub timestamp_ms: i64,
    pub text: String,
}

pub struct ChunkView {
    pub start: int,
    pub end: int,
    pub timestamp_ms: i64,
    pub text: Seq<char>,
}

impl View for Chunk {
    type V = ChunkView;

    open spec fn view(&self) -> ChunkView {
        ChunkView {
            start: self.start as int,
            end: self.end as int,
            timestamp_ms: self.timestamp_ms,
            text: self.text@,
        }
    }
}

pub open spec fn chunk_views(cs: Seq<Chunk>) -> Seq<ChunkView> {
    cs.map_values(|c: Chunk| c@)
}

/// How message `m` reads inside a chunk: `[role] content` and a newline.
pub open spec fn piece(m: Message) -> Seq<char> {
    "["@ + m.role@ + "] "@ + m.content@ + "\n"@
}

/// All pieces of `ms`, in order.
pub open spec fn all_pieces(ms: Seq<Message>) -> Seq<char>
    decreases ms.len(),
{
    if ms.len() == 0 {
        Seq::<char>::empty()
    } else {
        all_pieces(ms.drop_last()) + piece(ms.last())
    }
}

/// Chunking so far: the closed chunks, where the open one starts, and its text.
pub struct Chunking {
    pub chunks: Seq<ChunkView>,
    pub start: int,
    pub buf: Seq<char>,
}

/// The state after the first `n` messages: a message that would push a
/// non-empty chunk past `max_chars` bytes closes it and starts the next.
pub open spec fn chunking(ms: Seq<Message>, max_chars: int, n: int) -> Chunking
    decreases n,
{
    if n <= 0 {
        Chunking { chunks: Seq::<ChunkView>::empty(), start: 0, buf: Seq::<char>::empty() }
    } else {
        let st = chunking(ms, max_chars, n - 1);
        let p = piece(ms[n - 1]);
        if st.buf.len() > 0 && utf8_len(st.buf) + utf8_len(p) > max_chars {
            Chunking {
                chunks: st.chunks.push(
                    ChunkView {
                        start: st.start,
                        end: n - 1,
                        timestamp_ms: ms[n - 2].timestamp_ms,
                        text: trim_end(st.buf),
                    },
                ),
                start: n - 1,
                buf: p,
            }
        } else {
            Chunking { chunks: st.chunks, start: st.start, buf: st.buf + p }
        }
    }
}

/// The chunks of `ms`: the closed ones, then the last one unless blank.
pub open spec fn chunks_of(ms: Seq<Message>, max_chars: int) -> Seq<ChunkView> {
    let st = chunking(ms, max_chars, ms.len() as int);
    if trim(st.buf).len() > 0 {
        st.chunks.push(
            ChunkView {
                start: st.start,
                end: ms.len() as int,
                timestamp_ms: if ms.len() > 0 {
                    ms.last().timestamp_ms
                } else {
                    0
                },
                text: trim_end(st.buf),
            },
        )
    } else {
        st.chunks
    }
}

pub proof fn lemma_all_pieces_take(ms: Seq<Message>, n: int)
    requires
        0 <= n < ms.len(),
    ensures
        all_pieces(ms.take(n + 1)) == all_pieces(ms.take(n)) + piece(ms[n]),
{
    assert(ms.take(n + 1).drop_last() =~= ms.take(n));
}

/// The open chunk's text is the pieces since its start; it is never longer
/// than all pieces read so far.
pub proof fn lemma_chunking_buf(ms: Seq<Message>, max_chars: int, n: int)
    requires
        0 <= n <= ms.len(),
    ensures
        ({
            let st = chunking(ms, max_chars, n);
            &&& 0 <= st.start <= n
            &&& utf8_len(st.buf) <= utf8_len(all_pieces(ms.take(n)))
            &&& (st.buf.len() > 0 ==> st.start < n)
        }),
    decreases n,
{
    if n > 0 {
        lemma_chunking_buf(ms, max_chars, n - 1);
        lemma_all_pieces_take(ms, n - 1);
        let prev = all_pieces(ms.take(n - 1));
        let p = piece(ms[n - 1]);
        crate::text::lemma_encode_utf8_concat(prev, p);
        let st = chunking(ms, max_chars, n - 1);
        crate::text::lemma_encode_utf8_concat(st.buf, p);
    } else {
        assert(vstd::utf8::encode_utf8(Seq::<char>::empty()) =~= Seq::<u8>::empty());
        assert(ms.take(0) =~= Seq::<Message>::empty());
    }
}

fn piece_of(m: &Message) -> (r: Vec<char>)
    ensures
        r@ == piece(*m),
{
    let mut v = chars_of("[");
    append_chars(&mut v, chars_of(m.role.as_str()).as_slice());
    append_chars(&mut v, chars_of("] ").as_slice());
    append_chars(&mut v, chars_of(m.content.as_str()).as_slice());
    append_chars(&mut v, chars_of("\n").as_slice());
    v
}

/// Byte length of the UTF-8 encoding of `s`, when it fits in `usize`.
fn utf8_size(s: &[char]) -> (n: usize)
    requires
        utf8_len(s@) <= usize::MAX,
    ensures
        n == utf8_len(s@),
{
    let owned = string_of(s);
    owned.as_str().len()
}

/// Group messages into chunks of at most `max_chars` bytes, never splitting a
/// message.
///
/// A single message longer than `max_chars` becomes its own chunk rather than
/// being cut, so no content is lost before ranking.
pub fn chunk_messages(msgs: &[Message], max_chars: usize) -> (r: Vec<Chunk>)
    requires
        utf8_len(all_pieces(msgs@)) <= usize::MAX,
    ensures
        chunk_views(r@) == chunks_of(msgs@, max_chars as int),
{
    let mut out: Vec<Chunk> = Vec::new();
    let mut start: usize = 0;
    let mut buf: Vec<char> = Vec::new();
    let mut i: usize = 0;
    assert(msgs@.take(msgs@.len() as int) =~= msgs@);
    while i < msgs.len()
        invariant
            i <= msgs@.len(),
            utf8_len(all_pieces(msgs@)) <= usize::MAX,
            chunk_views(out@) == chunking(msgs@, max_chars as int, i as int).chunks,
            start == chunking(msgs@, max_chars as int, i as int).start,
            buf@ == chunking(msgs@, max_chars as int, i as int).buf,
        decreases msgs@.len() - i,
    {
        proof {
            lemma_chunking_buf(msgs@, max_chars as int, i as int);
            lemma_chunking_buf(msgs@, max_chars as int, i + 1);
            lemma_all_pieces_take(msgs@, i as int);
            crate::text::lemma_encode_utf8_concat(all_pieces(msgs@.take(i as int)), piece(msgs@[i as int]));
            assert(msgs@ =~= msgs@.take(i + 1) + msgs@.skip(i + 1));
            lemma_all_pieces_prefix(msgs@, i + 1);
        }
        let p = piece_of(&msgs[i]);
        let buf_len = utf8_size(buf.as_slice());
        let piece_len = utf8_size(p.as_slice());
        if buf.len() > 0 && (buf_len > max_chars || piece_len > max_chars - buf_len) {
            let text = trim_end_chars(buf.as_slice());
            let c = Chunk {
                start,
                end: i,
                timestamp_ms: msgs[i - 1].timestamp_ms,
                text: string_of(text.as_slice()),
            };
            let ghost before = chunk_views(out@);
            out.push(c);
            assert(chunk_views(out@) =~= before.push(c@));
            buf = p;
            start = i;
        } else {
            append_chars(&mut buf, p.as_slice());
        }
        i = i + 1;
    }
    let t = trim_chars(buf.as_slice());
    if t.len() > 0 {
        let ts = if msgs.len() > 0 {
            msgs[msgs.len() - 1].timestamp_ms
        } else {
            0
        };
        let text = trim_end_chars(buf.as_slice());
        let c = Chunk { start, end: msgs.len(), timestamp_ms: ts, text: string_of(text.as_slice()) };
        let ghost before = chunk_views(out@);
        out.push(c);
        assert(chunk_views(out@) =~= before.push(c@));
    }
    out
}

/// The pieces of a prefix encode to no more bytes than all pieces.
pub proof fn lemma_all_pieces_prefix(ms: Seq<Message>, n: int)
    requires
        0 <= n <= ms.len(),
    ensures
        utf8_len(all_pieces(ms.take(n))) <= utf8_len(all_pieces(ms)),
    decreases ms.len() - n,
{
    if n < ms.len() {
        lemma_all_pieces_prefix(ms, n + 1);
        lemma_all_pieces_take(ms, n);
        crate::text::lemma_encode_utf8_concat(all_pieces(ms.take(n)), piece(ms[n]));
    } else {
        assert(ms.take(n) =~= ms);
    }
}

/// `s` without its trailing whitespace (`str::trim_end`).
fn trim_end_chars(s: &[char]) -> (v: Vec<char>)
    ensures
        v@ == trim_end(s@),
{
    let n = s.len();
    let mut j: usize = n;
    assert(s@.take(n as int) =~= s@);
    while j > 0 && crate::text::is_whitespace(s[j - 1])
        invariant
            j <= n == s@.len(),
            crate::text::ws_suffix_len(s@) == (n - j) + crate::text::ws_suffix_len(s@.take(j as int)),
        decreases j,
    {
        assert(s@.take(j as int).drop_last() =~= s@.take(j - 1));
        j = j - 1;
    }
    assert(crate::text::ws_suffix_len(s@.take(j as int)) == 0);
    copy_range(s, 0, j)
}

/// The block for chunk `i`.
pub open spec fn chunk_block(i: nat, c: ChunkView) -> Seq<char> {
    "--- Chunk "@ + decimal(i) + " (timestamp_ms: "@ + signed_decimal(c.timestamp_ms as int)
        + ", messages "@ + decimal(c.start as nat) + "-"@ + decimal(c.end as nat) + ") ---\n"@
        + c.text
}

pub open spec fn chunk_blocks(cs: Seq<ChunkView>) -> Seq<Seq<char>> {
    Seq::new(cs.len(), |i: int| chunk_block(i as nat, cs[i]))
}

fn block_of(i: usize, c: &Chunk) -> (r: Vec<char>)
    ensures
        r@ == chunk_block(i as nat, c@),
{
    let mut v = chars_of("--- Chunk ");
    append_chars(&mut v, decimal_u64(i as u64).as_slice());
    append_chars(&mut v, chars_of(" (timestamp_ms: ").as_slice());
    append_chars(&mut v, decimal_i64(c.timestamp_ms).as_slice());
    append_chars(&mut v, chars_of(", messages ").as_slice());
    append_chars(&mut v, decimal_u64(c.start as u64).as_slice());
    append_chars(&mut v, chars_of("-").as_slice());
    append_chars(&mut v, decimal_u64(c.end as u64).as_slice());
    append_chars(&mut v, chars_of(") ---\n").as_slice());
    append_chars(&mut v, chars_of(c.text.as_str()).as_slice());
    v
}

/// Format chunks the way the ranking instruction expects: one block per
/// chunk, with its timestamp so the model can prefer the more recent of two
/// equally relevant chunks.
pub fn format_chunks(chunks: &[Chunk]) -> (r: String)
    ensures
        r@ == join(chunk_blocks(chunk_views(chunks@)), "\n\n"@),
{
    let mut blocks: Vec<Vec<char>> = Vec::new();
    let mut i: usize = 0;
    while i < chunks.len()
        invariant
            i <= chunks@.len(),
            views(blocks@) == chunk_blocks(chunk_views(chunks@)).take(i as int),
        decreases chunks@.len() - i,
    {
        let b = block_of(i, &chunks[i]);
        let ghost before = views(blocks@);
        assert(chunk_views(chunks@)[i as int] == chunks@[i as int]@);
        assert(chunk_blocks(chunk_views(chunks@))[i as int] == chunk_block(i as nat, chunks@[i as int]@));
        blocks.push(b);
        assert(views(blocks@) =~= before.push(b@));
        assert(views(blocks@) =~= chunk_blocks(chunk_views(chunks@)).take(i + 1));
        i = i + 1;
    }
    assert(chunk_blocks(chunk_views(chunks@)).take(i as int) =~= chunk_blocks(chunk_views(chunks@)));
    let sep = chars_of("\n\n");
    let joined = crate::text::join_chars(&blocks, sep.as_slice());
    string_of(joined.as_slice())
}

/// The ranking request: the instruction with `{{query}}` and then
/// `{{chunks}}` substituted.
pub open spec fn rerank_request(instruction: Seq<char>, query: Seq<char>, chunks: Seq<ChunkView>) -> Seq<char> {
    replace_all(
        replace_all(instruction, "{{query}}"@, query),
        "{{chunks}}"@,
        join(chunk_blocks(chunks), "\n\n"@),
    )
}

/// Build the ranking request for a query.
pub fn build_request(instruction: &str, query: &str, chunks: &[Chunk]) -> (r: String)
    ensures
        r@ == rerank_request(instruction@, query@, chunk_views(chunks@)),
{
    let q_pat = chars_of("{{query}}");
    let c_pat = chars_of("{{chunks}}");
    proof {
        reveal_strlit("{{query}}");
        reveal_strlit("{{chunks}}");
    }
    let formatted = format_chunks(chunks);
    let step1 = replace_chars(chars_of(instruction).as_slice(), q_pat.as_slice(), chars_of(query).as_slice());
    let step2 = replace_chars(step1.as_slice(), c_pat.as_slice(), chars_of(formatted.as_str()).as_slice());
    string_of(step2.as_slice())
}

/// What `serde_json::from_str::<Vec<i64>>` makes of `s`: the integers of a
/// JSON array holding only integers that fit in `i64`, or nothing.
pub uninterp spec fn json_int_array(s: Seq<char>) -> Option<Seq<i64>>;

/// `serde_json::from_str::<Vec<i64>>`, any error read as `None`.
#[verifier::external_body]
fn parse_int_array(s: &str) -> (r: Option<Vec<i64>>)
    ensures
        match json_int_array(s@) {
            Some(v) => r matches Some(x) && x@ == v,
            None => r is None,
        },
{
    serde_json::from_str::<Vec<i64>>(s).ok()
}

/// The first bracketed span of `r`: from the first `[` to the first `]`
/// after it, both included.
pub open spec fn first_bracketed(r: Seq<char>) -> Option<Seq<char>> {
    match find(r, seq!['[']) {
        Some(s) => match find(r.skip(s), seq![']']) {
            Some(e) => Some(r.subrange(s, s + e + 1)),
            None => None,
        },
        None => None,
    }
}

/// Pull the first bracketed JSON array out of a model response.
///
/// The instruction asks for a bare array, but models add prose, so the first
/// `[...]` is taken rather than requiring a pure-JSON body. Non-integer
/// entries reject the whole array.
pub fn extract_index_array(response: &str) -> (r: Option<Vec<i64>>)
    ensures
        match first_bracketed(response@) {
            Some(c) => match json_int_array(c) {
                Some(v) => r matches Some(x) && x@ == v,
                None => r is None,
            },
            None => r is None,
        },
{
    let chars = chars_of(response);
    let open: Vec<char> = vec!['['];
    let close: Vec<char> = vec![']'];
    assert(open@ =~= seq!['[']);
    assert(close@ =~= seq![']']);
    match crate::text::find_chars(chars.as_slice(), open.as_slice()) {
        Some(s) => {
            proof {
                crate::text::lemma_find_from(chars@, open@, 0);
            }
            let rest = copy_range(chars.as_slice(), s, chars.len());
            assert(rest@ =~= chars@.skip(s as int));
            match crate::text::find_chars(rest.as_slice(), close.as_slice()) {
                Some(e) => {
                    proof {
                        crate::text::lemma_find_from(rest@, close@, 0);
                    }
                    let candidate = copy_range(chars.as_slice(), s, s + e + 1);
                    let text = string_of(candidate.as_slice());
                    parse_int_array(text.as_str())
                },
                None => None,
            }
        },
        None => None,
    }
}

/// Whether a ranking is worth asking for: at least two chunks and a query
/// that is not blank.
pub fn should_rerank(query: &str, chunk_count: usize) -> (r: bool)
    ensures
        r == (chunk_count > 1 && trim(query@).len() > 0),
{
    if chunk_count <= 1 {
        return false;
    }
    let q = chars_of(query);
    trim_chars(q.as_slice()).len() > 0
}

/// Every index names one of `n` chunks.
pub open spec fn indices_in_range(idx: Seq<i64>, n: int) -> bool {
    forall|k: int| 0 <= k < idx.len() ==> 0 <= #[trigger] idx[k] < n
}

/// The indices of `idx` without repeats, each kept where it first occurs.
pub open spec fn first_occurrences(idx: Seq<i64>) -> Seq<i64>
    decreases idx.len(),
{
    if idx.len() == 0 {
        Seq::<i64>::empty()
    } else {
        let prev = first_occurrences(idx.drop_last());
        if idx.drop_last().contains(idx.last()) {
            prev
        } else {
            prev.push(idx.last())
        }
    }
}

/// The chunks to keep, in ranked order, for a model reply: no usable array
/// keeps the original order; an empty array keeps nothing; an out-of-range
/// index keeps the original order; otherwise the ranked chunks, first
/// occurrence of each index only.
pub open spec fn ranked(original: Seq<ChunkView>, idx: Option<Seq<i64>>) -> Seq<ChunkView> {
    match idx {
        None => original,
        Some(ix) => if ix.len() == 0 {
            Seq::<ChunkView>::empty()
        } else if !indices_in_range(ix, original.len() as int) {
            original
        } else {
            first_occurrences(ix).map_values(|k: i64| original[k as int])
        },
    }
}

fn copy_chunk(c: &Chunk) -> (r: Chunk)
    ensures
        r@ == c@,
{
    Chunk { start: c.start, end: c.end, timestamp_ms: c.timestamp_ms, text: c.text.clone() }
}

/// Reorder `original` by the model's ranking (`None`: no usable ranking).
pub fn apply_ranking(original: Vec<Chunk>, idx: Option<Vec<i64>>) -> (r: Vec<Chunk>)
    ensures
        chunk_views(r@) == ranked(
            chunk_views(original@),
            match idx {
                Some(v) => Some(v@),
                None => None,
            },
        ),
{
    let ix = match idx {
        None => {
            return original;
        },
        Some(v) => v,
    };
    if ix.len() == 0 {
        let empty: Vec<Chunk> = Vec::new();
        assert(chunk_views(empty@) =~= Seq::<ChunkView>::empty());
        return empty;
    }
    let n = original.len();
    let mut k: usize = 0;
    while k < ix.len()
        invariant
            k <= ix@.len(),
            ix@.len() > 0,
            idx == Some(ix),
            n == original@.len(),
            forall|j: int| 0 <= j < k ==> 0 <= #[trigger] ix@[j] < n,
        decreases ix@.len() - k,
    {
        if ix[k] < 0 || ix[k] as u64 >= n as u64 {
            assert(!(0 <= ix@[k as int] < n));
            assert(!indices_in_range(ix@, n as int));
            return original;
        }
        k = k + 1;
    }
    let mut seen: Vec<bool> = Vec::new();
    let mut m: usize = 0;
    while m < n
        invariant
            m <= n,
            seen@.len() == m,
            forall|j: int| 0 <= j < m ==> !#[trigger] seen@[j],
        decreases n - m,
    {
        seen.push(false);
        m = m + 1;
    }
    let ghost orig = chunk_views(original@);
    let mut out: Vec<Chunk> = Vec::new();
    let mut k: usize = 0;
    assert(ix@.take(0) =~= Seq::<i64>::empty());
    while k < ix.len()
        invariant
            k <= ix@.len(),
            n == original@.len(),
            orig == chunk_views(original@),
            seen@.len() == n,
            indices_in_range(ix@, n as int),
            forall|j: int|
                0 <= j < n ==> (#[trigger] seen@[j] == exists|w: int| 0 <= w < k && ix@[w] == j),
            chunk_views(out@) == first_occurrences(ix@.take(k as int)).map_values(
                |q: i64| orig[q as int],
            ),
        decreases ix@.len() - k,
    {
        let q = ix[k];
        assert(0 <= ix@[k as int] < n);
        let qi = q as usize;
        assert(ix@.take(k + 1).drop_last() =~= ix@.take(k as int));
        assert(ix@.take(k + 1).last() == q);
        assert(ix@.take(k as int).contains(q) == (exists|w: int| 0 <= w < k && ix@[w] == q)) by {
            if ix@.take(k as int).contains(q) {
                let w = choose|w: int| 0 <= w < k && #[trigger] ix@.take(k as int)[w] == q;
                assert(ix@[w] == q);
            }
            if exists|w: int| 0 <= w < k && ix@[w] == q {
                let w = choose|w: int| 0 <= w < k && #[trigger] ix@[w] == q;
                assert(ix@.take(k as int)[w] == q);
            }
        }
        let ghost before = chunk_views(out@);
        let ghost seen_before = seen@;
        if !seen[qi] {
            let c = copy_chunk(&original[qi]);
            out.push(c);
            seen.set(qi, true);
            assert(chunk_views(out@) =~= before.push(orig[q as int]));
        }
        proof {
            assert forall|j: int| 0 <= j < n implies (#[trigger] seen@[j] == exists|w: int|
                0 <= w < k + 1 && ix@[w] == j) by {
                if ix@[k as int] == j {
                    assert(0 <= k < k + 1);
                }
                if exists|w: int| 0 <= w < k + 1 && ix@[w] == j {
                    let w = choose|w: int| 0 <= w < k + 1 && #[trigger] ix@[w] == j;
                    if w < k {
                        assert(exists|w2: int| 0 <= w2 < k && ix@[w2] == j);
                    }
                }
            }
        }
        k = k + 1;
        assert(chunk_views(out@) =~= first_occurrences(ix@.take(k as int)).map_values(
            |q: i64| orig[q as int],
        ));
    }
    assert(ix@.take(k as int) =~= ix@);
    out
}

/// The index array in a model reply: the first bracketed run, read as a
/// JSON array of integers.
pub open spec fn reply_indices(response: Seq<char>) -> Option<Seq<i64>> {
    match first_bracketed(response) {
        Some(c) => json_int_array(c),
        None => None,
    }
}

/// The outcome of a rerank for the model's `reply` to the ranking request:
/// a failed call keeps the chunks as they were (fails open); otherwise the
/// chunks are put in the order of the reply's index array (see
/// [`ranked`]).
pub fn finish_rerank(chunks: Vec<Chunk>, reply: Result<String, String>) -> (r: Vec<Chunk>)
    ensures
        chunk_views(r@) == match reply {
            Err(_) => chunk_views(chunks@),
            Ok(text) => ranked(chunk_views(chunks@), reply_indices(text@)),
        },
{
    match reply {
        Err(_) => chunks,
        Ok(text) => {
            let idx = extract_index_array(text.as_str());
            apply_ranking(chunks, idx)
        },
    }
}

/// Law: a ranking keeps nothing twice and invents nothing — every kept chunk
/// is one of the originals.
pub proof fn law_ranking_draws_from_original(original: Seq<ChunkView>, idx: Option<Seq<i64>>, k: int)
    requires
        0 <= k < ranked(original, idx).len(),
    ensures
        original.contains(ranked(original, idx)[k]),
{
    match idx {
        None => {
            assert(original[k] == ranked(original, idx)[k]);
        },
        Some(ix) => {
            if ix.len() > 0 && indices_in_range(ix, original.len() as int) {
                lemma_first_occurrences_from(ix, k);
                let q = first_occurrences(ix)[k];
                assert(ranked(original, idx)[k] == original[q as int]);
            } else if ix.len() > 0 {
                assert(original[k] == ranked(original, idx)[k]);
            }
        },
    }
}

/// Each index kept by `first_occurrences` is one of the given indices.
pub proof fn lemma_first_occurrences_from(idx: Seq<i64>, k: int)
    requires
        0 <= k < first_occurrences(idx).len(),
    ensures
        idx.contains(first_occurrences(idx)[k]),
    decreases idx.len(),
{
    if idx.len() > 0 {
        let prev = first_occurrences(idx.drop_last());
        if k < prev.len() {
            lemma_first_occurrences_from(idx.drop_last(), k);
            let w = choose|w: int| 0 <= w < idx.drop_last().len() && #[trigger] idx.drop_last()[w] == prev[k];
            assert(idx[w] == prev[k]);
        } else {
            assert(idx[idx.len() - 1] == idx.last());
        }
    }
}

/// `cs` cuts the messages `from..to` into consecutive, non-empty ranges.
pub open spec fn covers(cs: Seq<ChunkView>, from: int, to: int) -> bool {
    &&& cs.len() == 0 ==> from == to
    &&& cs.len() > 0 ==> cs[0].start == from && cs.last().end == to
    &&& forall|k: int| 0 <= k < cs.len() - 1 ==> (#[trigger] cs[k]).end == cs[k + 1].start
    &&& forall|k: int| 0 <= k < cs.len() ==> (#[trigger] cs[k]).start < cs[k].end
}

/// Each chunk's text is its messages' pieces, trailing whitespace removed.
pub open spec fn texts_whole(ms: Seq<Message>, cs: Seq<ChunkView>) -> bool {
    forall|k: int|
        0 <= k < cs.len() ==> 0 <= (#[trigger] cs[k]).start && cs[k].end <= ms.len() && cs[k].text
            == trim_end(all_pieces(ms.subrange(cs[k].start, cs[k].end)))
}

proof fn lemma_pieces_extend(ms: Seq<Message>, a: int, n: int)
    requires
        0 <= a < n <= ms.len(),
    ensures
        all_pieces(ms.subrange(a, n)) == all_pieces(ms.subrange(a, n - 1)) + piece(ms[n - 1]),
{
    assert(ms.subrange(a, n).drop_last() =~= ms.subrange(a, n - 1));
}

proof fn lemma_chunking_inv(ms: Seq<Message>, max_chars: int, n: int)
    requires
        0 <= n <= ms.len(),
    ensures
        ({
            let st = chunking(ms, max_chars, n);
            &&& 0 <= st.start <= n
            &&& (n > 0 ==> st.start < n)
            &&& st.buf == all_pieces(ms.subrange(st.start, n))
            &&& covers(st.chunks, 0, st.start)
            &&& texts_whole(ms, st.chunks)
        }),
    decreases n,
{
    if n == 0 {
        assert(ms.subrange(0, 0) =~= Seq::<Message>::empty());
    } else {
        lemma_chunking_inv(ms, max_chars, n - 1);
        let st = chunking(ms, max_chars, n - 1);
        let p = piece(ms[n - 1]);
        if st.buf.len() > 0 && utf8_len(st.buf) + utf8_len(p) > max_chars {
            if st.start == n - 1 {
                assert(ms.subrange(st.start, n - 1) =~= Seq::<Message>::empty());
            }
            assert(ms.subrange(n - 1, n).drop_last() =~= Seq::<Message>::empty());
            assert(all_pieces(Seq::<Message>::empty()) =~= Seq::<char>::empty());
            assert(all_pieces(ms.subrange(n - 1, n)) =~= p);
            let c = ChunkView {
                start: st.start,
                end: n - 1,
                timestamp_ms: ms[n - 2].timestamp_ms,
                text: trim_end(st.buf),
            };
            let cs = st.chunks.push(c);
            assert(covers(cs, 0, n - 1)) by {
                assert forall|k: int| 0 <= k < cs.len() - 1 implies (#[trigger] cs[k]).end
                    == cs[k + 1].start by {
                    if k < st.chunks.len() - 1 {
                        assert(cs[k] == st.chunks[k] && cs[k + 1] == st.chunks[k + 1]);
                    } else {
                        assert(cs[k] == st.chunks.last());
                    }
                }
                assert forall|k: int| 0 <= k < cs.len() implies (#[trigger] cs[k]).start < cs[k].end by {
                    if k < st.chunks.len() {
                        assert(cs[k] == st.chunks[k]);
                    }
                }
            }
            assert(texts_whole(ms, cs)) by {
                assert forall|k: int| 0 <= k < cs.len() implies 0 <= (#[trigger] cs[k]).start
                    && cs[k].end <= ms.len() && cs[k].text == trim_end(
                    all_pieces(ms.subrange(cs[k].start, cs[k].end)),
                ) by {
                    if k < st.chunks.len() {
                        assert(cs[k] == st.chunks[k]);
                    }
                }
            }
        } else {
            if st.start == n - 1 {
                assert(ms.subrange(st.start, n - 1) =~= Seq::<Message>::empty());
                assert(all_pieces(Seq::<Message>::empty()) =~= Seq::<char>::empty());
                assert(ms.subrange(n - 1, n).drop_last() =~= Seq::<Message>::empty());
                assert(st.buf + p =~= all_pieces(ms.subrange(n - 1, n)));
            } else {
                lemma_pieces_extend(ms, st.start, n);
            }
        }
    }
}

/// Law: chunking never splits or drops a message. The chunks cut the
/// messages into consecutive ranges covering all of them, and each chunk's
/// text is exactly its messages' `[role] content` lines (trailing whitespace
/// removed), an oversized message included.
pub proof fn law_chunks_cover_messages(ms: Seq<Message>, max_chars: int)
    ensures
        covers(chunks_of(ms, max_chars), 0, ms.len() as int),
        texts_whole(ms, chunks_of(ms, max_chars)),
{
    let n = ms.len() as int;
    lemma_chunking_inv(ms, max_chars, n);
    let st = chunking(ms, max_chars, n);
    let cs = chunks_of(ms, max_chars);
    if trim(st.buf).len() > 0 {
        let c = cs.last();
        assert(covers(cs, 0, n)) by {
            assert forall|k: int| 0 <= k < cs.len() - 1 implies (#[trigger] cs[k]).end
                == cs[k + 1].start by {
                if k < st.chunks.len() - 1 {
                    assert(cs[k] == st.chunks[k] && cs[k + 1] == st.chunks[k + 1]);
                } else {
                    assert(cs[k] == st.chunks.last());
                }
            }
            assert forall|k: int| 0 <= k < cs.len() implies (#[trigger] cs[k]).start < cs[k].end by {
                if k < st.chunks.len() {
                    assert(cs[k] == st.chunks[k]);
                }
            }
        }
        assert(texts_whole(ms, cs)) by {
            assert forall|k: int| 0 <= k < cs.len() implies 0 <= (#[trigger] cs[k]).start && cs[k].end
                <= ms.len() && cs[k].text == trim_end(all_pieces(ms.subrange(cs[k].start, cs[k].end))) by {
                if k < st.chunks.len() {
                    assert(cs[k] == st.chunks[k]);
                }
            }
        }
    } else if n > 0 {
        lemma_pieces_extend(ms, st.start, n);
        let before = all_pieces(ms.subrange(st.start, n - 1));
        let p = piece(ms[n - 1]);
        reveal_strlit("[");
        assert(p[0] == '[');
        assert(st.buf[before.len() as int] == '[');
        crate::text::lemma_trim_nonempty(st.buf, before.len() as int);
    }
}

} // verus!
