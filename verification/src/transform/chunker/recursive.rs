//! Recursive delimiter-based chunker.
//!
//! From a cursor, the chunker takes the largest window that fits the size
//! budget, then cuts at the strongest boundary inside the window
//! (paragraph, then line, then sentence, then whitespace), falling back to a
//! forced cut at the window end. The next chunk starts after the skipped
//! whitespace, or, with overlap, that many characters before the cut.
use vstd::prelude::*;
use crate::text::{
    chars_of, enc_len, is_whitespace, is_ws, lemma_enc_len_prefix_mono, prefix_byte_offsets,
    string_from_range,
};
use super::engine::{
    boundary_at, detectable, forced_boundary, lemma_normalize_shrinks, normalize,
    normalize_newlines, scan_boundaries, Boundary, EngBoundaryKind,
};
use super::types::{BoundaryKind, Chunk, ChunkError, ChunkHint, ChunkedDocument, SizeMetric, StrategyFingerprint};
use super::Chunker;
use crate::text::{decimal, push_usize};

verus! {

/// Size budget of the recursive chunker.
#[derive(Debug, Clone, Copy, PartialEq, Eq)]
pub struct RecursiveConfig {
    pub metric: SizeMetric,
    pub max_size: usize,
    pub min_size: usize,
    pub overlap: usize,
}

/// A configuration is accepted when `min_size <= max_size` and, for a
/// non-zero budget, `overlap < max_size`.
pub open spec fn config_ok(cfg: RecursiveConfig) -> bool {
    &&& cfg.min_size <= cfg.max_size
    &&& (cfg.max_size > 0 ==> cfg.overlap < cfg.max_size)
}

/// End of the largest window from `c` that holds at most `max` characters.
pub open spec fn window_end(n: int, c: int, max: int) -> int {
    if c + max <= n {
        c + max
    } else {
        n
    }
}

/// `e` is a qualifying split point of kind `k` for a chunk starting at `c`
/// inside the window ending at `w`.
pub open spec fn is_cand(t: Seq<char>, k: EngBoundaryKind, c: int, w: int, min: int, e: int) -> bool {
    &&& c < e <= w
    &&& e - c >= min
    &&& boundary_at(t, k, e)
}

pub open spec fn has_cand(t: Seq<char>, k: EngBoundaryKind, c: int, w: int, min: int) -> bool {
    exists|e: int| is_cand(t, k, c, w, min, e)
}

/// The last qualifying split point of kind `k`.
pub open spec fn best_cand(t: Seq<char>, k: EngBoundaryKind, c: int, w: int, min: int) -> int {
    choose|e: int| is_cand(t, k, c, w, min, e) && forall|e2: int| #[trigger]
        is_cand(t, k, c, w, min, e2) ==> e2 <= e
}

/// The strongest kind that has a qualifying split point, with its last one.
pub open spec fn spec_choice(t: Seq<char>, c: int, w: int, min: int) -> Option<(int, EngBoundaryKind)> {
    if has_cand(t, EngBoundaryKind::Paragraph, c, w, min) {
        Some((best_cand(t, EngBoundaryKind::Paragraph, c, w, min), EngBoundaryKind::Paragraph))
    } else if has_cand(t, EngBoundaryKind::Line, c, w, min) {
        Some((best_cand(t, EngBoundaryKind::Line, c, w, min), EngBoundaryKind::Line))
    } else if has_cand(t, EngBoundaryKind::Sentence, c, w, min) {
        Some((best_cand(t, EngBoundaryKind::Sentence, c, w, min), EngBoundaryKind::Sentence))
    } else if has_cand(t, EngBoundaryKind::Whitespace, c, w, min) {
        Some((best_cand(t, EngBoundaryKind::Whitespace, c, w, min), EngBoundaryKind::Whitespace))
    } else {
        None
    }
}

/// Where the chunk starting at `c` ends, and why.
#[verifier::opaque]
pub open spec fn split_point(t: Seq<char>, cfg: RecursiveConfig, c: int) -> (int, EngBoundaryKind) {
    let w = window_end(t.len() as int, c, cfg.max_size as int);
    match spec_choice(t, c, w, cfg.min_size as int) {
        Some(p) => p,
        None => (w, EngBoundaryKind::Forced),
    }
}

/// First index at or after `e` that is not whitespace (or the end).
pub open spec fn skip_ws(t: Seq<char>, e: int) -> int
    decreases t.len() - e,
{
    if e < 0 || e >= t.len() || !is_ws(t[e]) {
        e
    } else {
        skip_ws(t, e + 1)
    }
}

/// Start of the chunk that follows a chunk `[c, e)`.
pub open spec fn next_cursor(t: Seq<char>, cfg: RecursiveConfig, c: int, e: int) -> int {
    let nx = if cfg.overlap > 0 {
        if e - cfg.overlap >= 1 {
            e - cfg.overlap
        } else {
            1
        }
    } else {
        skip_ws(t, e)
    };
    let nx2 = if nx <= c {
        c + 1
    } else {
        nx
    };
    if nx2 <= t.len() {
        nx2
    } else {
        t.len() as int
    }
}

/// Chunk spans `(start, end, kind)` (character indices) from cursor `c` on.
#[verifier::opaque]
pub open spec fn spans_from(t: Seq<char>, cfg: RecursiveConfig, c: int) -> Seq<(int, int, EngBoundaryKind)>
    decreases t.len() - c,
{
    if c < 0 || c >= t.len() {
        Seq::empty()
    } else {
        let (e, k) = split_point(t, cfg, c);
        if e >= t.len() {
            seq![(c, e, k)]
        } else {
            seq![(c, e, k)] + spans_from(t, cfg, next_cursor(t, cfg, c, e))
        }
    }
}

/// The spans the recursive chunker produces for `text` (over the normalized
/// text).
pub open spec fn recursive_spans(text: Seq<char>, cfg: RecursiveConfig) -> Seq<(int, int, EngBoundaryKind)> {
    if cfg.max_size == 0 || text.len() == 0 {
        Seq::empty()
    } else {
        spans_from(normalize(text), cfg, 0)
    }
}

/// Public boundary kind reported for an engine boundary (sentence ends are
/// reported as line boundaries).
pub open spec fn map_kind(k: EngBoundaryKind) -> BoundaryKind {
    match k {
        EngBoundaryKind::Paragraph => BoundaryKind::Paragraph,
        EngBoundaryKind::Line => BoundaryKind::Line,
        EngBoundaryKind::Sentence => BoundaryKind::Line,
        EngBoundaryKind::Whitespace => BoundaryKind::Whitespace,
        EngBoundaryKind::Forced => BoundaryKind::Forced,
    }
}

fn map_kind_exec(k: EngBoundaryKind) -> (b: BoundaryKind)
    ensures
        b == map_kind(k),
{
    match k {
        EngBoundaryKind::Paragraph => BoundaryKind::Paragraph,
        EngBoundaryKind::Line => BoundaryKind::Line,
        EngBoundaryKind::Sentence => BoundaryKind::Line,
        EngBoundaryKind::Whitespace => BoundaryKind::Whitespace,
        EngBoundaryKind::Forced => BoundaryKind::Forced,
    }
}

/// Chunk number `idx` is exactly span `sp` of the text `t`.
pub open spec fn chunk_is_span(ch: Chunk, idx: int, t: Seq<char>, sp: (int, int, EngBoundaryKind)) -> bool {
    &&& ch.index == idx
    &&& ch.text@ == t.subrange(sp.0, sp.1)
    &&& ch.boundary == map_kind(sp.2)
    &&& ch.start_byte == enc_len(t.take(sp.0))
    &&& ch.end_byte == enc_len(t.take(sp.1))
    &&& ch.char_len == sp.1 - sp.0
}

/// The chunks are exactly the spans, in order, numbered from zero.
#[verifier::opaque]
pub open spec fn chunks_are_spans(chunks: Seq<Chunk>, t: Seq<char>, spans: Seq<(int, int, EngBoundaryKind)>) -> bool {
    &&& chunks.len() == spans.len()
    &&& forall|i: int| 0 <= i < chunks.len() ==> #[trigger] chunk_is_span(chunks[i], i, t, spans[i])
}

/// Widest window from `start` within the character budget `max_size`: an
/// optimistic probe, then a binary search on the largest fitting end.
fn advance_to_budget(n: usize, start: usize, max_size: usize) -> (w: usize)
    requires
        start < n,
        max_size > 0,
    ensures
        w == window_end(n as int, start as int, max_size as int),
{
    let room = n - start;
    let probe = if room / 4 < max_size {
        n
    } else {
        assert(max_size * 4 <= room) by (nonlinear_arith)
            requires
                room / 4 >= max_size,
        ;
        start + max_size * 4
    };
    if probe - start <= max_size {
        return probe;
    }
    let mut lo = start;
    let mut hi = probe;
    while lo + 1 < hi
        invariant
            start <= lo < hi <= probe <= n,
            lo - start <= max_size,
            hi - start > max_size,
        decreases hi - lo,
    {
        let mid = lo + (hi - lo) / 2;
        if mid - start <= max_size {
            lo = mid;
        } else {
            hi = mid;
        }
    }
    lo
}

/// Start of the next chunk when `overlap` characters before `end` are repeated:
/// a binary search on the smallest start whose suffix up to `end` fits.
fn retreat_for_overlap(end: usize, overlap: usize) -> (r: usize)
    requires
        end >= 1,
    ensures
        r == (if end - overlap >= 1 {
            end - overlap
        } else {
            1
        }),
{
    let mut lo: usize = 0;
    let mut hi: usize = end;
    while lo + 1 < hi
        invariant
            0 <= lo < hi <= end,
            end - hi <= overlap,
            lo == 0 || end - lo > overlap,
        decreases hi - lo,
    {
        let mid = lo + (hi - lo) / 2;
        if end - mid <= overlap {
            hi = mid;
        } else {
            lo = mid;
        }
    }
    hi
}

/// First non-whitespace index at or after `e`.
fn skip_whitespace(t: &Vec<char>, e: usize) -> (r: usize)
    requires
        e <= t@.len(),
    ensures
        r == skip_ws(t@, e as int),
        e <= r <= t@.len(),
{
    let n = t.len();
    let mut i = e;
    while i < n && is_whitespace(t[i])
        invariant
            e <= i <= n == t@.len(),
            skip_ws(t@, e as int) == skip_ws(t@, i as int),
        decreases n - i,
    {
        i += 1;
    }
    i
}

proof fn lemma_best_cand_is(t: Seq<char>, k: EngBoundaryKind, c: int, w: int, min: int, e: int)
    requires
        is_cand(t, k, c, w, min, e),
        forall|e2: int| is_cand(t, k, c, w, min, e2) ==> e2 <= e,
    ensures
        has_cand(t, k, c, w, min),
        best_cand(t, k, c, w, min) == e,
{
    let b = best_cand(t, k, c, w, min);
    assert(is_cand(t, k, c, w, min, e) && forall|e2: int| #[trigger]
        is_cand(t, k, c, w, min, e2) ==> e2 <= e);
    assert(is_cand(t, k, c, w, min, b));
    assert(b <= e);
}

/// The last qualifying candidate of kind `target`, if any.
fn best_of_kind(
    cands: &Vec<Boundary>,
    Ghost(t): Ghost<Seq<char>>,
    target: EngBoundaryKind,
    start: usize,
    w: usize,
    min_size: usize,
) -> (r: Option<usize>)
    requires
        detectable(target),
        forall|j: int|
            0 <= j < cands@.len() ==> {
                &&& start < (#[trigger] cands@[j]).end <= w
                &&& detectable(cands@[j].kind)
                &&& boundary_at(t, cands@[j].kind, cands@[j].end as int)
            },
        forall|e: int, k: EngBoundaryKind|
            start < e <= w && detectable(k) && #[trigger] boundary_at(t, k, e) ==> exists|j: int|
                0 <= j < cands@.len() && (#[trigger] cands@[j]).end == e && cands@[j].kind == k,
    ensures
        r is None <==> !has_cand(t, target, start as int, w as int, min_size as int),
        r matches Some(e) ==> e == best_cand(t, target, start as int, w as int, min_size as int),
{
    let mut best: Option<usize> = None;
    let mut j: usize = 0;
    while j < cands.len()
        invariant
            j <= cands@.len(),
            forall|i: int|
                0 <= i < cands@.len() ==> {
                    &&& start < (#[trigger] cands@[i]).end <= w
                    &&& detectable(cands@[i].kind)
                    &&& boundary_at(t, cands@[i].kind, cands@[i].end as int)
                },
            best matches Some(e) ==> is_cand(t, target, start as int, w as int, min_size as int, e as int),
            forall|i: int|
                0 <= i < j && (#[trigger] cands@[i]).kind == target && cands@[i].end - start >= min_size
                    ==> (best matches Some(e) && cands@[i].end <= e),
        decreases cands.len() - j,
    {
        let b = cands[j];
        if b.kind == target && b.end - start >= min_size {
            match best {
                Some(e) => {
                    if b.end > e {
                        best = Some(b.end);
                    }
                },
                None => {
                    best = Some(b.end);
                },
            }
        }
        j += 1;
    }
    proof {
        match best {
            Some(e) => {
                assert forall|e2: int| is_cand(t, target, start as int, w as int, min_size as int, e2) implies e2 <= e by {
                    let i = choose|i: int| 0 <= i < cands@.len() && (#[trigger] cands@[i]).end == e2 && cands@[i].kind == target;
                }
                lemma_best_cand_is(t, target, start as int, w as int, min_size as int, e as int);
            },
            None => {
                if has_cand(t, target, start as int, w as int, min_size as int) {
                    let e2 = choose|e2: int| is_cand(t, target, start as int, w as int, min_size as int, e2);
                    let i = choose|i: int| 0 <= i < cands@.len() && (#[trigger] cands@[i]).end == e2 && cands@[i].kind == target;
                }
            },
        }
    }
    best
}

/// The strongest qualifying boundary in the window, if any.
fn choose_boundary(
    cands: &Vec<Boundary>,
    Ghost(t): Ghost<Seq<char>>,
    start: usize,
    w: usize,
    min_size: usize,
) -> (r: Option<Boundary>)
    requires
        forall|j: int|
            0 <= j < cands@.len() ==> {
                &&& start < (#[trigger] cands@[j]).end <= w
                &&& detectable(cands@[j].kind)
                &&& boundary_at(t, cands@[j].kind, cands@[j].end as int)
            },
        forall|e: int, k: EngBoundaryKind|
            start < e <= w && detectable(k) && #[trigger] boundary_at(t, k, e) ==> exists|j: int|
                0 <= j < cands@.len() && (#[trigger] cands@[j]).end == e && cands@[j].kind == k,
    ensures
        r is None <==> spec_choice(t, start as int, w as int, min_size as int) is None,
        r matches Some(b) ==> spec_choice(t, start as int, w as int, min_size as int) == Some(
            (b.end as int, b.kind),
        ),
{
    match best_of_kind(cands, Ghost(t), EngBoundaryKind::Paragraph, start, w, min_size) {
        Some(e) => return Some(Boundary { end: e, kind: EngBoundaryKind::Paragraph }),
        None => {},
    }
    match best_of_kind(cands, Ghost(t), EngBoundaryKind::Line, start, w, min_size) {
        Some(e) => return Some(Boundary { end: e, kind: EngBoundaryKind::Line }),
        None => {},
    }
    match best_of_kind(cands, Ghost(t), EngBoundaryKind::Sentence, start, w, min_size) {
        Some(e) => return Some(Boundary { end: e, kind: EngBoundaryKind::Sentence }),
        None => {},
    }
    match best_of_kind(cands, Ghost(t), EngBoundaryKind::Whitespace, start, w, min_size) {
        Some(e) => return Some(Boundary { end: e, kind: EngBoundaryKind::Whitespace }),
        None => {},
    }
    None
}

proof fn lemma_split_point_bounds(t: Seq<char>, cfg: RecursiveConfig, c: int)
    requires
        0 <= c < t.len(),
        cfg.max_size > 0,
    ensures
        c < split_point(t, cfg, c).0 <= window_end(t.len() as int, c, cfg.max_size as int),
        split_point(t, cfg, c).0 - c <= cfg.max_size,
{
    reveal(split_point);
    let w = window_end(t.len() as int, c, cfg.max_size as int);
    let min = cfg.min_size as int;
    let ks = [EngBoundaryKind::Paragraph, EngBoundaryKind::Line, EngBoundaryKind::Sentence, EngBoundaryKind::Whitespace];
    if has_cand(t, EngBoundaryKind::Paragraph, c, w, min) {
        lemma_best_exists(t, EngBoundaryKind::Paragraph, c, w, min);
    } else if has_cand(t, EngBoundaryKind::Line, c, w, min) {
        lemma_best_exists(t, EngBoundaryKind::Line, c, w, min);
    } else if has_cand(t, EngBoundaryKind::Sentence, c, w, min) {
        lemma_best_exists(t, EngBoundaryKind::Sentence, c, w, min);
    } else if has_cand(t, EngBoundaryKind::Whitespace, c, w, min) {
        lemma_best_exists(t, EngBoundaryKind::Whitespace, c, w, min);
    }
}

/// When a kind has a qualifying split point, its last one exists.
proof fn lemma_best_exists(t: Seq<char>, k: EngBoundaryKind, c: int, w: int, min: int)
    requires
        has_cand(t, k, c, w, min),
    ensures
        is_cand(t, k, c, w, min, best_cand(t, k, c, w, min)),
        forall|e2: int| is_cand(t, k, c, w, min, e2) ==> e2 <= best_cand(t, k, c, w, min),
{
    let e0 = choose|e: int| is_cand(t, k, c, w, min, e);
    lemma_max_cand_exists(t, k, c, w, min, e0, w);
}

proof fn lemma_max_cand_exists(t: Seq<char>, k: EngBoundaryKind, c: int, w: int, min: int, e0: int, top: int)
    requires
        is_cand(t, k, c, w, min, e0),
        e0 <= top,
        forall|e2: int| is_cand(t, k, c, w, min, e2) ==> e2 <= top,
    ensures
        exists|e: int| is_cand(t, k, c, w, min, e) && forall|e2: int| #[trigger]
            is_cand(t, k, c, w, min, e2) ==> e2 <= e,
    decreases top - e0,
{
    if is_cand(t, k, c, w, min, top) {
        assert(is_cand(t, k, c, w, min, top) && forall|e2: int| #[trigger]
            is_cand(t, k, c, w, min, e2) ==> e2 <= top);
    } else {
        assert forall|e2: int| is_cand(t, k, c, w, min, e2) implies e2 <= top - 1 by {
            assert(e2 <= top);
        }
        lemma_max_cand_exists(t, k, c, w, min, e0, top - 1);
    }
}

} // verus!

verus! {

proof fn lemma_spans_step(t: Seq<char>, cfg: RecursiveConfig, c: int)
    requires
        0 <= c < t.len(),
    ensures
        ({
            let (e, k) = split_point(t, cfg, c);
            spans_from(t, cfg, c) == if e >= t.len() {
                seq![(c, e, k)]
            } else {
                seq![(c, e, k)] + spans_from(t, cfg, next_cursor(t, cfg, c, e))
            }
        }),
{
    reveal(spans_from);
}

proof fn lemma_split_point_is(t: Seq<char>, cfg: RecursiveConfig, c: int, w: int, e: int, k: EngBoundaryKind)
    requires
        w == window_end(t.len() as int, c, cfg.max_size as int),
        spec_choice(t, c, w, cfg.min_size as int) is None ==> e == w && k == EngBoundaryKind::Forced,
        spec_choice(t, c, w, cfg.min_size as int) is Some ==> spec_choice(t, c, w, cfg.min_size as int) == Some((e, k)),
    ensures
        split_point(t, cfg, c) == (e, k),
{
    reveal(split_point);
}

proof fn lemma_spans_past_end(t: Seq<char>, cfg: RecursiveConfig, c: int)
    requires
        c >= t.len(),
    ensures
        spans_from(t, cfg, c) == Seq::<(int, int, EngBoundaryKind)>::empty(),
{
    reveal(spans_from);
}

fn make_chunk(
    t: &Vec<char>,
    offs: &Vec<usize>,
    idx: usize,
    start: usize,
    end: usize,
    kind: EngBoundaryKind,
) -> (ch: Chunk)
    requires
        start <= end <= t@.len(),
        offs@.len() == t@.len() + 1,
        forall|i: int| 0 <= i <= t@.len() ==> #[trigger] offs@[i] == enc_len(t@.take(i)),
    ensures
        chunk_is_span(ch, idx as int, t@, (start as int, end as int, kind)),
{
    let piece = string_from_range(t, start, end);
    Chunk {
        index: idx,
        text: piece,
        boundary: map_kind_exec(kind),
        start_byte: offs[start],
        end_byte: offs[end],
        char_len: end - start,
    }
}

proof fn lemma_push_span(chunks: Seq<Chunk>, ch: Chunk, t: Seq<char>, done: Seq<(int, int, EngBoundaryKind)>, sp: (int, int, EngBoundaryKind))
    requires
        chunks_are_spans(chunks, t, done),
        chunk_is_span(ch, chunks.len() as int, t, sp),
    ensures
        chunks_are_spans(chunks.push(ch), t, done.push(sp)),
{
    reveal(chunks_are_spans);
    assert forall|i: int| 0 <= i < chunks.len() + 1 implies #[trigger] chunk_is_span(chunks.push(ch)[i], i, t, done.push(sp)[i]) by {
        if i < chunks.len() {
            assert(chunks.push(ch)[i] == chunks[i]);
        }
    }
}

/// Where the chunk starting at `cursor` ends, and the boundary kind there.
fn next_chunk_end(t: &Vec<char>, cfg: RecursiveConfig, cursor: usize) -> (b: Boundary)
    requires
        cursor < t@.len(),
        cfg.max_size > 0,
    ensures
        split_point(t@, cfg, cursor as int) == (b.end as int, b.kind),
        cursor < b.end <= t@.len(),
{
    let n = t.len();
    let w = advance_to_budget(n, cursor, cfg.max_size);
    let cands = scan_boundaries(t, cursor, w - cursor);
    let chosen = match choose_boundary(&cands, Ghost(t@), cursor, w, cfg.min_size) {
        Some(b) => b,
        None => forced_boundary(cursor, w - cursor),
    };
    proof {
        lemma_split_point_bounds(t@, cfg, cursor as int);
        lemma_split_point_is(t@, cfg, cursor as int, w as int, chosen.end as int, chosen.kind);
    }
    chosen
}

/// Start of the chunk following `[cursor, end)`.
fn advance_cursor(t: &Vec<char>, cfg: RecursiveConfig, cursor: usize, end: usize) -> (r: usize)
    requires
        cursor < end < t@.len(),
    ensures
        r == next_cursor(t@, cfg, cursor as int, end as int),
        cursor < r <= t@.len(),
{
    let next = if cfg.overlap > 0 {
        retreat_for_overlap(end, cfg.overlap)
    } else {
        skip_whitespace(t, end)
    };
    if next <= cursor {
        cursor + 1
    } else {
        next
    }
}

/// Chunks the newline-normalized characters of `text` following
/// [`recursive_spans`].
fn chunk_chars(text: &str, cfg: RecursiveConfig) -> (chunks: Vec<Chunk>)
    requires
        config_ok(cfg),
    ensures
        chunks_are_spans(chunks@, normalize(text@), recursive_spans(text@, cfg)),
{
    if cfg.max_size == 0 || text.is_empty() {
        proof {
            reveal(chunks_are_spans);
        }
        return Vec::new();
    }
    let total = text.as_bytes().len();
    let chars = chars_of(text);
    let t = normalize_newlines(&chars);
    proof {
        lemma_normalize_shrinks(chars@);
    }
    let offs = prefix_byte_offsets(&t, total);
    let n = t.len();
    let ghost tt = t@;
    let mut chunks: Vec<Chunk> = Vec::new();
    let mut cursor: usize = 0;
    let ghost mut done: Seq<(int, int, EngBoundaryKind)> = Seq::empty();
    proof {
        reveal(chunks_are_spans);
        assert(chars@.len() > 0);
        if tt.len() == 0 {
            assert(normalize(chars@).len() > 0);
        }
        assert(done + spans_from(tt, cfg, 0) =~= spans_from(tt, cfg, 0));
    }
    loop
        invariant_except_break
            cursor < n,
            spans_from(tt, cfg, 0) == done + spans_from(tt, cfg, cursor as int),
        invariant
            config_ok(cfg),
            cfg.max_size > 0,
            n == tt.len(),
            tt == t@,
            tt == normalize(text@),
            offs@.len() == n + 1,
            forall|i: int| 0 <= i <= n ==> #[trigger] offs@[i] == enc_len(tt.take(i)),
            chunks@.len() == done.len(),
            chunks_are_spans(chunks@, tt, done),
        ensures
            spans_from(tt, cfg, 0) == done,
        decreases n - cursor,
    {
        let chosen = next_chunk_end(&t, cfg, cursor);
        let end = chosen.end;
        let ch = make_chunk(&t, &offs, chunks.len(), cursor, end, chosen.kind);
        let ghost sp = (cursor as int, end as int, chosen.kind);
        proof {
            lemma_push_span(chunks@, ch, tt, done, sp);
            lemma_spans_step(tt, cfg, cursor as int);
        }
        chunks.push(ch);
        proof {
            done = done.push(sp);
        }
        if end >= n {
            proof {
                assert(spans_from(tt, cfg, cursor as int) =~= seq![sp]);
            }
            break;
        }
        let new_cursor = advance_cursor(&t, cfg, cursor, end);
        proof {
            assert(spans_from(tt, cfg, cursor as int) =~= seq![sp] + spans_from(tt, cfg, new_cursor as int));
            assert(spans_from(tt, cfg, 0) =~= done + spans_from(tt, cfg, new_cursor as int));
        }
        cursor = new_cursor;
        if cursor >= n {
            proof {
                lemma_spans_past_end(tt, cfg, cursor as int);
                assert(spans_from(tt, cfg, 0) =~= done);
            }
            break;
        }
    }
    chunks
}

} // verus!

verus! {

proof fn lemma_skip_ws(t: Seq<char>, e: int)
    requires
        0 <= e <= t.len(),
    ensures
        e <= skip_ws(t, e) <= t.len(),
        forall|k: int| e <= k < skip_ws(t, e) ==> #[trigger] is_ws(t[k]),
    decreases t.len() - e,
{
    if e < t.len() && is_ws(t[e]) {
        lemma_skip_ws(t, e + 1);
    }
}

/// Sum of the lengths of the spans.
pub open spec fn total_len(s: Seq<(int, int, EngBoundaryKind)>) -> int
    decreases s.len(),
{
    if s.len() == 0 {
        0
    } else {
        (s[0].1 - s[0].0) + total_len(s.drop_first())
    }
}

/// Character `i` lies inside one of the spans.
pub open spec fn covered(s: Seq<(int, int, EngBoundaryKind)>, i: int) -> bool {
    exists|j: int| 0 <= j < s.len() && (#[trigger] s[j]).0 <= i < s[j].1
}

proof fn lemma_spans_bounds(t: Seq<char>, cfg: RecursiveConfig, c: int)
    requires
        config_ok(cfg),
        cfg.max_size > 0,
        0 <= c,
    ensures
        ({
            let s = spans_from(t, cfg, c);
            &&& forall|j: int|
                0 <= j < s.len() ==> c <= (#[trigger] s[j]).0 < s[j].1 <= t.len() && s[j].1 - s[j].0
                    <= cfg.max_size
            &&& forall|j: int| 0 < j < s.len() ==> s[j - 1].0 < (#[trigger] s[j]).0
            &&& (s.len() > 0 ==> s[0].0 == c)
            &&& (c < t.len() <==> s.len() > 0)
        }),
    decreases t.len() - c,
{
    let s = spans_from(t, cfg, c);
    if c >= t.len() {
        lemma_spans_past_end(t, cfg, c);
    } else {
        lemma_spans_step(t, cfg, c);
        lemma_split_point_bounds(t, cfg, c);
        let (e, k) = split_point(t, cfg, c);
        if e < t.len() {
            let nx = next_cursor(t, cfg, c, e);
            lemma_spans_bounds(t, cfg, nx);
            let r = spans_from(t, cfg, nx);
            assert(s == seq![(c, e, k)] + r);
            assert forall|j: int| 0 < j < s.len() implies s[j - 1].0 < (#[trigger] s[j]).0 by {
                if j > 1 {
                    assert(s[j] == r[j - 1]);
                    assert(s[j - 1] == r[j - 2]);
                } else {
                    assert(s[1] == r[0]);
                }
            }
            assert forall|j: int| 0 <= j < s.len() implies c <= (#[trigger] s[j]).0 < s[j].1 <= t.len() && s[j].1 - s[j].0 <= cfg.max_size by {
                if j > 0 {
                    assert(s[j] == r[j - 1]);
                }
            }
        }
    }
}

proof fn lemma_spans_disjoint(t: Seq<char>, cfg: RecursiveConfig, c: int)
    requires
        config_ok(cfg),
        cfg.max_size > 0,
        cfg.overlap == 0,
        0 <= c <= t.len(),
    ensures
        ({
            let s = spans_from(t, cfg, c);
            &&& forall|j: int| 0 < j < s.len() ==> s[j - 1].1 <= (#[trigger] s[j]).0
            &&& total_len(s) <= t.len() - c
        }),
    decreases t.len() - c,
{
    let s = spans_from(t, cfg, c);
    if c >= t.len() {
        lemma_spans_past_end(t, cfg, c);
    } else {
        lemma_spans_step(t, cfg, c);
        lemma_split_point_bounds(t, cfg, c);
        let (e, k) = split_point(t, cfg, c);
        if e < t.len() {
            let nx = next_cursor(t, cfg, c, e);
            lemma_skip_ws(t, e);
            assert(nx >= e);
            lemma_spans_disjoint(t, cfg, nx);
            lemma_spans_bounds(t, cfg, nx);
            let r = spans_from(t, cfg, nx);
            assert(s == seq![(c, e, k)] + r);
            assert(s.drop_first() =~= r);
            assert(s[0] == (c, e, k));
            assert(total_len(s) == (e - c) + total_len(r));
            assert forall|j: int| 0 < j < s.len() implies s[j - 1].1 <= (#[trigger] s[j]).0 by {
                if j > 1 {
                    assert(s[j] == r[j - 1]);
                    assert(s[j - 1] == r[j - 2]);
                } else {
                    assert(s[1] == r[0]);
                }
            }
        } else {
            assert(s.drop_first() =~= Seq::<(int, int, EngBoundaryKind)>::empty());
            assert(s[0] == (c, e, k));
            assert(total_len(s) == (e - c) + total_len(s.drop_first()));
            assert(total_len(s.drop_first()) == 0);
        }
    }
}

proof fn lemma_spans_cover(t: Seq<char>, cfg: RecursiveConfig, c: int)
    requires
        config_ok(cfg),
        cfg.max_size > 0,
        cfg.overlap == 0,
        0 <= c <= t.len(),
    ensures
        forall|i: int| c <= i < t.len() ==> covered(spans_from(t, cfg, c), i) || is_ws(#[trigger] t[i]),
    decreases t.len() - c,
{
    let s = spans_from(t, cfg, c);
    if c < t.len() {
        lemma_spans_step(t, cfg, c);
        lemma_split_point_bounds(t, cfg, c);
        let (e, k) = split_point(t, cfg, c);
        assert(s[0] == (c, e, k));
        if e < t.len() {
            let nx = next_cursor(t, cfg, c, e);
            lemma_skip_ws(t, e);
            lemma_spans_cover(t, cfg, nx);
            let r = spans_from(t, cfg, nx);
            assert(s == seq![(c, e, k)] + r);
            assert forall|i: int| c <= i < t.len() implies covered(s, i) || is_ws(#[trigger] t[i]) by {
                if i < e {
                    assert(s[0].0 <= i < s[0].1);
                } else if i >= nx {
                    if covered(r, i) {
                        let j = choose|j: int| 0 <= j < r.len() && (#[trigger] r[j]).0 <= i < r[j].1;
                        assert(s[j + 1] == r[j]);
                    }
                }
            }
        } else {
            assert forall|i: int| c <= i < t.len() implies covered(s, i) || is_ws(#[trigger] t[i]) by {
                assert(s[0].0 <= i < s[0].1);
            }
        }
    }
}

proof fn lemma_spans_are_split_points(t: Seq<char>, cfg: RecursiveConfig, c: int)
    requires
        config_ok(cfg),
        cfg.max_size > 0,
        0 <= c,
    ensures
        forall|j: int| 0 <= j < spans_from(t, cfg, c).len() ==> 0 <= (#[trigger] spans_from(t, cfg, c)[j]).0 < t.len()
            && split_point(t, cfg, spans_from(t, cfg, c)[j].0) == (spans_from(t, cfg, c)[j].1, spans_from(t, cfg, c)[j].2),
    decreases t.len() - c,
{
    let s = spans_from(t, cfg, c);
    if c >= t.len() {
        lemma_spans_past_end(t, cfg, c);
    } else {
        lemma_spans_step(t, cfg, c);
        lemma_split_point_bounds(t, cfg, c);
        let (e, k) = split_point(t, cfg, c);
        if e < t.len() {
            let nx = next_cursor(t, cfg, c, e);
            lemma_spans_are_split_points(t, cfg, nx);
            let r = spans_from(t, cfg, nx);
            assert(s == seq![(c, e, k)] + r);
            assert forall|j: int| 0 <= j < s.len() implies 0 <= (#[trigger] s[j]).0 < t.len()
                && split_point(t, cfg, s[j].0) == (s[j].1, s[j].2) by {
                if j > 0 {
                    assert(s[j] == r[j - 1]);
                }
            }
        }
    }
}

/// The strength order of split points: paragraph, line, sentence,
/// whitespace, then a forced cut.
pub open spec fn strength(k: EngBoundaryKind) -> int {
    match k {
        EngBoundaryKind::Paragraph => 0,
        EngBoundaryKind::Line => 1,
        EngBoundaryKind::Sentence => 2,
        EngBoundaryKind::Whitespace => 3,
        EngBoundaryKind::Forced => 4,
    }
}

/// Each recursive chunk ends at the strongest split point its window offers,
/// and at the last one of that kind. For the chunk `[c, e)` of kind `k`,
/// with window end `w` and minimum size `min`, and any kind `k2` and position
/// `e2` with `c < e2 <= w`, `e2 - c >= min` and a `k2` boundary at `e2`:
/// `k2` is no stronger than `k`, and when it is `k`, `e2 <= e`. A chunk that
/// is not forced ends on a boundary of its kind inside the window; a forced
/// one ends at the window end. So a sentence end is always taken before a
/// whitespace cut, a line before a sentence, a paragraph before a line.
pub proof fn law_recursive_cut_prefers_strongest_boundary(
    text: Seq<char>,
    cfg: RecursiveConfig,
    j: int,
    k2: EngBoundaryKind,
    e2: int,
)
    requires
        config_ok(cfg),
        0 <= j < recursive_spans(text, cfg).len(),
    ensures
        ({
            let t = normalize(text);
            let sp = recursive_spans(text, cfg)[j];
            let (c, e, k) = (sp.0, sp.1, sp.2);
            let w = window_end(t.len() as int, c, cfg.max_size as int);
            let min = cfg.min_size as int;
            &&& (k != EngBoundaryKind::Forced ==> c < e <= w && e - c >= min && boundary_at(t, k, e))
            &&& (k == EngBoundaryKind::Forced ==> e == w)
            &&& (c < e2 <= w && e2 - c >= min && boundary_at(t, k2, e2) ==> strength(k) <= strength(k2)
                && (k2 == k ==> e2 <= e))
        }),
{
    let t = normalize(text);
    assert(cfg.max_size > 0 && text.len() > 0);
    lemma_spans_are_split_points(t, cfg, 0);
    let sp = recursive_spans(text, cfg)[j];
    let c = sp.0;
    assert(0 <= c < t.len());
    assert(split_point(t, cfg, c) == (sp.1, sp.2));
    reveal(split_point);
    let w = window_end(t.len() as int, c, cfg.max_size as int);
    let min = cfg.min_size as int;
    if c < e2 <= w && e2 - c >= min && boundary_at(t, k2, e2) {
        assert(is_cand(t, k2, c, w, min, e2));
    }
    if has_cand(t, EngBoundaryKind::Paragraph, c, w, min) {
        lemma_best_exists(t, EngBoundaryKind::Paragraph, c, w, min);
    } else if has_cand(t, EngBoundaryKind::Line, c, w, min) {
        lemma_best_exists(t, EngBoundaryKind::Line, c, w, min);
    } else if has_cand(t, EngBoundaryKind::Sentence, c, w, min) {
        lemma_best_exists(t, EngBoundaryKind::Sentence, c, w, min);
    } else if has_cand(t, EngBoundaryKind::Whitespace, c, w, min) {
        lemma_best_exists(t, EngBoundaryKind::Whitespace, c, w, min);
    }
}

/// Every chunk span of the recursive chunker is non-empty and holds at most
/// `max_size` characters, and chunk starts strictly increase.
pub proof fn law_recursive_chunks_within_budget(text: Seq<char>, cfg: RecursiveConfig)
    requires
        config_ok(cfg),
    ensures
        ({
            let s = recursive_spans(text, cfg);
            &&& forall|j: int|
                0 <= j < s.len() ==> 0 <= (#[trigger] s[j]).0 < s[j].1 <= normalize(text).len() && s[j].1
                    - s[j].0 <= cfg.max_size
            &&& forall|j: int| 0 < j < s.len() ==> s[j - 1].0 < (#[trigger] s[j]).0
        }),
{
    if cfg.max_size > 0 && text.len() > 0 {
        lemma_spans_bounds(normalize(text), cfg, 0);
    }
}

/// Without overlap, chunks are disjoint and in order, their total length is at
/// most the length of the text, and every character left out of all chunks is
/// whitespace: no content is lost.
pub proof fn law_recursive_chunks_lose_nothing(text: Seq<char>, cfg: RecursiveConfig)
    requires
        config_ok(cfg),
        cfg.overlap == 0,
        cfg.max_size > 0,
    ensures
        ({
            let s = recursive_spans(text, cfg);
            let t = normalize(text);
            &&& forall|j: int| 0 < j < s.len() ==> s[j - 1].1 <= (#[trigger] s[j]).0
            &&& total_len(s) <= t.len() <= text.len()
            &&& forall|i: int| 0 <= i < t.len() ==> covered(s, i) || is_ws(#[trigger] t[i])
        }),
{
    lemma_normalize_shrinks(text);
    if text.len() > 0 {
        lemma_spans_disjoint(normalize(text), cfg, 0);
        lemma_spans_cover(normalize(text), cfg, 0);
    } else {
        assert(normalize(text) =~= Seq::<char>::empty());
    }
}

} // verus!

verus! {

/// Name of a size metric as written in fingerprints.
pub open spec fn metric_name(m: SizeMetric) -> Seq<char> {
    match m {
        SizeMetric::Chars => "chars"@,
        SizeMetric::Tokens => "tokens"@,
    }
}

pub fn metric_str(m: SizeMetric) -> (s: &'static str)
    ensures
        s@ == metric_name(m),
{
    match m {
        SizeMetric::Chars => "chars",
        SizeMetric::Tokens => "tokens",
    }
}

/// Fingerprint of the recursive strategy with configuration `cfg`.
pub open spec fn recursive_fingerprint(cfg: RecursiveConfig) -> Seq<char> {
    "recursive:v1|metric="@ + metric_name(cfg.metric) + "|tokenizer=chars|max="@ + decimal(
        cfg.max_size as nat,
    ) + "|min="@ + decimal(cfg.min_size as nat) + "|overlap="@ + decimal(cfg.overlap as nat)
}

/// Message of the configuration error reported for a rejected configuration.
pub open spec fn config_error_message(cfg: RecursiveConfig) -> Seq<char> {
    if cfg.min_size > cfg.max_size {
        "min_size ("@ + decimal(cfg.min_size as nat) + ") > max_size ("@ + decimal(cfg.max_size as nat)
            + ")"@
    } else {
        "overlap ("@ + decimal(cfg.overlap as nat) + ") must be < max_size ("@ + decimal(
            cfg.max_size as nat,
        ) + ")"@
    }
}

impl RecursiveConfig {
    /// Accepts the configuration exactly when [`config_ok`] holds; otherwise
    /// reports the first violated rule.
    pub fn validate(&self) -> (r: Result<(), ChunkError>)
        ensures
            r is Ok <==> config_ok(*self),
            r matches Err(e) ==> (e matches ChunkError::InvalidConfig(m) && m@ == config_error_message(*self)),
    {
        if self.min_size > self.max_size {
            let mut m = String::new();
            m.push_str("min_size (");
            push_usize(&mut m, self.min_size);
            m.push_str(") > max_size (");
            push_usize(&mut m, self.max_size);
            m.push_str(")");
            proof {
                assert(Seq::<char>::empty() + "min_size ("@ =~= "min_size ("@);
            }
            return Err(ChunkError::InvalidConfig(m));
        }
        if self.max_size > 0 && self.overlap >= self.max_size {
            let mut m = String::new();
            m.push_str("overlap (");
            push_usize(&mut m, self.overlap);
            m.push_str(") must be < max_size (");
            push_usize(&mut m, self.max_size);
            m.push_str(")");
            proof {
                assert(Seq::<char>::empty() + "overlap ("@ =~= "overlap ("@);
            }
            return Err(ChunkError::InvalidConfig(m));
        }
        Ok(())
    }
}

/// The fingerprint of the recursive strategy with configuration `cfg`.
pub fn fingerprint_for(cfg: RecursiveConfig) -> (f: StrategyFingerprint)
    ensures
        f@ == recursive_fingerprint(cfg),
{
    let mut fp = String::new();
    fp.push_str("recursive:v1|metric=");
    fp.push_str(metric_str(cfg.metric));
    fp.push_str("|tokenizer=chars|max=");
    push_usize(&mut fp, cfg.max_size);
    fp.push_str("|min=");
    push_usize(&mut fp, cfg.min_size);
    fp.push_str("|overlap=");
    push_usize(&mut fp, cfg.overlap);
    proof {
        assert(Seq::<char>::empty() + "recursive:v1|metric="@ =~= "recursive:v1|metric="@);
    }
    StrategyFingerprint::new(fp)
}

/// The recursive delimiter-based chunker.
///
/// Sizes are counted in characters; the token metric needs a tokenizer this
/// library does not ship, so construction with it is refused.
pub struct RecursiveChunker {
    cfg: RecursiveConfig,
    fingerprint: StrategyFingerprint,
}

impl RecursiveChunker {
    #[verifier::type_invariant]
    spec fn inv(self) -> bool {
        &&& config_ok(self.cfg)
        &&& self.cfg.metric == SizeMetric::Chars
        &&& self.fingerprint@ == recursive_fingerprint(self.cfg)
    }

    /// The configuration the chunker was built with.
    pub closed spec fn config(self) -> RecursiveConfig {
        self.cfg
    }

    /// Builds a chunker; fails with `InvalidConfig` when the configuration is
    /// rejected by [`RecursiveConfig::validate`], and with `Tokenizer` for the
    /// token metric.
    pub fn new(cfg: RecursiveConfig) -> (r: Result<Self, ChunkError>)
        ensures
            !config_ok(cfg) ==> (r matches Err(ChunkError::InvalidConfig(m)) && m@ == config_error_message(cfg)),
            config_ok(cfg) && cfg.metric == SizeMetric::Tokens ==> (r matches Err(e) && e is Tokenizer),
            config_ok(cfg) && cfg.metric == SizeMetric::Chars ==> (r matches Ok(c) && c.config() == cfg
                && c.fingerprint_view() == recursive_fingerprint(cfg)),
    {
        match cfg.validate() {
            Err(e) => return Err(e),
            Ok(()) => {},
        }
        match cfg.metric {
            SizeMetric::Tokens => {
                return Err(ChunkError::Tokenizer(crate::text::owned("token counting requires a tokenizer, which is not available")));
            },
            SizeMetric::Chars => {},
        }
        Ok(RecursiveChunker { cfg, fingerprint: fingerprint_for(cfg) })
    }

    /// The configuration, which is always accepted and counts characters.
    pub fn settings(&self) -> (c: RecursiveConfig)
        ensures
            c == self.config(),
            config_ok(c),
            c.metric == SizeMetric::Chars,
    {
        proof {
            use_type_invariant(self);
        }
        self.cfg
    }

    pub closed spec fn fingerprint_view(self) -> Seq<char> {
        self.fingerprint@
    }

    /// The fingerprint stamped on every document this chunker produces.
    pub fn strategy_fingerprint(&self) -> (f: &StrategyFingerprint)
        ensures
            f@ == self.fingerprint_view(),
            f@ == recursive_fingerprint(self.config()),
    {
        proof {
            use_type_invariant(self);
        }
        &self.fingerprint
    }

    /// The chunks of `text`, without a fingerprint.
    pub fn chunk_raw(&self, text: &str) -> (chunks: Vec<Chunk>)
        ensures
            chunks_are_spans(chunks@, normalize(text@), recursive_spans(text@, self.config())),
    {
        proof {
            use_type_invariant(self);
        }
        chunk_chars(text, self.cfg)
    }
}

impl Chunker for RecursiveChunker {
    open spec fn chunk_outcome(&self, text: Seq<char>, hint: ChunkHint, r: Result<ChunkedDocument, ChunkError>) -> bool {
        r matches Ok(d) && chunks_are_spans(d.chunks@, normalize(text), recursive_spans(text, self.config()))
            && d.strategy_fingerprint@ == self.fingerprint_view()
    }

    fn chunk(&self, text: &str, hint: &ChunkHint) -> (r: Result<ChunkedDocument, ChunkError>)
        ensures
            r matches Ok(d) && chunks_are_spans(d.chunks@, normalize(text@), recursive_spans(text@, self.config()))
                && d.strategy_fingerprint@ == self.fingerprint_view(),
    {
        let chunks = self.chunk_raw(text);
        Ok(ChunkedDocument { chunks, strategy_fingerprint: self.fingerprint.duplicate() })
    }
}

} // verus!
