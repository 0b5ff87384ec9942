//! Chunking a document slab by slab: content-aware chunkers cut the text at
//! structural positions, then let the recursive chunker enforce the size
//! budget inside each non-blank slab. Chunks are renumbered across slabs and
//! their byte offsets shifted to the whole text.
use vstd::prelude::*;
use crate::text::{all_ws, enc_len, lemma_enc_len_push, range_all_ws, lemma_enc_len_append, lemma_enc_len_prefix_mono, string_from_range};
use super::engine::{lemma_normalize_shrinks, normalize, EngBoundaryKind};
use super::recursive::{chunk_is_span, chunks_are_spans, map_kind, recursive_spans, RecursiveChunker, RecursiveConfig};
use super::types::Chunk;

verus! {

/// The spans of one slab `t[s..e)` (character indices): none for a blank
/// slab, else the recursive spans of its text.
pub open spec fn slab_spans(t: Seq<char>, s: int, e: int, cfg: RecursiveConfig) -> Seq<(int, int, EngBoundaryKind)> {
    if all_ws(t.subrange(s, e)) {
        Seq::empty()
    } else {
        recursive_spans(t.subrange(s, e), cfg)
    }
}

/// All chunk spans of the slabs, in order, each tagged with its slab's index.
pub open spec fn all_pieces(t: Seq<char>, slabs: Seq<(usize, usize)>, cfg: RecursiveConfig) -> Seq<(int, (int, int, EngBoundaryKind))>
    decreases slabs.len(),
{
    if slabs.len() == 0 {
        Seq::empty()
    } else {
        let j = slabs.len() - 1;
        let sp = slab_spans(t, slabs[j].0 as int, slabs[j].1 as int, cfg);
        all_pieces(t, slabs.drop_last(), cfg) + Seq::new(sp.len(), |i: int| (j, sp[i]))
    }
}

/// Chunk `ch` is piece number `idx`: span `sp` of slab `t[s..e)`, with byte
/// offsets relative to the whole text.
pub open spec fn chunk_is_piece(ch: Chunk, idx: int, t: Seq<char>, s: int, e: int, sp: (int, int, EngBoundaryKind)) -> bool {
    let u = normalize(t.subrange(s, e));
    let base = enc_len(t.take(s));
    &&& ch.index == idx
    &&& ch.text@ == u.subrange(sp.0, sp.1)
    &&& ch.boundary == map_kind(sp.2)
    &&& ch.start_byte == base + enc_len(u.take(sp.0))
    &&& ch.end_byte == base + enc_len(u.take(sp.1))
    &&& ch.char_len == sp.1 - sp.0
}

/// The chunks are exactly the pieces of the slabs, numbered from zero.
#[verifier::opaque]
pub open spec fn chunks_are_pieces(chunks: Seq<Chunk>, t: Seq<char>, slabs: Seq<(usize, usize)>, cfg: RecursiveConfig) -> bool {
    let ps = all_pieces(t, slabs, cfg);
    &&& chunks.len() == ps.len()
    &&& forall|k: int| 0 <= k < chunks.len() ==> #[trigger] chunk_is_piece(
        chunks[k],
        k,
        t,
        slabs[ps[k].0].0 as int,
        slabs[ps[k].0].1 as int,
        ps[k].1,
    )
}

proof fn lemma_pieces_prefix(t: Seq<char>, slabs: Seq<(usize, usize)>, n: int, cfg: RecursiveConfig)
    requires
        0 <= n <= slabs.len(),
    ensures
        forall|k: int| 0 <= k < all_pieces(t, slabs.take(n), cfg).len() ==> 0 <= (#[trigger] all_pieces(t, slabs.take(n), cfg)[k]).0 < n,
    decreases n,
{
    if n > 0 {
        let s2 = slabs.take(n);
        assert(s2.drop_last() =~= slabs.take(n - 1));
        lemma_pieces_prefix(t, slabs, n - 1, cfg);
        let pp = all_pieces(t, slabs.take(n - 1), cfg);
        let sp = slab_spans(t, s2[n - 1].0 as int, s2[n - 1].1 as int, cfg);
        let ps = all_pieces(t, s2, cfg);
        assert(ps == pp + Seq::new(sp.len(), |i: int| (n - 1, sp[i])));
        assert forall|k: int| 0 <= k < ps.len() implies 0 <= (#[trigger] ps[k]).0 < n by {
            if k < pp.len() {
                assert(ps[k] == pp[k]);
            }
        }
    }
}

/// Appends the pieces of the non-blank slab `t[s..e)` (text `slab`).
fn push_slab(
    out: &mut Vec<Chunk>,
    inner: &RecursiveChunker,
    slab: &String,
    base: usize,
    top: usize,
    Ghost(t): Ghost<Seq<char>>,
    Ghost(s): Ghost<int>,
    Ghost(e): Ghost<int>,
)
    requires
        0 <= s <= e <= t.len(),
        slab@ == t.subrange(s, e),
        !all_ws(slab@),
        base == enc_len(t.take(s)),
        top == enc_len(t.take(e)),
    ensures
        final(out)@.len() == old(out)@.len() + recursive_spans(slab@, inner.config()).len(),
        forall|k: int| 0 <= k < old(out)@.len() ==> final(out)@[k] == old(out)@[k],
        forall|i: int| 0 <= i < recursive_spans(slab@, inner.config()).len() ==> #[trigger] chunk_is_piece(
            final(out)@[old(out)@.len() + i], old(out)@.len() + i, t, s, e, recursive_spans(slab@, inner.config())[i]),
{
    let cfg = inner.settings();
    let inner_chunks = inner.chunk_raw(slab.as_str());
    let ghost u = normalize(slab@);
    let ghost spans = recursive_spans(slab@, cfg);
    let ghost before = out@;
    proof {
        reveal(chunks_are_spans);
        lemma_normalize_shrinks(slab@);
        lemma_enc_len_append(t.take(s), t.subrange(s, e));
        assert(t.take(s) + t.subrange(s, e) =~= t.take(e));
        super::recursive::law_recursive_chunks_within_budget(slab@, cfg);
    }
    let mut m: usize = 0;
    while m < inner_chunks.len()
        invariant
            m <= inner_chunks@.len(),
            inner_chunks@.len() == spans.len(),
            forall|i: int| 0 <= i < inner_chunks@.len() ==> #[trigger] chunk_is_span(inner_chunks@[i], i, u, spans[i]),
            forall|i: int| 0 <= i < spans.len() ==> 0 <= (#[trigger] spans[i]).0 < spans[i].1 <= u.len(),
            base == enc_len(t.take(s)),
            base + enc_len(u) <= top,
            u == normalize(t.subrange(s, e)),
            out@.len() == before.len() + m,
            forall|k: int| 0 <= k < before.len() ==> out@[k] == before[k],
            forall|i: int| 0 <= i < m ==> #[trigger] chunk_is_piece(out@[before.len() + i], before.len() + i, t, s, e, spans[i]),
        decreases inner_chunks@.len() - m,
    {
        let ch = &inner_chunks[m];
        proof {
            assert(chunk_is_span(inner_chunks@[m as int], m as int, u, spans[m as int]));
            assert(0 <= spans[m as int].0 < spans[m as int].1 <= u.len());
            lemma_enc_len_prefix_mono(u, spans[m as int].0, spans[m as int].1);
        }
        out.push(Chunk {
            index: out.len(),
            text: ch.text.clone(),
            boundary: ch.boundary,
            start_byte: base + ch.start_byte,
            end_byte: base + ch.end_byte,
            char_len: ch.char_len,
        });
        m += 1;
    }
}

proof fn lemma_extend_pieces(
    before: Seq<Chunk>,
    after: Seq<Chunk>,
    t: Seq<char>,
    prev: Seq<(usize, usize)>,
    s: int,
    e: int,
    cfg: RecursiveConfig,
)
    requires
        chunks_are_pieces(before, t, prev, cfg),
        0 <= s <= e <= t.len(),
        s <= usize::MAX,
        e <= usize::MAX,
        forall|k: int| 0 <= k < all_pieces(t, prev, cfg).len() ==> 0 <= (#[trigger] all_pieces(t, prev, cfg)[k]).0 < prev.len(),
        after.len() == before.len() + slab_spans(t, s, e, cfg).len(),
        forall|k: int| 0 <= k < before.len() ==> after[k] == before[k],
        forall|i: int| 0 <= i < slab_spans(t, s, e, cfg).len() ==> #[trigger] chunk_is_piece(
            after[before.len() + i], before.len() + i, t, s, e, slab_spans(t, s, e, cfg)[i]),
    ensures
        chunks_are_pieces(after, t, prev.push((s as usize, e as usize)), cfg),
{
    reveal(chunks_are_pieces);
    let next = prev.push((s as usize, e as usize));
    let j = prev.len() as int;
    let ps = all_pieces(t, next, cfg);
    let pp = all_pieces(t, prev, cfg);
    let sp = slab_spans(t, s, e, cfg);
    assert(next.drop_last() =~= prev);
    assert(ps == pp + Seq::new(sp.len(), |i: int| (j, sp[i])));
    assert forall|k: int| 0 <= k < after.len() implies #[trigger] chunk_is_piece(
        after[k], k, t, next[ps[k].0].0 as int, next[ps[k].0].1 as int, ps[k].1) by {
        if k < before.len() {
            assert(ps[k] == pp[k]);
            assert(chunk_is_piece(before[k], k, t, prev[pp[k].0].0 as int, prev[pp[k].0].1 as int, pp[k].1));
            assert(next[pp[k].0] == prev[pp[k].0]);
        } else {
            let i = k - before.len();
            assert(ps[k] == (j, sp[i]));
            assert(next[j] == (s as usize, e as usize));
            assert(chunk_is_piece(after[before.len() + i], before.len() + i, t, s, e, sp[i]));
        }
    }
}

fn process_slab(
    out: &mut Vec<Chunk>,
    inner: &RecursiveChunker,
    chars: &Vec<char>,
    offs: &Vec<usize>,
    s: usize,
    e: usize,
    Ghost(prev): Ghost<Seq<(usize, usize)>>,
)
    requires
        offs@.len() == chars@.len() + 1,
        forall|i: int| 0 <= i <= chars@.len() ==> #[trigger] offs@[i] == enc_len(chars@.take(i)),
        s <= e <= chars@.len(),
        chunks_are_pieces(old(out)@, chars@, prev, inner.config()),
        forall|k: int| 0 <= k < all_pieces(chars@, prev, inner.config()).len() ==> 0 <= (#[trigger] all_pieces(chars@, prev, inner.config())[k]).0 < prev.len(),
    ensures
        chunks_are_pieces(final(out)@, chars@, prev.push((s, e)), inner.config()),
{
    let ghost t = chars@;
    let ghost before = out@;
    let base = offs[s];
    let top = offs[e];
    if !range_all_ws(chars, s, e) {
        let slab = string_from_range(chars, s, e);
        push_slab(out, inner, &slab, base, top, Ghost(t), Ghost(s as int), Ghost(e as int));
    }
    proof {
        lemma_extend_pieces(before, out@, t, prev, s as int, e as int, inner.config());
    }
}

/// The chunks of all non-blank slabs, renumbered and shifted. `chars` are
/// the text's characters and `offs[i]` the byte offset of character `i`.
pub fn chunk_slabs(inner: &RecursiveChunker, chars: &Vec<char>, offs: &Vec<usize>, slabs: &Vec<(usize, usize)>) -> (out: Vec<Chunk>)
    requires
        offs@.len() == chars@.len() + 1,
        forall|i: int| 0 <= i <= chars@.len() ==> #[trigger] offs@[i] == enc_len(chars@.take(i)),
        forall|k: int| 0 <= k < slabs@.len() ==> (#[trigger] slabs@[k]).0 <= slabs@[k].1 <= chars@.len(),
    ensures
        chunks_are_pieces(out@, chars@, slabs@, inner.config()),
{
    let ghost cfg = inner.config();
    let ghost t = chars@;
    let mut out: Vec<Chunk> = Vec::new();
    let mut j: usize = 0;
    proof {
        assert(slabs@.take(0) =~= Seq::<(usize, usize)>::empty());
        reveal(chunks_are_pieces);
    }
    while j < slabs.len()
        invariant
            j <= slabs@.len(),
            t == chars@,
            cfg == inner.config(),
            offs@.len() == t.len() + 1,
            forall|i: int| 0 <= i <= t.len() ==> #[trigger] offs@[i] == enc_len(t.take(i)),
            forall|k: int| 0 <= k < slabs@.len() ==> (#[trigger] slabs@[k]).0 <= slabs@[k].1 <= t.len(),
            chunks_are_pieces(out@, t, slabs@.take(j as int), cfg),
        decreases slabs@.len() - j,
    {
        let (s, e) = slabs[j];
        proof {
            lemma_pieces_prefix(t, slabs@, j as int, cfg);
            assert(slabs@.take(j + 1) == slabs@.take(j as int).push((s, e)));
        }
        process_slab(&mut out, inner, chars, offs, s, e, Ghost(slabs@.take(j as int)));
        j += 1;
    }
    proof {
        assert(slabs@.take(slabs@.len() as int) =~= slabs@);
    }
    out
}

pub proof fn lemma_offsets_strictly_increase(t: Seq<char>, i: int, j: int)
    requires
        0 <= i < j <= t.len(),
    ensures
        enc_len(t.take(i)) < enc_len(t.take(j)),
    decreases j - i,
{
    lemma_enc_len_push(t.take(j - 1), t[j - 1]);
    assert(t.take(j - 1).push(t[j - 1]) =~= t.take(j));
    if i < j - 1 {
        lemma_offsets_strictly_increase(t, i, j - 1);
    }
}

/// The character position whose byte offset is `b`, if `b` is a character
/// boundary.
pub fn char_index_of(offs: &Vec<usize>, b: usize, Ghost(t): Ghost<Seq<char>>) -> (r: Option<usize>)
    requires
        offs@.len() == t.len() + 1,
        forall|i: int| 0 <= i <= t.len() ==> #[trigger] offs@[i] == enc_len(t.take(i)),
    ensures
        r matches Some(i) ==> i <= t.len() && enc_len(t.take(i as int)) == b,
        r is None ==> forall|i: int| 0 <= i <= t.len() ==> enc_len(t.take(i)) != b,
{
    let mut lo: usize = 0;
    let mut hi: usize = offs.len();
    while lo < hi
        invariant
            0 <= lo <= hi <= offs@.len() == t.len() + 1,
            forall|i: int| 0 <= i <= t.len() ==> #[trigger] offs@[i] == enc_len(t.take(i)),
            forall|i: int| 0 <= i < lo ==> enc_len(t.take(i)) < b,
            forall|i: int| hi <= i <= t.len() ==> enc_len(t.take(i)) > b,
        decreases hi - lo,
    {
        let mid = lo + (hi - lo) / 2;
        if offs[mid] == b {
            return Some(mid);
        } else if offs[mid] < b {
            proof {
                assert forall|i: int| 0 <= i < mid + 1 implies enc_len(t.take(i)) < b by {
                    if i < mid {
                        lemma_offsets_strictly_increase(t, i, mid as int);
                    }
                }
            }
            lo = mid + 1;
        } else {
            proof {
                assert forall|i: int| mid <= i <= t.len() implies enc_len(t.take(i)) > b by {
                    if i > mid {
                        lemma_offsets_strictly_increase(t, mid as int, i);
                    }
                }
            }
            hi = mid;
        }
    }
    None
}

} // verus!
