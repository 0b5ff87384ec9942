//! Markdown-aware chunker: headings, paragraphs and fenced code blocks give
//! strong cut points; the slabs between them are handed to the recursive
//! chunker to enforce the size budget.
use vstd::prelude::*;
use pulldown_cmark::{Event, Parser, Tag, TagEnd};
use crate::text::{chars_of, decimal, enc_len, lemma_enc_len_push, prefix_byte_offsets, push_usize};
use super::recursive::{config_error_message, config_ok, metric_name, metric_str, RecursiveChunker, RecursiveConfig};
use super::slabs::{char_index_of, chunk_slabs, chunks_are_pieces, lemma_offsets_strictly_increase};
use super::types::{ChunkError, ChunkHint, ChunkedDocument, SizeMetric, StrategyFingerprint};
use super::Chunker;

verus! {

/// The markdown events the chunker distinguishes.
#[derive(Debug, Clone, Copy, PartialEq, Eq, Structural)]
pub enum MdEventKind {
    HeadingStart,
    HeadingEnd,
    ParagraphEnd,
    CodeBlockEnd,
    Other,
}

/// A parser event with the byte range of the source it covers.
#[derive(Debug, Clone, Copy, PartialEq, Eq)]
pub struct MdEvent {
    pub kind: MdEventKind,
    pub start: usize,
    pub end: usize,
}

/// Name for the events, in order, that `pulldown_cmark` reports for `text`
/// (default options), one per event.
pub uninterp spec fn markdown_events(text: Seq<char>) -> Seq<MdEvent>;

/// Runs `pulldown_cmark::Parser::new(text).into_offset_iter()` and converts
/// each event to its kind and byte range, one for one. The events depend on
/// the text alone.
#[verifier::external_body]
fn markdown_event_spans(text: &str) -> (r: Vec<MdEvent>)
    ensures
        r@ == markdown_events(text@),
{
    let mut out = Vec::new();
    for (event, range) in Parser::new(text).into_offset_iter() {
        let kind = match event {
            Event::Start(Tag::Heading { .. }) => MdEventKind::HeadingStart,
            Event::End(TagEnd::Heading(_)) => MdEventKind::HeadingEnd,
            Event::End(TagEnd::Paragraph) => MdEventKind::ParagraphEnd,
            Event::End(TagEnd::CodeBlock) => MdEventKind::CodeBlockEnd,
            _ => MdEventKind::Other,
        };
        out.push(MdEvent { kind, start: range.start, end: range.end });
    }
    out
}

/// The byte offset at which an event makes a boundary: the start of a
/// heading, the end of a heading, paragraph or code block.
pub open spec fn event_offset(ev: MdEvent) -> Option<int> {
    match ev.kind {
        MdEventKind::HeadingStart => Some(ev.start as int),
        MdEventKind::HeadingEnd => Some(ev.end as int),
        MdEventKind::ParagraphEnd => Some(ev.end as int),
        MdEventKind::CodeBlockEnd => Some(ev.end as int),
        MdEventKind::Other => None,
    }
}

/// Character position `i` of `t` is a markdown boundary: its byte offset is
/// the start or the end of the text, or an event boundary.
pub open spec fn md_boundary(t: Seq<char>, i: int) -> bool {
    let b = enc_len(t.take(i));
    &&& 0 <= i <= t.len()
    &&& (b == 0 || b == enc_len(t) || exists|k: int| 0 <= k < markdown_events(t).len()
        && #[trigger] event_offset(markdown_events(t)[k]) == Some(b as int))
}

/// `y` occurs in `v`.
pub open spec fn listed(v: Seq<usize>, y: int) -> bool {
    exists|k: int| 0 <= k < v.len() && (#[trigger] v[k]) == y
}

/// `bs` lists the boundaries of `t` in strictly increasing order.
pub open spec fn boundary_list(bs: Seq<usize>, t: Seq<char>) -> bool {
    &&& forall|a: int, b: int| 0 <= a < b < bs.len() ==> (#[trigger] bs[a]) < (#[trigger] bs[b])
    &&& forall|i: int| md_boundary(t, i) <==> #[trigger] listed(bs, i)
}

/// Consecutive boundaries as slabs.
pub open spec fn windows(bs: Seq<usize>) -> Seq<(usize, usize)> {
    Seq::new(if bs.len() > 0 { (bs.len() - 1) as nat } else { 0 }, |i: int| (bs[i], bs[i + 1]))
}

/// The fingerprint of the markdown strategy with configuration `cfg`.
pub open spec fn markdown_fingerprint(cfg: RecursiveConfig) -> Seq<char> {
    "markdown:v1|metric="@ + metric_name(cfg.metric) + "|max="@ + decimal(cfg.max_size as nat) + "|min="@
        + decimal(cfg.min_size as nat) + "|overlap="@ + decimal(cfg.overlap as nat)
}

/// Inserts `x` into the strictly increasing `v`, keeping it strictly increasing.
fn insert_sorted(v: &mut Vec<usize>, x: usize)
    requires
        forall|a: int, b: int| 0 <= a < b < old(v)@.len() ==> (#[trigger] old(v)@[a]) < (#[trigger] old(v)@[b]),
    ensures
        forall|a: int, b: int| 0 <= a < b < final(v)@.len() ==> (#[trigger] final(v)@[a]) < (#[trigger] final(v)@[b]),
        forall|y: int| #[trigger] listed(final(v)@, y) <==> (y == x || listed(old(v)@, y)),
{
    let ghost old_v = v@;
    let mut pos: usize = 0;
    while pos < v.len() && v[pos] < x
        invariant
            pos <= v@.len(),
            v@ == old_v,
            forall|k: int| 0 <= k < pos ==> (#[trigger] v@[k]) < x,
        decreases v@.len() - pos,
    {
        pos += 1;
    }
    if pos < v.len() && v[pos] == x {
        assert forall|y: int| #[trigger] listed(v@, y) <==> (y == x || listed(old_v, y)) by {
            if y == x {
                assert(v@[pos as int] == y);
            }
        }
        return;
    }
    proof {
        assert forall|k: int| pos <= k < old_v.len() implies (#[trigger] old_v[k]) > x by {
            if k > pos {
                assert(old_v[pos as int] < old_v[k]);
            }
        }
    }
    v.insert(pos, x);
    proof {
        assert forall|a: int, b: int| 0 <= a < b < v@.len() implies (#[trigger] v@[a]) < (#[trigger] v@[b]) by {
            let a0 = if a < pos { a } else { a - 1 };
            let b0 = if b < pos { b } else { b - 1 };
            if a == pos {
                assert(v@[b] == old_v[b0]);
            } else if b == pos {
                assert(v@[a] == old_v[a0]);
            } else {
                assert(v@[a] == old_v[a0]);
                assert(v@[b] == old_v[b0]);
            }
        }
        assert forall|y: int| #[trigger] listed(v@, y) <==> (y == x || listed(old_v, y)) by {
            if y == x {
                assert(v@[pos as int] == y);
            } else if listed(old_v, y) {
                let k = choose|k: int| 0 <= k < old_v.len() && (#[trigger] old_v[k]) == y;
                if k < pos {
                    assert(v@[k] == y);
                } else {
                    assert(v@[k + 1] == y);
                }
            }
            if listed(v@, y) {
                let k = choose|k: int| 0 <= k < v@.len() && (#[trigger] v@[k]) == y;
                if k < pos {
                    assert(old_v[k] == y);
                } else if k > pos {
                    assert(old_v[k - 1] == y);
                }
            }
        }
    }
}

/// The markdown boundaries of the text, as character positions in
/// increasing order.
fn collect_boundaries(text: &str, offs: &Vec<usize>, Ghost(t): Ghost<Seq<char>>) -> (bs: Vec<usize>)
    requires
        t == text@,
        offs@.len() == t.len() + 1,
        forall|i: int| 0 <= i <= t.len() ==> #[trigger] offs@[i] == enc_len(t.take(i)),
    ensures
        boundary_list(bs@, t),
{
    let events = markdown_event_spans(text);
    let n = offs.len() - 1;
    let mut bs: Vec<usize> = Vec::new();
    insert_sorted(&mut bs, 0);
    insert_sorted(&mut bs, n);
    proof {
        assert(t.take(0) =~= Seq::<char>::empty());
        assert(t.take(t.len() as int) =~= t);
        assert(md_boundary(t, 0));
        assert(md_boundary(t, n as int));
        assert(listed(bs@, 0));
        assert(listed(bs@, n as int));
        assert forall|m: int| 0 <= m < bs@.len() implies #[trigger] md_boundary(t, bs@[m] as int) by {
            assert(listed(bs@, bs@[m] as int));
        }
        assert forall|i: int| 0 <= i <= t.len() && (enc_len(t.take(i)) == 0 || enc_len(t.take(i)) == enc_len(t)
            || exists|j: int| 0 <= j < 0 && #[trigger] event_offset(events@[j]) == Some(enc_len(t.take(i)) as int))
            implies #[trigger] listed(bs@, i) by {
            if i > 0 && enc_len(t.take(i)) == 0 {
                lemma_offsets_strictly_increase(t, 0, i);
            }
            if i < t.len() && enc_len(t.take(i)) == enc_len(t) {
                lemma_offsets_strictly_increase(t, i, t.len() as int);
            }
        }
    }
    let mut k: usize = 0;
    while k < events.len()
        invariant
            k <= events@.len(),
            events@ == markdown_events(t),
            n == t.len(),
            offs@.len() == t.len() + 1,
            forall|i: int| 0 <= i <= t.len() ==> #[trigger] offs@[i] == enc_len(t.take(i)),
            forall|a: int, b: int| 0 <= a < b < bs@.len() ==> (#[trigger] bs@[a]) < (#[trigger] bs@[b]),
            forall|m: int| 0 <= m < bs@.len() ==> #[trigger] md_boundary(t, bs@[m] as int),
            forall|i: int| 0 <= i <= t.len() && (enc_len(t.take(i)) == 0 || enc_len(t.take(i)) == enc_len(t)
                || exists|j: int| 0 <= j < k && #[trigger] event_offset(events@[j]) == Some(enc_len(t.take(i)) as int))
                ==> #[trigger] listed(bs@, i),
        decreases events@.len() - k,
    {
        let ev = events[k];
        let off: Option<usize> = match ev.kind {
            MdEventKind::HeadingStart => Some(ev.start),
            MdEventKind::HeadingEnd => Some(ev.end),
            MdEventKind::ParagraphEnd => Some(ev.end),
            MdEventKind::CodeBlockEnd => Some(ev.end),
            MdEventKind::Other => None,
        };
        let ghost before = bs@;
        let ghost mut inserted: Option<usize> = None;
        match off {
            Some(b) => {
                match char_index_of(offs, b, Ghost(t)) {
                    Some(i) => {
                        insert_sorted(&mut bs, i);
                        proof {
                            inserted = Some(i);
                            assert(event_offset(markdown_events(t)[k as int]) == Some(enc_len(t.take(i as int)) as int));
                            assert(md_boundary(t, i as int));
                        }
                    },
                    None => {},
                }
            },
            None => {},
        }
        proof {
            assert(forall|y: int| #[trigger] listed(bs@, y) <==> ((inserted is Some && y == inserted->Some_0) || listed(before, y)));
            assert forall|m: int| 0 <= m < bs@.len() implies #[trigger] md_boundary(t, bs@[m] as int) by {
                let y = bs@[m] as int;
                assert(listed(bs@, y));
                if !(inserted is Some && y == inserted->Some_0) {
                    let q = choose|q: int| 0 <= q < before.len() && (#[trigger] before[q]) == y;
                    assert(md_boundary(t, before[q] as int));
                }
            }
            assert forall|i: int| 0 <= i <= t.len() && (enc_len(t.take(i)) == 0 || enc_len(t.take(i)) == enc_len(t)
                || exists|j: int| 0 <= j < k + 1 && #[trigger] event_offset(events@[j]) == Some(enc_len(t.take(i)) as int))
                implies #[trigger] listed(bs@, i) by {
                if enc_len(t.take(i)) == 0 || enc_len(t.take(i)) == enc_len(t)
                    || exists|j: int| 0 <= j < k && #[trigger] event_offset(events@[j]) == Some(enc_len(t.take(i)) as int) {
                    assert(listed(before, i));
                } else {
                    assert(event_offset(events@[k as int]) == Some(enc_len(t.take(i)) as int));
                    assert(inserted is Some && inserted->Some_0 == i) by {
                        if inserted is None {
                            assert(off == Some(enc_len(t.take(i)) as usize));
                        } else {
                            let x = inserted->Some_0;
                            if x as int != i {
                                if x < i {
                                    lemma_offsets_strictly_increase(t, x as int, i);
                                } else {
                                    lemma_offsets_strictly_increase(t, i, x as int);
                                }
                            }
                        }
                    }
                }
            }
        }
        k += 1;
    }
    proof {
        assert forall|i: int| md_boundary(t, i) <==> #[trigger] listed(bs@, i) by {
            if listed(bs@, i) {
                let m = choose|m: int| 0 <= m < bs@.len() && (#[trigger] bs@[m]) == i;
                assert(md_boundary(t, bs@[m] as int));
            }
        }
    }
    bs
}

/// Headings, paragraphs and fenced code blocks are hard cuts: for every
/// heading start, heading end, paragraph end and code-block end that
/// pulldown-cmark reports, the character position at its byte offset is in
/// any boundary list of the text, so no slab between consecutive boundaries
/// reaches across it.
pub proof fn law_markdown_structure_is_cut(bs: Seq<usize>, t: Seq<char>, k: int, i: int)
    requires
        boundary_list(bs, t),
        0 <= k < markdown_events(t).len(),
        0 <= i <= t.len(),
        ({
            let ev = markdown_events(t)[k];
            ||| ev.kind == MdEventKind::HeadingStart && enc_len(t.take(i)) == ev.start
            ||| ev.kind == MdEventKind::HeadingEnd && enc_len(t.take(i)) == ev.end
            ||| ev.kind == MdEventKind::ParagraphEnd && enc_len(t.take(i)) == ev.end
            ||| ev.kind == MdEventKind::CodeBlockEnd && enc_len(t.take(i)) == ev.end
        }),
    ensures
        listed(bs, i),
        forall|w: int| 0 <= w < windows(bs).len() ==> !((#[trigger] windows(bs)[w]).0 < i < windows(bs)[w].1),
{
    assert(event_offset(markdown_events(t)[k]) == Some(enc_len(t.take(i)) as int));
    assert(md_boundary(t, i));
    assert(listed(bs, i));
    let m = choose|m: int| 0 <= m < bs.len() && (#[trigger] bs[m]) == i;
    assert forall|w: int| 0 <= w < windows(bs).len() implies !((#[trigger] windows(bs)[w]).0 < i < windows(bs)[w].1) by {
        assert(windows(bs)[w] == (bs[w], bs[w + 1]));
        if bs[w] < i && i < bs[w + 1] {
            if m <= w {
                if m < w {
                    assert(bs[m] < bs[w]);
                }
            } else if m >= w + 1 {
                if m > w + 1 {
                    assert(bs[w + 1] < bs[m]);
                }
            }
        }
    }
}

/// The markdown fingerprint of configuration `cfg`.
pub fn markdown_fingerprint_for(cfg: RecursiveConfig) -> (f: StrategyFingerprint)
    ensures
        f@ == markdown_fingerprint(cfg),
{
    let mut fp = String::new();
    fp.push_str("markdown:v1|metric=");
    fp.push_str(metric_str(cfg.metric));
    fp.push_str("|max=");
    push_usize(&mut fp, cfg.max_size);
    fp.push_str("|min=");
    push_usize(&mut fp, cfg.min_size);
    fp.push_str("|overlap=");
    push_usize(&mut fp, cfg.overlap);
    proof {
        assert(Seq::<char>::empty() + "markdown:v1|metric="@ =~= "markdown:v1|metric="@);
    }
    StrategyFingerprint::new(fp)
}

/// The markdown-aware chunker.
pub struct MarkdownChunker {
    inner: RecursiveChunker,
    fingerprint: StrategyFingerprint,
}

/// `chunks` are the markdown chunks of `t`: the recursive pieces of the
/// slabs between consecutive markdown boundaries.
pub open spec fn markdown_chunks(chunks: Seq<super::types::Chunk>, t: Seq<char>, cfg: RecursiveConfig) -> bool {
    exists|bs: Seq<usize>| boundary_list(bs, t) && chunks_are_pieces(chunks, t, windows(bs), cfg)
}

impl MarkdownChunker {
    #[verifier::type_invariant]
    spec fn inv(self) -> bool {
        self.fingerprint@ == markdown_fingerprint(self.inner.config())
    }

    pub closed spec fn config(self) -> RecursiveConfig {
        self.inner.config()
    }

    /// Builds the chunker; the configuration is checked as for
    /// [`RecursiveChunker::new`].
    pub fn new(config: RecursiveConfig) -> (r: Result<Self, ChunkError>)
        ensures
            !config_ok(config) ==> (r matches Err(ChunkError::InvalidConfig(m)) && m@ == config_error_message(config)),
            config_ok(config) && config.metric == SizeMetric::Tokens ==> (r matches Err(e) && e is Tokenizer),
            config_ok(config) && config.metric == SizeMetric::Chars ==> (r matches Ok(c) && c.config() == config),
    {
        let inner = match RecursiveChunker::new(config) {
            Ok(c) => c,
            Err(e) => return Err(e),
        };
        Ok(MarkdownChunker { inner, fingerprint: markdown_fingerprint_for(config) })
    }

    /// The fingerprint stamped on the documents this chunker produces.
    pub fn fingerprint(&self) -> (f: &StrategyFingerprint)
        ensures
            f@ == markdown_fingerprint(self.config()),
    {
        proof {
            use_type_invariant(self);
        }
        &self.fingerprint
    }

    /// The boundaries of `text` as character positions, see [`boundary_list`].
    pub fn collect_boundaries(&self, text: &str) -> (bs: Vec<usize>)
        ensures
            boundary_list(bs@, text@),
    {
        let chars = chars_of(text);
        let offs = prefix_byte_offsets(&chars, text.as_bytes().len());
        collect_boundaries(text, &offs, Ghost(text@))
    }
}

impl Chunker for MarkdownChunker {
    open spec fn chunk_outcome(&self, text: Seq<char>, hint: ChunkHint, r: Result<ChunkedDocument, ChunkError>) -> bool {
        r matches Ok(d) && d.strategy_fingerprint@ == markdown_fingerprint(self.config()) && (text.len() == 0 ==> d.chunks@.len()
            == 0) && (text.len() > 0 ==> markdown_chunks(d.chunks@, text, self.config()))
    }

    fn chunk(&self, text: &str, hint: &ChunkHint) -> (r: Result<ChunkedDocument, ChunkError>)
        ensures
            r matches Ok(d) && d.strategy_fingerprint@ == markdown_fingerprint(self.config())
                && (text@.len() == 0 ==> d.chunks@.len() == 0)
                && (text@.len() > 0 ==> markdown_chunks(d.chunks@, text@, self.config())),
    {
        proof {
            use_type_invariant(self);
        }
        let fingerprint = self.fingerprint.duplicate();
        if text.is_empty() {
            return Ok(ChunkedDocument { chunks: Vec::new(), strategy_fingerprint: fingerprint });
        }
        let chars = chars_of(text);
        let offs = prefix_byte_offsets(&chars, text.as_bytes().len());
        let bs = collect_boundaries(text, &offs, Ghost(text@));
        let mut slabs: Vec<(usize, usize)> = Vec::new();
        let mut i: usize = 1;
        proof {
            assert(md_boundary(chars@, 0)) by {
                assert(chars@.take(0) =~= Seq::<char>::empty());
                crate::transform::chunker::engine::lemma_enc_len_empty();
            }
            assert(listed(bs@, 0));
            assert(windows(bs@).take(0) =~= Seq::<(usize, usize)>::empty());
        }
        while i < bs.len()
            invariant
                1 <= i <= bs@.len(),
                boundary_list(bs@, chars@),
                slabs@ == windows(bs@).take(i - 1),
            decreases bs@.len() - i,
        {
            slabs.push((bs[i - 1], bs[i]));
            assert(windows(bs@).take(i as int) =~= windows(bs@).take(i - 1).push((bs@[i - 1], bs@[i as int])));
            i += 1;
        }
        proof {
            assert(slabs@ =~= windows(bs@));
            assert forall|k: int| 0 <= k < slabs@.len() implies (#[trigger] slabs@[k]).0 <= slabs@[k].1 <= chars@.len() by {
                assert(md_boundary(chars@, bs@[k + 1] as int)) by {
                    assert(listed(bs@, bs@[k + 1] as int));
                }
            }
        }
        let chunks = chunk_slabs(&self.inner, &chars, &offs, &slabs);
        Ok(ChunkedDocument { chunks, strategy_fingerprint: fingerprint })
    }
}

} // verus!
