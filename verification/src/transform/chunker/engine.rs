//! Boundary detection shared by the delimiter-based chunkers.
//!
//! Text is first normalized (`\r\n` and lone `\r` become `\n`); candidate
//! split points are then classified by strength: paragraph break, line break,
//! sentence end, whitespace, and finally a forced cut at the size budget.
use vstd::prelude::*;
use crate::text::{char_width, enc_len, is_whitespace, is_ws, lemma_enc_len_append, lemma_enc_len_push};

verus! {

/// Strength of a candidate split point.
#[derive(Debug, Clone, Copy, PartialEq, Eq, Structural)]
pub enum EngBoundaryKind {
    Paragraph,
    Line,
    Sentence,
    Whitespace,
    Forced,
}

/// A candidate split point: the chunk would end (exclusively) at char index `end`.
#[derive(Debug, Clone, Copy)]
pub struct Boundary {
    pub end: usize,
    pub kind: EngBoundaryKind,
}

/// Newline normalization: `\r\n` and a lone `\r` both become `\n`.
pub open spec fn normalize(s: Seq<char>) -> Seq<char>
    decreases s.len(),
{
    if s.len() == 0 {
        Seq::empty()
    } else if s[0] == '\r' {
        if s.len() > 1 && s[1] == '\n' {
            seq!['\n'] + normalize(s.skip(2))
        } else {
            seq!['\n'] + normalize(s.skip(1))
        }
    } else {
        seq![s[0]] + normalize(s.skip(1))
    }
}

pub proof fn lemma_enc_len_first(s: Seq<char>)
    requires
        s.len() > 0,
    ensures
        enc_len(s) == char_width(s[0]) + enc_len(s.skip(1)),
{
    lemma_enc_len_append(seq![s[0]], s.skip(1));
    assert(seq![s[0]] + s.skip(1) =~= s);
    lemma_enc_len_push(Seq::<char>::empty(), s[0]);
    assert(Seq::<char>::empty().push(s[0]) =~= seq![s[0]]);
    assert(encode_utf8_empty_len());
}

pub open spec fn encode_utf8_empty_len() -> bool {
    enc_len(Seq::<char>::empty()) == 0
}

pub proof fn lemma_enc_len_empty()
    ensures
        enc_len(Seq::<char>::empty()) == 0,
{
    assert(vstd::utf8::encode_utf8(Seq::<char>::empty()) =~= Seq::<u8>::empty());
}

/// Normalization never lengthens the text, in characters or in UTF-8 bytes.
pub proof fn lemma_normalize_shrinks(s: Seq<char>)
    ensures
        normalize(s).len() <= s.len(),
        enc_len(normalize(s)) <= enc_len(s),
    decreases s.len(),
{
    lemma_enc_len_empty();
    if s.len() == 0 {
    } else {
        lemma_enc_len_first(s);
        if s[0] == '\r' && s.len() > 1 && s[1] == '\n' {
            lemma_normalize_shrinks(s.skip(2));
            lemma_enc_len_first(s.skip(1));
            assert(s.skip(1).skip(1) =~= s.skip(2));
            assert(s.skip(1)[0] == '\n');
            lemma_enc_len_append(seq!['\n'], normalize(s.skip(2)));
            lemma_enc_len_push(Seq::<char>::empty(), '\n');
            assert(Seq::<char>::empty().push('\n') =~= seq!['\n']);
        } else if s[0] == '\r' {
            lemma_normalize_shrinks(s.skip(1));
            lemma_enc_len_append(seq!['\n'], normalize(s.skip(1)));
            lemma_enc_len_push(Seq::<char>::empty(), '\n');
            assert(Seq::<char>::empty().push('\n') =~= seq!['\n']);
        } else {
            lemma_normalize_shrinks(s.skip(1));
            lemma_enc_len_append(seq![s[0]], normalize(s.skip(1)));
            lemma_enc_len_push(Seq::<char>::empty(), s[0]);
            assert(Seq::<char>::empty().push(s[0]) =~= seq![s[0]]);
        }
    }
}

/// The newline-normalized characters of `s`.
pub fn normalize_newlines(s: &Vec<char>) -> (out: Vec<char>)
    ensures
        out@ == normalize(s@),
{
    let n = s.len();
    let mut out: Vec<char> = Vec::new();
    let mut i: usize = 0;
    assert(s@.skip(0) =~= s@);
    assert(out@ + normalize(s@.skip(0)) =~= normalize(s@));
    while i < n
        invariant
            n == s@.len(),
            i <= n,
            out@ + normalize(s@.skip(i as int)) == normalize(s@),
        decreases n - i,
    {
        let ghost rest = s@.skip(i as int);
        let c = s[i];
        assert(rest[0] == c);
        if c == '\r' {
            out.push('\n');
            if i + 1 < n && s[i + 1] == '\n' {
                assert(rest[1] == '\n');
                assert(rest.skip(2) =~= s@.skip(i + 2));
                i += 2;
            } else {
                assert(rest.skip(1) =~= s@.skip(i + 1));
                i += 1;
            }
        } else {
            out.push(c);
            assert(rest.skip(1) =~= s@.skip(i + 1));
            i += 1;
        }
        proof {
            assert(out@ + normalize(s@.skip(i as int)) =~= normalize(s@));
        }
    }
    assert(s@.skip(n as int) =~= Seq::<char>::empty());
    assert(out@ + normalize(Seq::<char>::empty()) =~= out@);
    out
}

/// Characters that end a sentence when followed by whitespace or the end of text.
pub open spec fn is_sentence_punct(c: char) -> bool {
    c == '.' || c == '!' || c == '?'
}

/// `e` is a split point of kind `k` in `t` (the chunk ends before index `e`).
///
/// * paragraph: `t[e..e+2] == "\n\n"`
/// * line: `t[e] == '\n'`
/// * sentence: `t[e-1]` is `.`, `!` or `?` and `t[e]` is whitespace or the end
/// * whitespace: `t[e]` is whitespace
pub open spec fn boundary_at(t: Seq<char>, k: EngBoundaryKind, e: int) -> bool {
    match k {
        EngBoundaryKind::Paragraph => 0 <= e && e + 1 < t.len() && t[e] == '\n' && t[e + 1] == '\n',
        EngBoundaryKind::Line => 0 <= e < t.len() && t[e] == '\n',
        EngBoundaryKind::Sentence => 1 <= e <= t.len() && is_sentence_punct(t[e - 1]) && (e
            == t.len() || is_ws(t[e])),
        EngBoundaryKind::Whitespace => 0 <= e < t.len() && is_ws(t[e]),
        EngBoundaryKind::Forced => false,
    }
}

fn is_sentence_punct_exec(c: char) -> (r: bool)
    ensures
        r == is_sentence_punct(c),
{
    c == '.' || c == '!' || c == '?'
}

/// Whether `e` is a split point of kind `k` in `t`.
pub fn boundary_at_exec(t: &Vec<char>, k: EngBoundaryKind, e: usize) -> (r: bool)
    ensures
        r == boundary_at(t@, k, e as int),
{
    let n = t.len();
    match k {
        EngBoundaryKind::Paragraph => e < n && n - e > 1 && t[e] == '\n' && t[e + 1] == '\n',
        EngBoundaryKind::Line => e < n && t[e] == '\n',
        EngBoundaryKind::Sentence => 1 <= e && e <= n && is_sentence_punct_exec(t[e - 1]) && (e
            == n || is_whitespace(t[e])),
        EngBoundaryKind::Whitespace => e < n && is_whitespace(t[e]),
        EngBoundaryKind::Forced => false,
    }
}

/// The four detectable kinds, strongest first.
pub open spec fn detectable(k: EngBoundaryKind) -> bool {
    k != EngBoundaryKind::Forced
}

fn push_if_boundary(t: &Vec<char>, out: &mut Vec<Boundary>, e: usize, k: EngBoundaryKind)
    ensures
        boundary_at(t@, k, e as int) ==> final(out)@ == old(out)@.push(Boundary { end: e, kind: k }),
        !boundary_at(t@, k, e as int) ==> final(out)@ == old(out)@,
{
    if boundary_at_exec(t, k, e) {
        out.push(Boundary { end: e, kind: k });
    }
}

/// All detectable split points `e` with `start < e <= start + len`, in
/// increasing order of `e` (and, at equal `e`, strongest kind first).
pub fn scan_boundaries(t: &Vec<char>, start: usize, len: usize) -> (out: Vec<Boundary>)
    requires
        start + len <= t@.len(),
    ensures
        forall|j: int|
            0 <= j < out@.len() ==> {
                &&& start < (#[trigger] out@[j]).end <= start + len
                &&& detectable(out@[j].kind)
                &&& boundary_at(t@, out@[j].kind, out@[j].end as int)
            },
        forall|e: int, k: EngBoundaryKind|
            start < e <= start + len && detectable(k) && #[trigger] boundary_at(t@, k, e)
                ==> exists|j: int| 0 <= j < out@.len() && (#[trigger] out@[j]).end == e && out@[j].kind == k,
{
    let mut out: Vec<Boundary> = Vec::new();
    let _n = t.len();
    let end = start + len;
    let mut e = start;
    while e < end
        invariant
            start + len <= t@.len(),
            end == start + len,
            start <= e <= end,
            forall|j: int|
                0 <= j < out@.len() ==> {
                    &&& start < (#[trigger] out@[j]).end <= e
                    &&& detectable(out@[j].kind)
                    &&& boundary_at(t@, out@[j].kind, out@[j].end as int)
                },
            forall|x: int, k: EngBoundaryKind|
                start < x <= e && detectable(k) && #[trigger] boundary_at(t@, k, x)
                    ==> exists|j: int| 0 <= j < out@.len() && (#[trigger] out@[j]).end == x && out@[j].kind == k,
        decreases end - e,
    {
        e += 1;
        let ghost o0 = out@;
        push_if_boundary(t, &mut out, e, EngBoundaryKind::Paragraph);
        let ghost o1 = out@;
        push_if_boundary(t, &mut out, e, EngBoundaryKind::Line);
        let ghost o2 = out@;
        push_if_boundary(t, &mut out, e, EngBoundaryKind::Sentence);
        let ghost o3 = out@;
        push_if_boundary(t, &mut out, e, EngBoundaryKind::Whitespace);
        proof {
            let o4 = out@;
            assert(o4.len() >= o3.len() >= o2.len() >= o1.len() >= o0.len());
            assert(forall|j: int| 0 <= j < o0.len() ==> o4[j] == o0[j]);
            assert(forall|j: int| 0 <= j < o1.len() ==> o4[j] == o1[j]);
            assert(forall|j: int| 0 <= j < o2.len() ==> o4[j] == o2[j]);
            assert(forall|j: int| 0 <= j < o3.len() ==> o4[j] == o3[j]);
            assert forall|x: int, k: EngBoundaryKind|
                start < x <= e && detectable(k) && #[trigger] boundary_at(t@, k, x)
                implies exists|j: int| 0 <= j < out@.len() && (#[trigger] out@[j]).end == x && out@[j].kind == k by {
                if x < e {
                    let j0 = choose|j: int| 0 <= j < o0.len() && (#[trigger] o0[j]).end == x && o0[j].kind == k;
                    assert(out@[j0] == o0[j0]);
                } else {
                    match k {
                        EngBoundaryKind::Paragraph => {
                            assert(out@[o0.len() as int] == o1[o0.len() as int]);
                        },
                        EngBoundaryKind::Line => {
                            assert(out@[o1.len() as int] == o2[o1.len() as int]);
                        },
                        EngBoundaryKind::Sentence => {
                            assert(out@[o2.len() as int] == o3[o2.len() as int]);
                        },
                        EngBoundaryKind::Whitespace => {
                            assert(out@[o3.len() as int] == o4[o3.len() as int]);
                        },
                        EngBoundaryKind::Forced => {},
                    }
                }
            }
        }
    }
    out
}

/// The cut made when no detectable boundary qualifies: the end of the window.
pub fn forced_boundary(cursor: usize, window_len: usize) -> (b: Boundary)
    requires
        cursor + window_len <= usize::MAX,
    ensures
        b.end == cursor + window_len,
        b.kind == EngBoundaryKind::Forced,
{
    Boundary { end: cursor + window_len, kind: EngBoundaryKind::Forced }
}

} // verus!
