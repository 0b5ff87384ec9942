//! Framing of the newline-delimited state files: the text is split into
//! lines as `str::lines` does (at `\n`, dropping a `\r` just before it), and
//! every line that is not blank is one record, known by its 1-based line
//! number. Decoding a record's text is up to the caller.
use vstd::prelude::*;
use crate::text::{all_ws, chars_of, string_from_range};

verus! {

/// Position of the first `\n` in `s`.
pub open spec fn first_newline(s: Seq<char>) -> Option<nat>
    decreases s.len(),
{
    if s.len() == 0 {
        None
    } else if s[0] == '\n' {
        Some(0)
    } else {
        match first_newline(s.drop_first()) {
            Some(k) => Some(k + 1),
            None => None,
        }
    }
}

pub proof fn lemma_first_newline_bound(s: Seq<char>)
    ensures
        first_newline(s) matches Some(k) ==> k < s.len(),
    decreases s.len(),
{
    if s.len() > 0 && s[0] != '\n' {
        lemma_first_newline_bound(s.drop_first());
    }
}

/// A line without the `\r` that preceded its `\n`.
pub open spec fn without_cr(l: Seq<char>) -> Seq<char> {
    if l.len() > 0 && l.last() == '\r' {
        l.drop_last()
    } else {
        l
    }
}

/// The lines of `s`: each `\n` ends a line (a `\r` before it is dropped);
/// text after the last `\n` is a final line when it is not empty.
pub open spec fn lines_of(s: Seq<char>) -> Seq<Seq<char>>
    decreases s.len(),
{
    if s.len() == 0 {
        Seq::empty()
    } else {
        match first_newline(s) {
            None => seq![s],
            Some(k) => {
                proof {
                    lemma_first_newline_bound(s);
                }
                seq![without_cr(s.take(k as int))] + lines_of(s.skip(k as int + 1))
            },
        }
    }
}

/// The non-blank lines among `ls`, numbered from `first`, in order.
pub open spec fn numbered_records(ls: Seq<Seq<char>>, first: nat) -> Seq<(nat, Seq<char>)>
    decreases ls.len(),
{
    if ls.len() == 0 {
        Seq::empty()
    } else if all_ws(ls[0]) {
        numbered_records(ls.drop_first(), first + 1)
    } else {
        seq![(first, ls[0])] + numbered_records(ls.drop_first(), first + 1)
    }
}

/// The records of a newline-delimited file: its non-blank lines with their
/// 1-based line numbers.
pub open spec fn ndjson_records(s: Seq<char>) -> Seq<(nat, Seq<char>)> {
    numbered_records(lines_of(s), 1)
}

/// One record of a newline-delimited file.
#[derive(Debug, Clone, PartialEq, Eq)]
pub struct NdjsonLine {
    /// 1-based line number.
    pub number: usize,
    pub text: String,
}

pub open spec fn line_views(v: Seq<NdjsonLine>) -> Seq<(nat, Seq<char>)> {
    v.map_values(|l: NdjsonLine| (l.number as nat, l.text@))
}

proof fn lemma_first_newline(s: Seq<char>, i: int)
    requires
        0 <= i <= s.len(),
        forall|j: int| 0 <= j < i ==> s[j] != '\n',
        i < s.len() ==> s[i] == '\n',
    ensures
        first_newline(s) == (if i < s.len() { Some(i as nat) } else { None::<nat> }),
    decreases i,
{
    if s.len() > 0 && i > 0 {
        lemma_first_newline(s.drop_first(), i - 1);
    }
}

/// The lines of `s` from position `i` on, when `s[..i]` ended with a line break.
proof fn lemma_lines_split(s: Seq<char>, k: int)
    requires
        0 <= k < s.len(),
        s[k] == '\n',
        forall|j: int| 0 <= j < k ==> s[j] != '\n',
    ensures
        lines_of(s) == seq![without_cr(s.take(k))] + lines_of(s.skip(k as int + 1)),
{
    lemma_first_newline(s, k);
}

/// The records of `contents`, see [`ndjson_records`].
pub fn split_records(contents: &str) -> (out: Vec<NdjsonLine>)
    ensures
        line_views(out@) == ndjson_records(contents@),
{
    let chars = chars_of(contents);
    let n = chars.len();
    let mut out: Vec<NdjsonLine> = Vec::new();
    let mut start: usize = 0;
    let mut idx: usize = 0;
    proof {
        assert(chars@.skip(0) =~= chars@);
    }
    while start < n
        invariant
            start <= n == chars@.len(),
            chars@ == contents@,
            idx <= start,
            ndjson_records(contents@) == line_views(out@) + numbered_records(lines_of(chars@.skip(start as int)), (idx + 1) as nat),
        decreases n - start,
    {
        let ghost rest = chars@.skip(start as int);
        let mut end = start;
        while end < n && chars[end] != '\n'
            invariant
                start <= end <= n == chars@.len(),
                forall|j: int| start <= j < end ==> chars@[j] != '\n',
            decreases n - end,
        {
            end += 1;
        }
        let k = end - start;
        proof {
            assert forall|j: int| 0 <= j < k implies rest[j] != '\n' by {
                assert(rest[j] == chars@[start + j]);
            }
        }
        let text_end = if end < n && end > start && chars[end - 1] == '\r' { end - 1 } else { end };
        let line = string_from_range(&chars, start, text_end);
        let blank = range_blank(&chars, start, text_end);
        let ghost before = out@;
        if !blank {
            out.push(NdjsonLine { number: idx + 1, text: line });
        }
        proof {
            if end < n {
                assert(rest[k as int] == chars@[end as int]);
                lemma_lines_split(rest, k as int);
                let lt = without_cr(rest.take(k as int));
                if text_end < end {
                    assert(rest.take(k as int).last() == '\r');
                    assert(lt =~= chars@.subrange(start as int, text_end as int));
                } else {
                    assert(lt =~= chars@.subrange(start as int, text_end as int));
                }
                assert(rest.skip(k + 1) =~= chars@.skip(end + 1));
                let ls = seq![lt] + lines_of(rest.skip(k + 1));
                assert(ls.drop_first() =~= lines_of(rest.skip(k + 1)));
                assert(ls[0] == lt);
                if blank {
                    assert(line_views(out@) == line_views(before));
                } else {
                    assert(line_views(out@) =~= line_views(before) + seq![((idx + 1) as nat, lt)]);
                    let x = line_views(before);
                    let y = seq![((idx + 1) as nat, lt)];
                    let z = numbered_records(lines_of(chars@.skip(end + 1)), (idx + 2) as nat);
                    assert(x + (y + z) =~= (x + y) + z);
                }
            } else {
                assert(first_newline(rest) is None) by {
                    lemma_first_newline(rest, k as int);
                }
                assert(rest.len() > 0);
                assert(lines_of(rest) == seq![rest]);
                assert(rest =~= chars@.subrange(start as int, text_end as int));
                let ls = seq![rest];
                assert(ls.drop_first() =~= Seq::<Seq<char>>::empty());
                assert(chars@.skip(n as int) =~= Seq::<char>::empty());
                if blank {
                    assert(line_views(out@) == line_views(before));
                } else {
                    assert(line_views(out@) =~= line_views(before) + seq![((idx + 1) as nat, rest)]);
                    let x = line_views(before);
                    let y = seq![((idx + 1) as nat, rest)];
                    let z = numbered_records(Seq::<Seq<char>>::empty(), (idx + 2) as nat);
                    assert(z =~= Seq::<(nat, Seq<char>)>::empty());
                    assert(x + (y + z) =~= (x + y) + z);
                }
            }
        }
        start = if end < n { end + 1 } else { n };
        idx = idx + 1;
    }
    proof {
        assert(chars@.skip(n as int) =~= Seq::<char>::empty());
        assert(line_views(out@) + Seq::<(nat, Seq<char>)>::empty() =~= line_views(out@));
    }
    out
}

fn range_blank(chars: &Vec<char>, s: usize, e: usize) -> (r: bool)
    requires
        s <= e <= chars@.len(),
    ensures
        r == all_ws(chars@.subrange(s as int, e as int)),
{
    crate::text::range_all_ws(chars, s, e)
}

} // verus!
