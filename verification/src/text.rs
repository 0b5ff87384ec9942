//! Character-level helpers shared by the chunkers, identifiers and parsers.
//!
//! Text is handled as a sequence of Unicode scalar values (`Seq<char>`, the
//! view of `&str` and `String`); byte offsets are the lengths of UTF-8
//! encodings of prefixes.
use vstd::prelude::*;
use vstd::utf8::*;

verus! {

/// Appending a `&str` to a `String` appends its characters.
pub assume_specification[ String::push_str ](s: &mut String, string: &str)
    ensures
        final(s)@ == old(s)@ + string@,
;

/// Pushing a `char` onto a `String` appends that character.
pub assume_specification[ String::push ](s: &mut String, ch: char)
    ensures
        final(s)@ == old(s)@.push(ch),
;

/// The Unicode `White_Space` property.
pub open spec fn is_ws(c: char) -> bool {
    let v = c as u32;
    ||| 0x09 <= v <= 0x0D
    ||| v == 0x20
    ||| v == 0x85
    ||| v == 0xA0
    ||| v == 0x1680
    ||| 0x2000 <= v <= 0x200A
    ||| v == 0x2028
    ||| v == 0x2029
    ||| v == 0x202F
    ||| v == 0x205F
    ||| v == 0x3000
}

/// Whether `c` has the Unicode `White_Space` property.
pub fn is_whitespace(c: char) -> (r: bool)
    ensures
        r == is_ws(c),
{
    let v = c as u32;
    (0x09 <= v && v <= 0x0D) || v == 0x20 || v == 0x85 || v == 0xA0 || v == 0x1680 || (0x2000
        <= v && v <= 0x200A) || v == 0x2028 || v == 0x2029 || v == 0x202F || v == 0x205F || v
        == 0x3000
}

/// Number of bytes of the UTF-8 encoding of a scalar value.
pub open spec fn char_width(c: char) -> nat {
    let v = c as u32;
    if v <= 0x7F {
        1
    } else if v <= 0x7FF {
        2
    } else if v <= 0xFFFF {
        3
    } else {
        4
    }
}

/// Length in bytes of the UTF-8 encoding of `s`.
pub open spec fn enc_len(s: Seq<char>) -> nat {
    encode_utf8(s).len()
}

pub fn utf8_width(c: char) -> (w: usize)
    ensures
        w == char_width(c),
        1 <= w <= 4,
{
    let v = c as u32;
    if v <= 0x7F {
        1
    } else if v <= 0x7FF {
        2
    } else if v <= 0xFFFF {
        3
    } else {
        4
    }
}

pub proof fn lemma_encode_scalar_len(c: char)
    ensures
        encode_scalar(c as u32).len() == char_width(c),
{
    broadcast use vstd::utf8::char_is_scalar;
    assert(is_scalar(c as u32));
}

pub proof fn lemma_enc_len_append(a: Seq<char>, b: Seq<char>)
    ensures
        enc_len(a + b) == enc_len(a) + enc_len(b),
    decreases a.len(),
{
    if a.len() == 0 {
        assert(a + b =~= b);
    } else {
        assert((a + b).drop_first() =~= a.drop_first() + b);
        lemma_enc_len_append(a.drop_first(), b);
    }
}

pub proof fn lemma_enc_len_push(a: Seq<char>, c: char)
    ensures
        enc_len(a.push(c)) == enc_len(a) + char_width(c),
{
    lemma_enc_len_append(a, seq![c]);
    assert(a.push(c) =~= a + seq![c]);
    lemma_encode_scalar_len(c);
    assert(seq![c].drop_first() =~= Seq::<char>::empty());
    assert(encode_utf8(Seq::<char>::empty()) =~= Seq::<u8>::empty());
}

pub proof fn lemma_enc_len_prefix_mono(s: Seq<char>, i: int, j: int)
    requires
        0 <= i <= j <= s.len(),
    ensures
        enc_len(s.take(i)) <= enc_len(s.take(j)),
        enc_len(s.take(j)) <= enc_len(s),
{
    lemma_enc_len_append(s.take(i), s.subrange(i, j));
    assert(s.take(i) + s.subrange(i, j) =~= s.take(j));
    lemma_enc_len_append(s.take(j), s.skip(j));
    assert(s.take(j) + s.skip(j) =~= s);
}

/// The characters of a string slice.
pub fn chars_of(s: &str) -> (v: Vec<char>)
    ensures
        v@ == s@,
{
    let mut v: Vec<char> = Vec::new();
    for c in it: s.chars()
        invariant
            v@ == it.seq().take(it.index() as int),
            it.seq() == s@,
    {
        v.push(c);
    }
    v
}

/// A `String` holding `chars[start..end]`.
pub fn string_from_range(chars: &Vec<char>, start: usize, end: usize) -> (s: String)
    requires
        start <= end <= chars.len(),
    ensures
        s@ == chars@.subrange(start as int, end as int),
{
    let mut s = String::new();
    let mut i = start;
    while i < end
        invariant
            start <= i <= end <= chars.len(),
            s@ == chars@.subrange(start as int, i as int),
        decreases end - i,
    {
        s.push(chars[i]);
        assert(chars@.subrange(start as int, i + 1) =~= chars@.subrange(start as int, i as int).push(
            chars@[i as int],
        ));
        i += 1;
    }
    s
}

/// A `String` holding all of `chars`.
pub fn string_from_chars(chars: &Vec<char>) -> (s: String)
    ensures
        s@ == chars@,
{
    let s = string_from_range(chars, 0, chars.len());
    assert(chars@.subrange(0, chars@.len() as int) =~= chars@);
    s
}

/// Owned copy of a string slice.
pub fn owned(s: &str) -> (r: String)
    ensures
        r@ == s@,
{
    let mut r = String::new();
    r.push_str(s);
    assert(Seq::<char>::empty() + s@ =~= s@);
    r
}

/// Concatenation of two string slices.
pub fn concat(a: &str, b: &str) -> (r: String)
    ensures
        r@ == a@ + b@,
{
    let mut r = String::new();
    r.push_str(a);
    r.push_str(b);
    assert(Seq::<char>::empty() + a@ =~= a@);
    r
}

/// Byte offsets of every character boundary: `offs[i]` is the UTF-8 length of
/// the first `i` characters.
pub fn prefix_byte_offsets(chars: &Vec<char>, total: usize) -> (offs: Vec<usize>)
    requires
        enc_len(chars@) <= total,
    ensures
        offs@.len() == chars@.len() + 1,
        forall|i: int| 0 <= i <= chars@.len() ==> #[trigger] offs@[i] == enc_len(chars@.take(i)),
{
    let mut offs: Vec<usize> = Vec::new();
    offs.push(0);
    proof {
        assert(chars@.take(0) =~= Seq::<char>::empty());
        assert(encode_utf8(Seq::<char>::empty()) =~= Seq::<u8>::empty());
    }
    let mut acc: usize = 0;
    let mut i: usize = 0;
    while i < chars.len()
        invariant
            i <= chars@.len(),
            enc_len(chars@) <= total,
            offs@.len() == i + 1,
            acc == enc_len(chars@.take(i as int)),
            forall|k: int| 0 <= k <= i ==> #[trigger] offs@[k] == enc_len(chars@.take(k)),
        decreases chars.len() - i,
    {
        let w = utf8_width(chars[i]);
        proof {
            assert(chars@.take(i + 1) =~= chars@.take(i as int).push(chars@[i as int]));
            lemma_enc_len_push(chars@.take(i as int), chars@[i as int]);
            lemma_enc_len_prefix_mono(chars@, i + 1, i + 1);
        }
        acc = acc + w;
        offs.push(acc);
        i += 1;
    }
    offs
}

/// Unicode `White_Space` is stripped from both ends.
pub open spec fn trim_start_len(s: Seq<char>) -> nat
    decreases s.len(),
{
    if s.len() > 0 && is_ws(s[0]) {
        1 + trim_start_len(s.drop_first())
    } else {
        0
    }
}

/// Whether every character of `s` is whitespace.
pub open spec fn all_ws(s: Seq<char>) -> bool {
    forall|i: int| 0 <= i < s.len() ==> #[trigger] is_ws(s[i])
}

/// The characters of `s` with leading and trailing Unicode whitespace removed.
pub open spec fn trimmed(s: Seq<char>) -> Seq<char> {
    if all_ws(s) {
        Seq::empty()
    } else {
        let a = choose|a: int|
            0 <= a < s.len() && !is_ws(s[a]) && forall|k: int| 0 <= k < a ==> #[trigger] is_ws(s[k]);
        let b = choose|b: int|
            0 <= b < s.len() && !is_ws(s[b]) && forall|k: int|
                b < k < s.len() ==> #[trigger] is_ws(s[k]);
        s.subrange(a, b + 1)
    }
}

/// Index range `[a, b)` of the trimmed part of `chars`.
pub fn trim_bounds(chars: &Vec<char>) -> (r: (usize, usize))
    ensures
        r.0 <= r.1 <= chars@.len(),
        chars@.subrange(r.0 as int, r.1 as int) == trimmed(chars@),
        all_ws(chars@) <==> r.0 == r.1,
{
    let n = chars.len();
    let mut a: usize = 0;
    while a < n && is_whitespace(chars[a])
        invariant
            a <= n == chars@.len(),
            forall|k: int| 0 <= k < a ==> #[trigger] is_ws(chars@[k]),
        decreases n - a,
    {
        a += 1;
    }
    if a == n {
        assert(all_ws(chars@));
        assert(chars@.subrange(a as int, a as int) =~= Seq::<char>::empty());
        return (a, a);
    }
    let mut b: usize = n;
    while b > a + 1 && is_whitespace(chars[b - 1])
        invariant
            a < b <= n == chars@.len(),
            !is_ws(chars@[a as int]),
            forall|k: int| b <= k < n ==> #[trigger] is_ws(chars@[k]),
        decreases b,
    {
        b -= 1;
    }
    proof {
        let s = chars@;
        assert(!all_ws(s));
        let b1 = (b - 1) as int;
        assert(!is_ws(s[b1]));
        let ca = choose|x: int|
            0 <= x < s.len() && !is_ws(s[x]) && forall|k: int| 0 <= k < x ==> #[trigger] is_ws(s[k]);
        assert(0 <= a < s.len() && !is_ws(s[a as int]) && forall|k: int| 0 <= k < a ==> #[trigger] is_ws(s[k]));
        if ca < a {
            assert(is_ws(s[ca]));
        }
        if ca > a {
            assert(is_ws(s[a as int]));
        }
        let cb = choose|x: int|
            0 <= x < s.len() && !is_ws(s[x]) && forall|k: int| x < k < s.len() ==> #[trigger] is_ws(s[k]);
        assert(0 <= b1 < s.len() && !is_ws(s[b1]) && forall|k: int| b1 < k < s.len() ==> #[trigger] is_ws(s[k]));
        if cb < b1 {
            assert(is_ws(s[b1]));
        }
        if cb > b1 {
            assert(is_ws(s[cb]));
        }
    }
    (a, b)
}

/// Whether every character of `chars[s..e)` is whitespace.
pub fn range_all_ws(chars: &Vec<char>, s: usize, e: usize) -> (r: bool)
    requires
        s <= e <= chars@.len(),
    ensures
        r == all_ws(chars@.subrange(s as int, e as int)),
{
    let mut i = s;
    while i < e
        invariant
            s <= i <= e <= chars@.len(),
            forall|k: int| s <= k < i ==> #[trigger] is_ws(chars@[k]),
        decreases e - i,
    {
        if !is_whitespace(chars[i]) {
            assert(chars@.subrange(s as int, e as int)[i - s] == chars@[i as int]);
            return false;
        }
        i += 1;
    }
    assert forall|k: int| 0 <= k < e - s implies #[trigger] is_ws(chars@.subrange(s as int, e as int)[k]) by {
        assert(chars@.subrange(s as int, e as int)[k] == chars@[s + k]);
    }
    true
}

/// Whether the trimmed string is empty, i.e. the string is whitespace only.
pub fn is_blank(s: &str) -> (r: bool)
    ensures
        r == all_ws(s@),
        r == (trimmed(s@).len() == 0),
{
    let chars = chars_of(s);
    let (a, b) = trim_bounds(&chars);
    a == b
}

/// `s` with leading and trailing whitespace removed.
pub fn trim_owned(s: &str) -> (r: String)
    ensures
        r@ == trimmed(s@),
{
    let chars = chars_of(s);
    let (a, b) = trim_bounds(&chars);
    string_from_range(&chars, a, b)
}

/// Equality of two character sequences.
pub fn str_eq(a: &str, b: &str) -> (r: bool)
    ensures
        r == (a@ == b@),
{
    let x = chars_of(a);
    let y = chars_of(b);
    if x.len() != y.len() {
        return false;
    }
    let mut i: usize = 0;
    while i < x.len()
        invariant
            x@ == a@,
            y@ == b@,
            x@.len() == y@.len(),
            i <= x@.len(),
            forall|k: int| 0 <= k < i ==> x@[k] == y@[k],
        decreases x.len() - i,
    {
        if x[i] != y[i] {
            return false;
        }
        i += 1;
    }
    assert(x@ =~= y@);
    true
}

/// ASCII lowercase of one character; other characters are unchanged.
pub open spec fn ascii_lower(c: char) -> char {
    if 'A' <= c && c <= 'Z' {
        ((c as u32) + 32) as char
    } else {
        c
    }
}

pub open spec fn ascii_lower_seq(s: Seq<char>) -> Seq<char> {
    Seq::new(s.len(), |i: int| ascii_lower(s[i]))
}

pub fn to_ascii_lower_char(c: char) -> (r: char)
    ensures
        r == ascii_lower(c),
{
    if 'A' <= c && c <= 'Z' {
        let b = (c as u8) + 32;
        b as char
    } else {
        c
    }
}

} // verus!

verus! {

pub open spec fn digit_char(d: nat) -> char {
    if d == 0 { '0' }
    else if d == 1 { '1' }
    else if d == 2 { '2' }
    else if d == 3 { '3' }
    else if d == 4 { '4' }
    else if d == 5 { '5' }
    else if d == 6 { '6' }
    else if d == 7 { '7' }
    else if d == 8 { '8' }
    else { '9' }
}

/// Decimal rendering of a natural number (no sign, no leading zeros).
pub open spec fn decimal(n: nat) -> Seq<char>
    decreases n,
{
    if n < 10 {
        seq![digit_char(n)]
    } else {
        decimal(n / 10).push(digit_char(n % 10))
    }
}

fn digit_of(d: usize) -> (c: char)
    requires
        d < 10,
    ensures
        c == digit_char(d as nat),
{
    if d == 0 { '0' }
    else if d == 1 { '1' }
    else if d == 2 { '2' }
    else if d == 3 { '3' }
    else if d == 4 { '4' }
    else if d == 5 { '5' }
    else if d == 6 { '6' }
    else if d == 7 { '7' }
    else if d == 8 { '8' }
    else { '9' }
}

/// Appends the decimal rendering of `n`.
pub fn push_decimal(s: &mut String, n: u64)
    ensures
        final(s)@ == old(s)@ + decimal(n as nat),
    decreases n,
{
    if n >= 10 {
        push_decimal(s, n / 10);
        s.push(digit_of((n % 10) as usize));
        assert(old(s)@ + decimal(n as nat) =~= old(s)@ + decimal((n / 10) as nat) + seq![digit_char((n % 10) as nat)]);
    } else {
        s.push(digit_of(n as usize));
        assert(decimal(n as nat) =~= seq![digit_char(n as nat)]);
    }
}

/// Appends the decimal rendering of a `usize`.
pub fn push_usize(s: &mut String, n: usize)
    ensures
        final(s)@ == old(s)@ + decimal(n as nat),
{
    push_decimal(s, n as u64);
}

} // verus!
