//! Layout of the points written to the sink for one document version:
//! deterministic point identifiers, the document URI and identifier, and the
//! payload fields of every chunk.
use vstd::prelude::*;
use vstd::utf8::encode_utf8;
use crate::ids::{blake3_digest, blake3_hash, le_bytes, push_all, push_le_u64, FileFingerprint, UNIT_SEPARATOR};
use crate::sink::id::PointId;
use crate::text::{chars_of, owned, string_from_chars, trimmed};
use crate::transform::chunker::types::{BoundaryKind, Chunk, ChunkedDocument};

verus! {

/// Lowercase hexadecimal digit of `n < 16`.
pub open spec fn hex_digit(n: u8) -> char {
    if n < 10 {
        (('0' as u8) + n) as char
    } else {
        (('a' as u8) + (n - 10)) as char
    }
}

/// Lowercase hexadecimal rendering of bytes, two digits per byte.
pub open spec fn hex(bytes: Seq<u8>) -> Seq<char>
    decreases bytes.len(),
{
    if bytes.len() == 0 {
        Seq::empty()
    } else {
        hex(bytes.drop_last()) + seq![hex_digit(bytes.last() / 16), hex_digit(bytes.last() % 16)]
    }
}

fn hex_digit_exec(n: u8) -> (c: char)
    requires
        n < 16,
    ensures
        c == hex_digit(n),
{
    if n < 10 {
        (48u8 + n) as char
    } else {
        (97u8 + (n - 10)) as char
    }
}

/// Appends the hexadecimal rendering of `bytes`.
pub fn push_hex(s: &mut String, bytes: &[u8])
    ensures
        final(s)@ == old(s)@ + hex(bytes@),
{
    let mut i: usize = 0;
    while i < bytes.len()
        invariant
            i <= bytes@.len(),
            s@ == old(s)@ + hex(bytes@.take(i as int)),
        decreases bytes@.len() - i,
    {
        let b = bytes[i];
        s.push(hex_digit_exec(b / 16));
        s.push(hex_digit_exec(b % 16));
        proof {
            let t = bytes@.take(i + 1);
            assert(t.drop_last() =~= bytes@.take(i as int));
            assert(t.last() == b);
        }
        i += 1;
    }
    assert(bytes@.take(bytes@.len() as int) =~= bytes@);
}

/// The bytes hashed to identify point `chunk_index` of a document.
pub open spec fn point_hash_input(path: Seq<char>, chunk_index: nat, strategy: Seq<char>) -> Seq<u8> {
    encode_utf8(path) + seq![UNIT_SEPARATOR] + le_bytes(chunk_index, 8) + seq![UNIT_SEPARATOR] + encode_utf8(strategy)
}

/// The sixteen identifier bytes: the digest prefix with the version nibble
/// set to 4 and the variant bits to `10`.
pub open spec fn uuid_bytes(digest: Seq<u8>) -> Seq<u8> {
    digest.take(16).update(6, (digest[6] & 0x0f) | 0x40).update(8, (digest[8] & 0x3f) | 0x80)
}

/// Hyphenated 8-4-4-4-12 rendering of sixteen bytes.
pub open spec fn uuid_text(b: Seq<u8>) -> Seq<char> {
    hex(b.subrange(0, 4)) + seq!['-'] + hex(b.subrange(4, 6)) + seq!['-'] + hex(b.subrange(6, 8)) + seq!['-']
        + hex(b.subrange(8, 10)) + seq!['-'] + hex(b.subrange(10, 16))
}

/// The point identifier of chunk `chunk_index` of the document at `path`
/// chunked with strategy `strategy`.
pub open spec fn point_uuid(path: Seq<char>, chunk_index: nat, strategy: Seq<char>) -> Seq<char> {
    uuid_text(uuid_bytes(blake3_digest(point_hash_input(path, chunk_index, strategy))))
}

fn push_hex_range(s: &mut String, b: &Vec<u8>, lo: usize, hi: usize)
    requires
        lo <= hi <= b@.len(),
    ensures
        final(s)@ == old(s)@ + hex(b@.subrange(lo as int, hi as int)),
{
    let mut part: Vec<u8> = Vec::new();
    let mut i = lo;
    while i < hi
        invariant
            lo <= i <= hi <= b@.len(),
            part@ == b@.subrange(lo as int, i as int),
        decreases hi - i,
    {
        part.push(b[i]);
        assert(b@.subrange(lo as int, i + 1) =~= b@.subrange(lo as int, i as int).push(b@[i as int]));
        i += 1;
    }
    push_hex(s, part.as_slice());
}

/// Stable point identifier derived from the document path, the chunk index
/// and the strategy fingerprint, formatted as a version-4 style UUID.
pub fn uuid_from_path_chunk_strategy(canonical_path: &str, chunk_index: usize, strategy: &str) -> (u: String)
    ensures
        u@ == point_uuid(canonical_path@, chunk_index as nat, strategy@),
        !crate::text::all_ws(u@),
        trimmed(u@) == u@,
{
    let mut input: Vec<u8> = Vec::new();
    push_all(&mut input, canonical_path.as_bytes());
    input.push(UNIT_SEPARATOR);
    push_le_u64(&mut input, chunk_index as u64);
    input.push(UNIT_SEPARATOR);
    push_all(&mut input, strategy.as_bytes());
    proof {
        assert(input@ =~= point_hash_input(canonical_path@, chunk_index as nat, strategy@));
    }
    let digest = blake3_hash(input.as_slice());
    let mut b: Vec<u8> = Vec::new();
    let mut i: usize = 0;
    while i < 16
        invariant
            i <= 16,
            digest@.len() == 32,
            b@ == digest@.take(i as int),
        decreases 16 - i,
    {
        b.push(digest[i]);
        assert(digest@.take(i + 1) =~= digest@.take(i as int).push(digest@[i as int]));
        i += 1;
    }
    let b6 = (b[6] & 0x0f) | 0x40;
    b.set(6, b6);
    let b8 = (b[8] & 0x3f) | 0x80;
    b.set(8, b8);
    proof {
        assert(b@ =~= uuid_bytes(digest@));
    }
    let mut u = String::new();
    push_hex_range(&mut u, &b, 0, 4);
    u.push('-');
    push_hex_range(&mut u, &b, 4, 6);
    u.push('-');
    push_hex_range(&mut u, &b, 6, 8);
    u.push('-');
    push_hex_range(&mut u, &b, 8, 10);
    u.push('-');
    push_hex_range(&mut u, &b, 10, 16);
    proof {
        assert(u@ =~= uuid_text(b@));
        lemma_uuid_is_trimmed(b@);
    }
    u
}

/// `\` separators replaced by `/`.
pub open spec fn slashes(s: Seq<char>) -> Seq<char> {
    Seq::new(s.len(), |i: int| if s[i] == '\\' { '/' } else { s[i] })
}

/// `s` contains the two characters `:/` (a drive-letter prefix such as `D:/`).
pub open spec fn has_drive_separator(s: Seq<char>) -> bool {
    exists|i: int| 0 <= i < s.len() - 1 && #[trigger] s[i] == ':' && s[i + 1] == '/'
}

/// The `file://` URI of a canonical path: separators are normalized to `/`;
/// a Windows drive path (`D:/a`) and a relative path get `file:///`, an
/// absolute Unix path `file://`.
pub open spec fn file_uri(path: Seq<char>) -> Seq<char> {
    let n = slashes(path);
    if has_drive_separator(n) || !(n.len() > 0 && n[0] == '/') {
        "file:///"@ + n
    } else {
        "file://"@ + n
    }
}

fn normalize_separators(c: &Vec<char>) -> (out: Vec<char>)
    ensures
        out@ == slashes(c@),
{
    let mut out: Vec<char> = Vec::new();
    let mut i: usize = 0;
    while i < c.len()
        invariant
            i <= c@.len(),
            out@ =~= slashes(c@).take(i as int),
        decreases c@.len() - i,
    {
        if c[i] == '\\' {
            out.push('/');
        } else {
            out.push(c[i]);
        }
        i += 1;
    }
    assert(slashes(c@).take(c@.len() as int) =~= slashes(c@));
    out
}

fn find_drive_separator(n: &Vec<char>) -> (r: bool)
    ensures
        r == has_drive_separator(n@),
{
    let mut i: usize = 0;
    while i < n.len()
        invariant
            i <= n@.len(),
            forall|k: int| 0 <= k < i && k < n@.len() - 1 ==> !(#[trigger] n@[k] == ':' && n@[k + 1] == '/'),
        decreases n@.len() - i,
    {
        if i + 1 < n.len() && n[i] == ':' && n[i + 1] == '/' {
            return true;
        }
        i += 1;
    }
    false
}

/// The `file://` URI of a canonical path, see [`file_uri`].
pub fn canonical_path_to_file_uri(canonical_path: &str) -> (u: String)
    ensures
        u@ == file_uri(canonical_path@),
{
    let n = normalize_separators(&chars_of(canonical_path));
    let rest = string_from_chars(&n);
    let mut u = String::new();
    if find_drive_separator(&n) || !(n.len() > 0 && n[0] == '/') {
        u.push_str("file:///");
    } else {
        u.push_str("file://");
    }
    u.push_str(rest.as_str());
    proof {
        let e = Seq::<char>::empty();
        assert(e + "file:///"@ =~= "file:///"@);
        assert(e + "file://"@ =~= "file://"@);
    }
    u
}

/// Index of the last occurrence of `c` in `s`, or -1.
pub open spec fn last_index_of(s: Seq<char>, c: char) -> int
    decreases s.len(),
{
    if s.len() == 0 {
        -1
    } else if s.last() == c {
        s.len() - 1
    } else {
        last_index_of(s.drop_last(), c)
    }
}

/// The final `/`-separated component of `s`.
pub open spec fn file_name(s: Seq<char>) -> Seq<char> {
    s.skip(last_index_of(s, '/') + 1)
}

/// The extension of a canonical path: the text after the last `.` of its
/// file name, or empty when the file name has no `.`.
pub open spec fn file_extension(path: Seq<char>) -> Seq<char> {
    let name = file_name(slashes(path));
    if last_index_of(name, '.') < 0 {
        Seq::empty()
    } else {
        name.skip(last_index_of(name, '.') + 1)
    }
}

proof fn lemma_last_index_bounds(s: Seq<char>, c: char)
    ensures
        -1 <= last_index_of(s, c) < s.len(),
        last_index_of(s, c) >= 0 ==> s[last_index_of(s, c)] == c,
    decreases s.len(),
{
    if s.len() > 0 && s.last() != c {
        lemma_last_index_bounds(s.drop_last(), c);
    }
}

fn last_index(c: &Vec<char>, lo: usize, ch: char) -> (r: Option<usize>)
    requires
        lo <= c@.len(),
    ensures
        r is None ==> last_index_of(c@.skip(lo as int), ch) == -1,
        r matches Some(k) ==> lo <= k < c@.len() && last_index_of(c@.skip(lo as int), ch) == k - lo,
{
    let ghost t = c@.skip(lo as int);
    let mut m = c.len();
    assert(t.take(m - lo) =~= t);
    while m > lo && c[m - 1] != ch
        invariant
            lo <= m <= c@.len(),
            t == c@.skip(lo as int),
            last_index_of(t.take(m - lo), ch) == last_index_of(t, ch),
        decreases m,
    {
        assert(t.take(m - lo).drop_last() =~= t.take(m - lo - 1));
        assert(t.take(m - lo).last() == c@[m - 1]);
        m -= 1;
    }
    if m == lo {
        assert(t.take(0) =~= Seq::<char>::empty());
        None
    } else {
        assert(t.take(m - lo).last() == c@[m - 1]);
        Some(m - 1)
    }
}

/// The file extension of a canonical path, see [`file_extension`].
pub fn file_extension_from_canonical_path(canonical_path: &str) -> (e: String)
    ensures
        e@ == file_extension(canonical_path@),
{
    let n = normalize_separators(&chars_of(canonical_path));
    proof {
        assert(n@.take(n@.len() as int) =~= n@);
        assert(n@.skip(0) =~= n@);
    }
    let len = n.len();
    let start = match last_index(&n, 0, '/') {
        Some(k) => {
            assert(k < len);
            k + 1
        },
        None => 0,
    };
    proof {
        assert(file_name(n@) =~= n@.skip(start as int));
    }
    match last_index(&n, start, '.') {
        None => String::new(),
        Some(k) => {
            proof {
                let name = n@.skip(start as int);
                assert(name.skip(k - start + 1) =~= n@.subrange(k + 1, n@.len() as int));
            }
            assert(k < len);
            crate::text::string_from_range(&n, k + 1, len)
        },
    }
}

/// The identifier of a document: the hexadecimal digest of its URI.
pub open spec fn doc_id(uri: Seq<char>) -> Seq<char> {
    hex(blake3_digest(encode_utf8(uri)))
}

/// The hexadecimal digest of the UTF-8 bytes of `s`.
pub fn hex_digest(s: &str) -> (h: String)
    ensures
        h@ == hex(blake3_digest(encode_utf8(s@))),
{
    let d = blake3_hash(s.as_bytes());
    let mut h = String::new();
    push_hex(&mut h, &d);
    assert(Seq::<char>::empty() + hex(d@) =~= hex(d@));
    h
}

proof fn lemma_hex_len(bs: Seq<u8>)
    ensures
        hex(bs).len() == 2 * bs.len(),
    decreases bs.len(),
{
    if bs.len() > 0 {
        lemma_hex_len(bs.drop_last());
    }
}

proof fn lemma_hex_first(bs: Seq<u8>)
    requires
        bs.len() > 0,
    ensures
        hex(bs)[0] == hex_digit(bs[0] / 16),
    decreases bs.len(),
{
    lemma_hex_len(bs.drop_last());
    if bs.len() > 1 {
        lemma_hex_first(bs.drop_last());
    }
}

proof fn lemma_hex_digit_not_ws(n: u8)
    requires
        n < 16,
    ensures
        !crate::text::is_ws(hex_digit(n)),
{
}

/// A point identifier is its own trimmed form and is not blank.
proof fn lemma_uuid_is_trimmed(b: Seq<u8>)
    requires
        b.len() == 16,
    ensures
        !crate::text::all_ws(uuid_text(b)),
        trimmed(uuid_text(b)) == uuid_text(b),
{
    let u = uuid_text(b);
    lemma_hex_len(b.subrange(0, 4));
    lemma_hex_len(b.subrange(4, 6));
    lemma_hex_len(b.subrange(6, 8));
    lemma_hex_len(b.subrange(8, 10));
    lemma_hex_len(b.subrange(10, 16));
    lemma_hex_first(b.subrange(0, 4));
    assert(u[0] == hex(b.subrange(0, 4))[0]);
    assert(b.subrange(0, 4)[0] / 16 < 16);
    lemma_hex_digit_not_ws(b.subrange(0, 4)[0] / 16);
    let last = b.subrange(10, 16);
    assert(hex(last).last() == hex_digit(last.last() % 16));
    assert(u[u.len() - 1] == hex(last).last());
    lemma_hex_digit_not_ws(last.last() % 16);
    assert(!crate::text::is_ws(u[0]));
    assert(!crate::text::all_ws(u));
    let a = choose|a: int|
        0 <= a < u.len() && !crate::text::is_ws(u[a]) && forall|k: int| 0 <= k < a ==> #[trigger] crate::text::is_ws(u[k]);
    assert(0 <= 0 < u.len() && !crate::text::is_ws(u[0]) && forall|k: int| 0 <= k < 0 ==> #[trigger] crate::text::is_ws(u[k]));
    if a > 0 {
        assert(crate::text::is_ws(u[0]));
    }
    let z = u.len() - 1;
    let bb = choose|x: int|
        0 <= x < u.len() && !crate::text::is_ws(u[x]) && forall|k: int| x < k < u.len() ==> #[trigger] crate::text::is_ws(u[k]);
    assert(0 <= z < u.len() && !crate::text::is_ws(u[z]) && forall|k: int| z < k < u.len() ==> #[trigger] crate::text::is_ws(u[k]));
    if bb < z {
        assert(crate::text::is_ws(u[z]));
    }
    assert(u.subrange(0, u.len() as int) =~= u);
}

/// The point identifier of a chunk.
pub fn point_id_for(canonical_path: &str, chunk_index: usize, strategy: &str) -> (id: PointId)
    ensures
        id@ == point_uuid(canonical_path@, chunk_index as nat, strategy@),
{
    let u = uuid_from_path_chunk_strategy(canonical_path, chunk_index, strategy);
    PointId::parse(u.as_str()).unwrap()
}

/// Everything the sink stores with one chunk, besides its vector.
#[derive(Debug, PartialEq, Eq)]
pub struct PointPlan {
    pub id: PointId,
    pub canonical_path: String,
    pub doc_id: String,
    pub tenant_id: String,
    pub file_extension: String,
    pub size_bytes: u64,
    pub mtime_unix_secs: i64,
    pub chunk_index: usize,
    pub total_chunks: usize,
    pub previous_chunk_id: Option<String>,
    pub next_chunk_id: Option<String>,
    pub chunk_start_byte: usize,
    pub chunk_end_byte: usize,
    pub chunk_char_len: usize,
    pub chunk_text_sha256: String,
    pub strategy_fingerprint: String,
    pub chunk_text: String,
}

/// `p` describes chunk `idx` of `doc` for the file version `fp`.
#[verifier::opaque]
pub open spec fn plan_describes(p: PointPlan, fp: FileFingerprint, doc: ChunkedDocument, idx: int) -> bool {
    let ch = doc.chunks@[idx];
    let path = fp.canonical_path@;
    let strat = doc.strategy_fingerprint@;
    let n = doc.chunks@.len();
    &&& p.id@ == point_uuid(path, idx as nat, strat)
    &&& p.canonical_path@ == file_uri(path)
    &&& p.doc_id@ == doc_id(file_uri(path))
    &&& p.tenant_id@ == "default"@
    &&& p.file_extension@ == file_extension(path)
    &&& p.size_bytes == fp.size_bytes
    &&& p.mtime_unix_secs == fp.mtime_unix_secs
    &&& p.chunk_index == idx
    &&& p.total_chunks == n
    &&& (idx > 0 ==> (p.previous_chunk_id matches Some(q) && q@ == point_uuid(path, (idx - 1) as nat, strat)))
    &&& (idx == 0 ==> p.previous_chunk_id is None)
    &&& (idx + 1 < n ==> (p.next_chunk_id matches Some(q) && q@ == point_uuid(path, (idx + 1) as nat, strat)))
    &&& (idx + 1 >= n ==> p.next_chunk_id is None)
    &&& p.chunk_start_byte == ch.start_byte
    &&& p.chunk_end_byte == ch.end_byte
    &&& p.chunk_char_len == ch.char_len
    &&& p.chunk_text_sha256@ == hex(blake3_digest(encode_utf8(ch.text@)))
    &&& p.strategy_fingerprint@ == strat
    &&& p.chunk_text@ == ch.text@
}

fn plan_one(
    fingerprint: &FileFingerprint,
    doc: &ChunkedDocument,
    idx: usize,
    uri: &String,
    did: &String,
    ext: &String,
) -> (p: PointPlan)
    requires
        idx < doc.chunks@.len(),
        uri@ == file_uri(fingerprint.canonical_path@),
        did@ == doc_id(file_uri(fingerprint.canonical_path@)),
        ext@ == file_extension(fingerprint.canonical_path@),
    ensures
        plan_describes(p, *fingerprint, *doc, idx as int),
{
    let path = fingerprint.canonical_path.as_str();
    let strat = doc.strategy_fingerprint.as_str();
    let n = doc.chunks.len();
    let ch = &doc.chunks[idx];
    let previous_chunk_id = if idx > 0 {
        Some(uuid_from_path_chunk_strategy(path, idx - 1, strat))
    } else {
        None
    };
    let next_chunk_id = if idx + 1 < n {
        Some(uuid_from_path_chunk_strategy(path, idx + 1, strat))
    } else {
        None
    };
    let id = point_id_for(path, idx, strat);
    let sha = hex_digest(ch.text.as_str());
    let p = PointPlan {
        id,
        canonical_path: uri.clone(),
        doc_id: did.clone(),
        tenant_id: owned("default"),
        file_extension: ext.clone(),
        size_bytes: fingerprint.size_bytes,
        mtime_unix_secs: fingerprint.mtime_unix_secs,
        chunk_index: idx,
        total_chunks: n,
        previous_chunk_id,
        next_chunk_id,
        chunk_start_byte: ch.start_byte,
        chunk_end_byte: ch.end_byte,
        chunk_char_len: ch.char_len,
        chunk_text_sha256: sha,
        strategy_fingerprint: owned(strat),
        chunk_text: ch.text.clone(),
    };
    proof {
        reveal(plan_describes);
    }
    p
}

/// The sink points of every chunk of `doc`, in chunk order.
pub fn plan_points(fingerprint: &FileFingerprint, doc: &ChunkedDocument) -> (plans: Vec<PointPlan>)
    ensures
        plans@.len() == doc.chunks@.len(),
        forall|k: int| 0 <= k < plans@.len() ==> #[trigger] plan_describes(plans@[k], *fingerprint, *doc, k),
{
    let path = fingerprint.canonical_path.as_str();
    let uri = canonical_path_to_file_uri(path);
    let did = hex_digest(uri.as_str());
    let ext = file_extension_from_canonical_path(path);
    let n = doc.chunks.len();
    let mut plans: Vec<PointPlan> = Vec::new();
    let mut idx: usize = 0;
    while idx < n
        invariant
            idx <= n == doc.chunks@.len(),
            uri@ == file_uri(fingerprint.canonical_path@),
            did@ == doc_id(file_uri(fingerprint.canonical_path@)),
            ext@ == file_extension(fingerprint.canonical_path@),
            plans@.len() == idx,
            forall|k: int| 0 <= k < idx ==> #[trigger] plan_describes(plans@[k], *fingerprint, *doc, k),
        decreases n - idx,
    {
        let plan = plan_one(fingerprint, doc, idx, &uri, &did, &ext);
        plans.push(plan);
        idx += 1;
    }
    plans
}

/// The chunk used when a chunker returned no chunks: the whole text as a
/// single forced chunk.
pub fn whole_text_chunk(text: &str) -> (c: Chunk)
    ensures
        c.index == 0,
        c.text@ == text@,
        c.boundary == BoundaryKind::Forced,
        c.start_byte == 0,
        c.end_byte == encode_utf8(text@).len(),
        c.char_len == text@.len(),
{
    let chars = chars_of(text);
    Chunk {
        index: 0,
        text: owned(text),
        boundary: BoundaryKind::Forced,
        start_byte: 0,
        end_byte: text.as_bytes().len(),
        char_len: chars.len(),
    }
}

/// `doc`, or, when it has no chunks, `doc` holding the whole text as a single
/// forced chunk, so that every document yields at least one point.
pub fn ensure_some_chunk(doc: ChunkedDocument, text: &str) -> (d: ChunkedDocument)
    ensures
        doc.chunks@.len() > 0 ==> d == doc,
        doc.chunks@.len() == 0 ==> d.strategy_fingerprint == doc.strategy_fingerprint && d.chunks@.len() == 1
            && d.chunks@[0].index == 0 && d.chunks@[0].text@ == text@ && d.chunks@[0].boundary == BoundaryKind::Forced
            && d.chunks@[0].start_byte == 0 && d.chunks@[0].end_byte == encode_utf8(text@).len()
            && d.chunks@[0].char_len == text@.len(),
{
    if doc.chunks.len() > 0 {
        return doc;
    }
    let mut d = doc;
    d.chunks.push(whole_text_chunk(text));
    d
}

/// The texts handed to the embedding provider, one per chunk.
pub fn embedding_inputs(doc: &ChunkedDocument) -> (v: Vec<String>)
    ensures
        v@.len() == doc.chunks@.len(),
        forall|k: int| 0 <= k < v@.len() ==> #[trigger] v@[k]@ == doc.chunks@[k].text@,
{
    let mut v: Vec<String> = Vec::new();
    let mut i: usize = 0;
    while i < doc.chunks.len()
        invariant
            i <= doc.chunks@.len(),
            v@.len() == i,
            forall|k: int| 0 <= k < i ==> #[trigger] v@[k]@ == doc.chunks@[k].text@,
        decreases doc.chunks@.len() - i,
    {
        v.push(doc.chunks[i].text.clone());
        i += 1;
    }
    v
}

/// Distinct chunk indices of one document and strategy get distinct hash
/// inputs, and a change of strategy fingerprint changes every hash input:
/// point identifiers of different strategies live in separate spaces unless
/// the digest collides.
pub proof fn law_point_inputs_separate_strategies(path: Seq<char>, i: nat, j: nat, s1: Seq<char>, s2: Seq<char>)
    requires
        i < 0x1_0000_0000_0000_0000,
        j < 0x1_0000_0000_0000_0000,
    ensures
        i != j ==> point_hash_input(path, i, s1) != point_hash_input(path, j, s1),
        s1 != s2 ==> point_hash_input(path, i, s1) != point_hash_input(path, i, s2),
{
    let pre = encode_utf8(path) + seq![UNIT_SEPARATOR];
    if i != j {
        assert(pow256(8) == 0x1_0000_0000_0000_0000) by {
            reveal_with_fuel(pow256, 9);
        }
        lemma_le_bytes_injective(i, j, 8);
        lemma_le_bytes_len(i, 8);
        lemma_le_bytes_len(j, 8);
        let a = point_hash_input(path, i, s1);
        let b = point_hash_input(path, j, s1);
        let li = le_bytes(i, 8);
        let lj = le_bytes(j, 8);
        let k = choose|k: int| 0 <= k < 8 && #[trigger] li[k] != lj[k];
        assert(a[pre.len() + k] == le_bytes(i, 8)[k]);
        assert(b[pre.len() + k] == le_bytes(j, 8)[k]);
    }
    if s1 != s2 {
        let a = point_hash_input(path, i, s1);
        let b = point_hash_input(path, i, s2);
        let head = pre + le_bytes(i, 8) + seq![UNIT_SEPARATOR];
        assert(a == head + encode_utf8(s1));
        assert(b == head + encode_utf8(s2));
        vstd::utf8::encode_utf8_decode_utf8(s1);
        vstd::utf8::encode_utf8_decode_utf8(s2);
        if a == b {
            assert(a.skip(head.len() as int) =~= encode_utf8(s1));
            assert(b.skip(head.len() as int) =~= encode_utf8(s2));
        }
    }
}

proof fn lemma_le_bytes_len(n: nat, k: nat)
    ensures
        le_bytes(n, k).len() == k,
    decreases k,
{
    if k > 0 {
        lemma_le_bytes_len(n / 256, (k - 1) as nat);
    }
}

proof fn lemma_le_bytes_injective(a: nat, b: nat, k: nat)
    requires
        a != b,
        a < pow256(k),
        b < pow256(k),
    ensures
        exists|m: int| 0 <= m < k && #[trigger] le_bytes(a, k)[m] != le_bytes(b, k)[m],
    decreases k,
{
    lemma_le_bytes_len(a, k);
    lemma_le_bytes_len(b, k);
    if k == 0 {
    } else if a % 256 != b % 256 {
        assert(le_bytes(a, k)[0] == (a % 256) as u8);
        assert(le_bytes(b, k)[0] == (b % 256) as u8);
    } else {
        assert(a / 256 != b / 256) by (nonlinear_arith)
            requires a != b, a % 256 == b % 256;
        assert(a / 256 < pow256((k - 1) as nat)) by (nonlinear_arith)
            requires a < pow256(k), pow256(k) == 256 * pow256((k - 1) as nat);
        assert(b / 256 < pow256((k - 1) as nat)) by (nonlinear_arith)
            requires b < pow256(k), pow256(k) == 256 * pow256((k - 1) as nat);
        lemma_le_bytes_injective(a / 256, b / 256, (k - 1) as nat);
        let a2 = le_bytes(a / 256, (k - 1) as nat);
        let b2 = le_bytes(b / 256, (k - 1) as nat);
        let m = choose|m: int| 0 <= m < k - 1 && #[trigger] a2[m] != b2[m];
        assert(le_bytes(a, k)[m + 1] == le_bytes(a / 256, (k - 1) as nat)[m]);
        assert(le_bytes(b, k)[m + 1] == le_bytes(b / 256, (k - 1) as nat)[m]);
    }
}

pub open spec fn pow256(k: nat) -> nat
    decreases k,
{
    if k == 0 {
        1
    } else {
        256 * pow256((k - 1) as nat)
    }
}

/// The embedding provider must return one vector per input: otherwise an
/// `Internal` error.
pub fn check_embedding_count(inputs: usize, vectors: usize) -> (r: Result<(), crate::error::RagloomError>)
    ensures
        inputs == vectors ==> r is Ok,
        inputs != vectors ==> (r matches Err(e) && e.kind == crate::error::RagloomErrorKind::Internal
            && e.contexts@.len() == 1 && e.contexts@[0]@ == "embedding provider returned wrong count"@),
{
    if inputs == vectors {
        Ok(())
    } else {
        Err(crate::error::RagloomError::from_kind(crate::error::RagloomErrorKind::Internal).with_context(owned(
            "embedding provider returned wrong count",
        )))
    }
}

} // verus!
