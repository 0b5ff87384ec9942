//! Deterministic identifiers used across the ingestion pipeline.
//!
//! A file version is identified by the BLAKE3 digest of a canonical byte
//! encoding of its fingerprint (path, size, modification time and, for object
//! stores, the normalized entity tag).
use vstd::prelude::*;
use vstd::utf8::encode_utf8;

verus! {

/// A cheap fingerprint of one version of a file or object.
#[derive(Debug, PartialEq, Eq, Hash)]
pub struct FileFingerprint {
    pub canonical_path: String,
    pub size_bytes: u64,
    pub mtime_unix_secs: i64,
    /// Object-store entity tag, as reported (possibly quoted).
    pub etag: Option<String>,
}

/// A copy of an optional string.
pub fn clone_opt_string(s: &Option<String>) -> (c: Option<String>)
    ensures
        c == *s,
{
    match s {
        Some(v) => Some(v.clone()),
        None => None,
    }
}

impl Clone for FileFingerprint {
    fn clone(&self) -> (c: Self)
        ensures
            c == *self,
    {
        FileFingerprint {
            canonical_path: self.canonical_path.clone(),
            size_bytes: self.size_bytes,
            mtime_unix_secs: self.mtime_unix_secs,
            etag: clone_opt_string(&self.etag),
        }
    }
}

/// An entity tag without one pair of surrounding double quotes, so that
/// `"abc"` and `abc` name the same version.
pub open spec fn normalized_etag(e: Seq<char>) -> Seq<char> {
    if e.len() >= 2 && e[0] == '"' && e[e.len() - 1] == '"' {
        e.subrange(1, e.len() - 1)
    } else {
        e
    }
}

/// Little-endian encoding of `n` on `k` bytes.
pub open spec fn le_bytes(n: nat, k: nat) -> Seq<u8>
    decreases k,
{
    if k == 0 {
        Seq::empty()
    } else {
        seq![(n % 256) as u8] + le_bytes(n / 256, (k - 1) as nat)
    }
}

/// Separator byte between the parts of an identifier's hash input.
pub const UNIT_SEPARATOR: u8 = 0x1f;

/// The bytes hashed to identify a file version.
pub open spec fn version_hash_input(fp: FileFingerprint) -> Seq<u8> {
    let base = encode_utf8(fp.canonical_path@) + le_bytes(fp.size_bytes as nat, 8) + le_bytes(
        (fp.mtime_unix_secs as u64) as nat,
        8,
    );
    match fp.etag {
        None => base,
        Some(e) => base + seq![UNIT_SEPARATOR] + encode_utf8(normalized_etag(e@)),
    }
}

/// Name for the 32-byte BLAKE3 digest of a byte string.
pub uninterp spec fn blake3_digest(data: Seq<u8>) -> Seq<u8>;

/// Calls `blake3::hash` on `data` and returns the 32 digest bytes. The digest
/// is a function of `data` alone; incremental hashing of the parts of `data`
/// gives the same digest, so callers hash the concatenation.
#[verifier::external_body]
pub(crate) fn blake3_hash(data: &[u8]) -> (h: [u8; 32])
    ensures
        h@ == blake3_digest(data@),
{
    *blake3::hash(data).as_bytes()
}

/// Appends `bytes` to `out`.
pub fn push_all(out: &mut Vec<u8>, bytes: &[u8])
    ensures
        final(out)@ == old(out)@ + bytes@,
{
    let mut i: usize = 0;
    while i < bytes.len()
        invariant
            i <= bytes@.len(),
            out@ == old(out)@ + bytes@.take(i as int),
        decreases bytes@.len() - i,
    {
        out.push(bytes[i]);
        assert(bytes@.take(i + 1) =~= bytes@.take(i as int).push(bytes@[i as int]));
        i += 1;
    }
    assert(bytes@.take(bytes@.len() as int) =~= bytes@);
}

/// Appends the 8-byte little-endian encoding of `n`.
pub fn push_le_u64(out: &mut Vec<u8>, n: u64)
    ensures
        final(out)@ == old(out)@ + le_bytes(n as nat, 8),
{
    let mut x: u64 = n;
    let mut k: usize = 0;
    let ghost start = old(out)@;
    while k < 8
        invariant
            k <= 8,
            out@ + le_bytes(x as nat, (8 - k) as nat) == start + le_bytes(n as nat, 8),
        decreases 8 - k,
    {
        let ghost before = out@;
        out.push((x % 256) as u8);
        proof {
            assert(le_bytes(x as nat, (8 - k) as nat) == seq![(x % 256) as u8] + le_bytes((x / 256) as nat, (8 - k - 1) as nat));
            assert(out@ + le_bytes((x / 256) as nat, (8 - k - 1) as nat) =~= before + le_bytes(x as nat, (8 - k) as nat));
        }
        x = x / 256;
        k += 1;
    }
    assert(le_bytes(x as nat, 0) =~= Seq::<u8>::empty());
    assert(out@ + Seq::<u8>::empty() =~= out@);
}

/// The entity tag without one pair of surrounding double quotes.
pub fn normalize_etag(e: &str) -> (r: String)
    ensures
        r@ == normalized_etag(e@),
{
    let chars = crate::text::chars_of(e);
    let n = chars.len();
    if n >= 2 && chars[0] == '"' && chars[n - 1] == '"' {
        crate::text::string_from_range(&chars, 1, n - 1)
    } else {
        crate::text::string_from_chars(&chars)
    }
}

/// The hash input of a file version, see [`version_hash_input`].
pub fn version_bytes(fp: &FileFingerprint) -> (b: Vec<u8>)
    ensures
        b@ == version_hash_input(*fp),
{
    let mut out: Vec<u8> = Vec::new();
    push_all(&mut out, fp.canonical_path.as_str().as_bytes());
    push_le_u64(&mut out, fp.size_bytes);
    push_le_u64(&mut out, fp.mtime_unix_secs as u64);
    match &fp.etag {
        None => {},
        Some(e) => {
            out.push(UNIT_SEPARATOR);
            let ne = normalize_etag(e.as_str());
            push_all(&mut out, ne.as_str().as_bytes());
        },
    }
    proof {
        assert(Seq::<u8>::empty() + encode_utf8(fp.canonical_path@) =~= encode_utf8(fp.canonical_path@));
    }
    out
}

/// The stable 32-byte identifier of a file version.
pub fn file_version_id(fingerprint: &FileFingerprint) -> (id: [u8; 32])
    ensures
        id@ == blake3_digest(version_hash_input(*fingerprint)),
{
    let bytes = version_bytes(fingerprint);
    blake3_hash(bytes.as_slice())
}

/// Two fingerprints that agree on path, size, modification time and
/// normalized entity tag identify the same version: quoting an entity tag
/// does not change the version identifier.
pub proof fn law_version_id_ignores_etag_quotes(a: FileFingerprint, b: FileFingerprint)
    requires
        a.canonical_path@ == b.canonical_path@,
        a.size_bytes == b.size_bytes,
        a.mtime_unix_secs == b.mtime_unix_secs,
        a.etag is Some <==> b.etag is Some,
        a.etag is Some ==> normalized_etag(a.etag->Some_0@) == normalized_etag(b.etag->Some_0@),
    ensures
        version_hash_input(a) == version_hash_input(b),
        blake3_digest(version_hash_input(a)) == blake3_digest(version_hash_input(b)),
{
}

/// Quoting an entity tag once leaves its normalized form unchanged.
pub proof fn law_quoted_etag_normalizes(e: Seq<char>)
    requires
        e.len() == 0 || (e[0] != '"' || e[e.len() - 1] != '"') || e.len() == 1,
    ensures
        normalized_etag(seq!['"'] + e + seq!['"']) == normalized_etag(e),
{
    let q = seq!['"'] + e + seq!['"'];
    assert(q.subrange(1, q.len() - 1) =~= e);
}

} // verus!
