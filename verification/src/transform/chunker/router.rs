//! Extension-keyed dispatch to content-aware chunkers. The document returned
//! carries the fingerprint of the chunker that actually ran.
use vstd::prelude::*;
use crate::text::{ascii_lower, ascii_lower_seq, owned, str_eq, to_ascii_lower_char};
use super::code::query::Lang;
use super::code::{code_chunk_result, CodeChunker};
use super::engine::normalize;
use super::markdown::{markdown_chunks, markdown_fingerprint, MarkdownChunker};
use super::recursive::{
    chunks_are_spans, config_error_message, config_ok, recursive_fingerprint, recursive_spans, RecursiveChunker, RecursiveConfig,
};
use super::types::{ChunkError, ChunkHint, ChunkedDocument, SizeMetric, StrategyFingerprint};
use super::Chunker;

verus! {

/// Lexicographic order of character sequences (the order of `str`).
pub open spec fn lex_lt(a: Seq<char>, b: Seq<char>) -> bool
    decreases a.len(),
{
    if a.len() == 0 {
        b.len() > 0
    } else if b.len() == 0 {
        false
    } else if a[0] != b[0] {
        (a[0] as u32) < (b[0] as u32)
    } else {
        lex_lt(a.drop_first(), b.drop_first())
    }
}

proof fn lemma_lex_total(a: Seq<char>, b: Seq<char>)
    ensures
        a != b ==> lex_lt(a, b) || lex_lt(b, a),
        !(lex_lt(a, b) && lex_lt(b, a)),
        !lex_lt(a, a),
    decreases a.len(),
{
    if a.len() > 0 && b.len() > 0 {
        lemma_lex_total(a.drop_first(), b.drop_first());
        lemma_lex_total(a.drop_first(), a.drop_first());
        if a[0] == b[0] && a.drop_first() == b.drop_first() {
            assert(a =~= seq![a[0]] + a.drop_first());
            assert(b =~= seq![b[0]] + b.drop_first());
        }
        if a[0] != b[0] {
            vstd::utf8::char_u32_cast(a[0], a[0] as u32);
            vstd::utf8::char_u32_cast(b[0], b[0] as u32);
            assert((a[0] as u32) != (b[0] as u32));
        }
    } else if a.len() > 0 {
        lemma_lex_total(a.drop_first(), a.drop_first());
    } else if b.len() == 0 {
        assert(a =~= b);
    }
}

proof fn lemma_lex_trans(a: Seq<char>, b: Seq<char>, c: Seq<char>)
    requires
        lex_lt(a, b),
        lex_lt(b, c),
    ensures
        lex_lt(a, c),
    decreases a.len(),
{
    if a.len() > 0 && b.len() > 0 && c.len() > 0 {
        if a[0] == b[0] && b[0] == c[0] {
            lemma_lex_trans(a.drop_first(), b.drop_first(), c.drop_first());
        }
    }
}

fn lex_less(a: &str, b: &str) -> (r: bool)
    ensures
        r == lex_lt(a@, b@),
{
    let x = crate::text::chars_of(a);
    let y = crate::text::chars_of(b);
    let mut i: usize = 0;
    assert(a@.skip(0) =~= a@);
    assert(b@.skip(0) =~= b@);
    while i < x.len() && i < y.len() && x[i] == y[i]
        invariant
            i <= x@.len(),
            i <= y@.len(),
            x@ == a@,
            y@ == b@,
            lex_lt(a@, b@) == lex_lt(a@.skip(i as int), b@.skip(i as int)),
        decreases x@.len() - i,
    {
        assert(a@.skip(i as int).drop_first() =~= a@.skip(i + 1));
        assert(b@.skip(i as int).drop_first() =~= b@.skip(i + 1));
        i += 1;
    }
    if i == x.len() {
        assert(a@.skip(i as int).len() == 0);
        i < y.len()
    } else if i == y.len() {
        assert(b@.skip(i as int).len() == 0);
        false
    } else {
        assert(a@.skip(i as int)[0] == x@[i as int]);
        assert(b@.skip(i as int)[0] == y@[i as int]);
        (x[i] as u32) < (y[i] as u32)
    }
}

/// The keys of `entries`, in order.
pub open spec fn keys_of(entries: Seq<(String, usize)>) -> Seq<Seq<char>> {
    Seq::new(entries.len(), |i: int| entries[i].0@)
}

/// Strictly increasing keys.
pub open spec fn sorted_keys(ks: Seq<Seq<char>>) -> bool {
    forall|a: int, b: int| 0 <= a < b < ks.len() ==> lex_lt(#[trigger] ks[a], #[trigger] ks[b])
}

/// A chunker of a kind the router knows.
pub enum BuiltinChunker {
    Recursive(RecursiveChunker),
    Markdown(MarkdownChunker),
    Code(CodeChunker),
}

/// An entry of a router's pool: a chunker the router knows, or the chunker
/// of another kind at this position of the router's other chunkers.
pub enum Delegate {
    Builtin(BuiltinChunker),
    Other(usize),
}

/// What `c` returns for `text`, as its own contract states it.
pub open spec fn builtin_chunk_result(c: BuiltinChunker, text: Seq<char>, r: Result<ChunkedDocument, ChunkError>) -> bool {
    match c {
        BuiltinChunker::Recursive(rc) => r matches Ok(d) && chunks_are_spans(d.chunks@, normalize(text), recursive_spans(text, rc.config()))
            && d.strategy_fingerprint@ == rc.fingerprint_view(),
        BuiltinChunker::Markdown(mc) => r matches Ok(d) && d.strategy_fingerprint@ == markdown_fingerprint(mc.config())
            && (text.len() == 0 ==> d.chunks@.len() == 0) && (text.len() > 0 ==> markdown_chunks(d.chunks@, text, mc.config())),
        BuiltinChunker::Code(cc) => code_chunk_result(cc.language(), cc.config(), text, r),
    }
}

/// The pool entry that serves key `k` (a lowercased extension): the one
/// registered for it, else the fallback, the pool's first entry.
pub open spec fn served_in(entries: Seq<(String, usize)>, pool: Seq<Delegate>, k: Seq<char>) -> Delegate {
    match slot_of(entries, k) {
        Some(s) => pool[s as int],
        None => pool[0],
    }
}

/// Every registration names an entry of a non-empty pool.
pub open spec fn slots_valid(entries: Seq<(String, usize)>, n: nat) -> bool {
    n > 0 && forall|i: int| 0 <= i < entries.len() ==> (#[trigger] entries[i]).1 < n
}

/// Extension-keyed chunker dispatch.
///
/// The chunkers live in a pool whose first entry is the fallback; every
/// registered extension names the pool entry that serves it, so one chunker
/// can serve several extensions.
pub struct ChunkerRouter {
    by_extension: Vec<(String, usize)>,
    pool: Vec<Delegate>,
    others: Vec<Box<dyn Chunker>>,
    fingerprint: StrategyFingerprint,
}

/// Collects the extension registrations of a router.
pub struct ChunkerRouterBuilder {
    by_extension: Vec<(String, usize)>,
    pool: Vec<Delegate>,
    others: Vec<Box<dyn Chunker>>,
}

/// The configuration fingerprint of a router with extensions `ks` (sorted).
pub open spec fn router_fingerprint(ks: Seq<Seq<char>>) -> Seq<char>
    decreases ks.len(),
{
    if ks.len() == 0 {
        "router:v1"@
    } else {
        router_fingerprint(ks.drop_last()) + "|"@ + ks.last() + "=on"@
    }
}

/// The registered extension that a hint selects: its extension, ASCII
/// lowercased, when registered.
pub open spec fn routed_key(ks: Seq<Seq<char>>, hint: ChunkHint) -> Option<Seq<char>> {
    match hint.extension {
        Some(e) => if ks.contains(ascii_lower_seq(e@)) { Some(ascii_lower_seq(e@)) } else { None },
        None => None,
    }
}

/// The slot registered for key `k`, if any (the last registration of it).
pub open spec fn slot_of(entries: Seq<(String, usize)>, k: Seq<char>) -> Option<usize>
    decreases entries.len(),
{
    if entries.len() == 0 {
        None
    } else if entries.last().0@ == k {
        Some(entries.last().1)
    } else {
        slot_of(entries.drop_last(), k)
    }
}

/// With sorted keys, the slot of a registered key is the one its entry names.
proof fn lemma_slot_of_at(entries: Seq<(String, usize)>, i: int)
    requires
        sorted_keys(keys_of(entries)),
        0 <= i < entries.len(),
    ensures
        slot_of(entries, entries[i].0@) == Some(entries[i].1),
    decreases entries.len(),
{
    let k = entries[i].0@;
    let ks = keys_of(entries);
    let last = entries.len() - 1;
    if i < last {
        lemma_lex_total(k, k);
        assert(lex_lt(ks[i], ks[last]));
        assert(entries.last().0@ != k);
        let d = entries.drop_last();
        assert(keys_of(d) =~= ks.drop_last());
        assert(d[i] == entries[i]);
        lemma_slot_of_at(d, i);
    }
}

/// A key that is not registered has no slot.
proof fn lemma_slot_of_absent(entries: Seq<(String, usize)>, k: Seq<char>)
    requires
        !keys_of(entries).contains(k),
    ensures
        slot_of(entries, k) is None,
    decreases entries.len(),
{
    if entries.len() > 0 {
        let d = entries.drop_last();
        assert(keys_of(entries)[entries.len() - 1] == entries.last().0@);
        if keys_of(d).contains(k) {
            let j = choose|j: int| 0 <= j < keys_of(d).len() && keys_of(d)[j] == k;
            assert(keys_of(entries)[j] == k);
        }
        lemma_slot_of_absent(d, k);
    }
}

/// Maps `extension` to pool entry `slot` in the sorted registrations.
fn upsert(entries: &mut Vec<(String, usize)>, extension: &str, slot: usize)
    requires
        sorted_keys(keys_of(old(entries)@)),
    ensures
        sorted_keys(keys_of(final(entries)@)),
        forall|k: Seq<char>| keys_of(final(entries)@).contains(k) <==> (k == extension@ || keys_of(old(entries)@).contains(k)),
        forall|i: int| 0 <= i < final(entries)@.len() ==> ((#[trigger] final(entries)@[i]).0@ == extension@ ==> final(entries)@[i].1 == slot)
            && (final(entries)@[i].0@ != extension@ ==> exists|j: int| 0 <= j < old(entries)@.len() && old(entries)@[j] == final(entries)@[i]),
{
    let ghost old_e = entries@;
    let ghost old_keys = keys_of(entries@);
    let mut pos: usize = 0;
    while pos < entries.len() && lex_less(entries[pos].0.as_str(), extension)
        invariant
            pos <= entries@.len(),
            entries@ == old_e,
            keys_of(entries@) == old_keys,
            sorted_keys(old_keys),
            forall|k: int| 0 <= k < pos ==> lex_lt(#[trigger] old_keys[k], extension@),
        decreases entries@.len() - pos,
    {
        assert(old_keys[pos as int] == entries@[pos as int].0@);
        pos += 1;
    }
    if pos < entries.len() && str_eq(entries[pos].0.as_str(), extension) {
        let key = entries[pos].0.clone();
        entries.set(pos, (key, slot));
        proof {
            assert(keys_of(entries@) =~= old_keys);
            assert(old_keys[pos as int] == extension@);
            assert forall|i: int| 0 <= i < entries@.len() implies ((#[trigger] entries@[i]).0@ == extension@ ==> entries@[i].1 == slot)
                && (entries@[i].0@ != extension@ ==> exists|j: int| 0 <= j < old_e.len() && old_e[j] == entries@[i]) by {
                if i != pos {
                    assert(entries@[i] == old_e[i]);
                    if entries@[i].0@ == extension@ {
                        assert(old_keys[i] == old_keys[pos as int]);
                        lemma_lex_total(old_keys[i], old_keys[i]);
                    }
                }
            }
        }
        return;
    }
    proof {
        assert forall|k: int| pos <= k < old_keys.len() implies lex_lt(extension@, #[trigger] old_keys[k]) by {
            lemma_lex_total(old_keys[pos as int], extension@);
            assert(old_keys[pos as int] == entries@[pos as int].0@);
            if k > pos {
                lemma_lex_trans(extension@, old_keys[pos as int], old_keys[k]);
            }
        }
    }
    entries.insert(pos, (owned(extension), slot));
    proof {
        let nk = keys_of(entries@);
        assert(nk =~= old_keys.insert(pos as int, extension@));
        assert forall|a: int, b: int| 0 <= a < b < nk.len() implies lex_lt(#[trigger] nk[a], #[trigger] nk[b]) by {
            if a < pos && b > pos {
                lemma_lex_trans(nk[a], extension@, nk[b]);
            } else if a < pos && b < pos {
            } else if a > pos {
                assert(nk[a] == old_keys[a - 1]);
                assert(nk[b] == old_keys[b - 1]);
            }
        }
        assert forall|k: Seq<char>| nk.contains(k) <==> (k == extension@ || old_keys.contains(k)) by {
            if nk.contains(k) {
                let i = choose|i: int| 0 <= i < nk.len() && nk[i] == k;
                if i < pos {
                    assert(old_keys[i] == k);
                } else if i > pos {
                    assert(old_keys[i - 1] == k);
                }
            }
            if old_keys.contains(k) {
                let i = choose|i: int| 0 <= i < old_keys.len() && old_keys[i] == k;
                if i < pos {
                    assert(nk[i] == k);
                } else {
                    assert(nk[i + 1] == k);
                }
            }
            if k == extension@ {
                assert(nk[pos as int] == k);
            }
        }
        assert forall|i: int| 0 <= i < entries@.len() implies ((#[trigger] entries@[i]).0@ == extension@ ==> entries@[i].1 == slot)
            && (entries@[i].0@ != extension@ ==> exists|j: int| 0 <= j < old_e.len() && old_e[j] == entries@[i]) by {
            if i < pos {
                assert(entries@[i] == old_e[i]);
                assert(lex_lt(old_keys[i], extension@));
                lemma_lex_total(old_keys[i], extension@);
            } else if i > pos {
                assert(entries@[i] == old_e[i - 1]);
                assert(lex_lt(extension@, old_keys[i - 1]));
                lemma_lex_total(old_keys[i - 1], extension@);
            }
        }
    }
}

/// How registering `ext` at `slot` changes which entry serves each key.
proof fn lemma_upsert_served(
    old_e: Seq<(String, usize)>,
    new_e: Seq<(String, usize)>,
    ext: Seq<char>,
    slot: usize,
    old_pool: Seq<Delegate>,
    new_pool: Seq<Delegate>,
)
    requires
        sorted_keys(keys_of(old_e)),
        sorted_keys(keys_of(new_e)),
        slots_valid(old_e, old_pool.len()),
        old_pool.len() <= new_pool.len(),
        forall|i: int| 0 <= i < old_pool.len() ==> new_pool[i] == old_pool[i],
        slot < new_pool.len(),
        forall|k: Seq<char>| keys_of(new_e).contains(k) <==> (k == ext || keys_of(old_e).contains(k)),
        forall|i: int| 0 <= i < new_e.len() ==> ((#[trigger] new_e[i]).0@ == ext ==> new_e[i].1 == slot)
            && (new_e[i].0@ != ext ==> exists|j: int| 0 <= j < old_e.len() && old_e[j] == new_e[i]),
    ensures
        slots_valid(new_e, new_pool.len()),
        forall|k: Seq<char>| #[trigger] served_in(new_e, new_pool, k) === (if k == ext { new_pool[slot as int] } else { served_in(old_e, old_pool, k) }),
{
    assert forall|i: int| 0 <= i < new_e.len() implies (#[trigger] new_e[i]).1 < new_pool.len() by {
        if new_e[i].0@ != ext {
            let j = choose|j: int| 0 <= j < old_e.len() && old_e[j] == new_e[i];
            assert(old_e[j].1 < old_pool.len());
        }
    }
    assert forall|k: Seq<char>| #[trigger] served_in(new_e, new_pool, k) === (if k == ext { new_pool[slot as int] } else { served_in(old_e, old_pool, k) }) by {
        if keys_of(new_e).contains(k) {
            let i = choose|i: int| 0 <= i < keys_of(new_e).len() && keys_of(new_e)[i] == k;
            assert(new_e[i].0@ == k);
            lemma_slot_of_at(new_e, i);
            if k != ext {
                let j = choose|j: int| 0 <= j < old_e.len() && old_e[j] == new_e[i];
                assert(old_e[j].0@ == k);
                lemma_slot_of_at(old_e, j);
                assert(old_e[j].1 < old_pool.len());
            }
        } else {
            lemma_slot_of_absent(new_e, k);
            lemma_slot_of_absent(old_e, k);
        }
    }
}

impl ChunkerRouterBuilder {
    /// The registered extensions, in increasing order.
    pub closed spec fn keys(&self) -> Seq<Seq<char>> {
        keys_of(self.by_extension@)
    }

    pub closed spec fn wf(&self) -> bool {
        &&& sorted_keys(keys_of(self.by_extension@))
        &&& slots_valid(self.by_extension@, self.pool@.len())
    }

    #[verifier::type_invariant]
    spec fn inv(self) -> bool {
        self.wf()
    }

    /// The pool entry that serves key `k` (a lowercased extension).
    pub closed spec fn served(&self, k: Seq<char>) -> Delegate {
        served_in(self.by_extension@, self.pool@, k)
    }

    /// The fallback: the entry that serves every key not registered.
    pub closed spec fn fallback(&self) -> Delegate {
        self.pool@[0]
    }

    /// Registers `chunker` for `extension`; a later registration of the same
    /// extension replaces the earlier one.
    pub fn register_builtin(self, extension: &str, chunker: BuiltinChunker) -> (b: Self)
        ensures
            b.wf(),
            forall|k: Seq<char>| b.keys().contains(k) <==> (k == extension@ || self.keys().contains(k)),
            b.fallback() === self.fallback(),
            forall|k: Seq<char>| #[trigger] b.served(k) === (if k == extension@ { Delegate::Builtin(chunker) } else { self.served(k) }),
    {
        proof {
            use_type_invariant(&self);
        }
        let ghost old_entries = self.by_extension@;
        let ghost old_pool = self.pool@;
        let ghost c = chunker;
        let ChunkerRouterBuilder { mut by_extension, mut pool, others } = self;
        let slot = pool.len();
        pool.push(Delegate::Builtin(chunker));
        upsert(&mut by_extension, extension, slot);
        proof {
            assert(pool@[slot as int] === Delegate::Builtin(c));
            lemma_upsert_served(old_entries, by_extension@, extension@, slot, old_pool, pool@);
        }
        ChunkerRouterBuilder { by_extension, pool, others }
    }

    /// Registers `chunker`, of a kind the router does not know, for
    /// `extension`; a later registration of the same extension replaces the
    /// earlier one.
    pub fn register(self, extension: &str, chunker: Box<dyn Chunker>) -> (b: Self)
        ensures
            b.wf(),
            forall|k: Seq<char>| b.keys().contains(k) <==> (k == extension@ || self.keys().contains(k)),
            b.fallback() === self.fallback(),
            b.served(extension@) is Other,
            forall|k: Seq<char>| k != extension@ ==> #[trigger] b.served(k) === self.served(k),
    {
        proof {
            use_type_invariant(&self);
        }
        let ghost old_entries = self.by_extension@;
        let ghost old_pool = self.pool@;
        let ChunkerRouterBuilder { mut by_extension, mut pool, mut others } = self;
        let index = others.len();
        others.push(chunker);
        let slot = pool.len();
        pool.push(Delegate::Other(index));
        upsert(&mut by_extension, extension, slot);
        proof {
            lemma_upsert_served(old_entries, by_extension@, extension@, slot, old_pool, pool@);
            assert(served_in(by_extension@, pool@, extension@) == pool@[slot as int]);
        }
        ChunkerRouterBuilder { by_extension, pool, others }
    }

    /// Registers `extension` to be served by the chunker already registered
    /// for `existing`, or by the fallback when `existing` is not registered.
    pub fn register_shared(self, extension: &str, existing: &str) -> (b: Self)
        ensures
            b.wf(),
            forall|k: Seq<char>| b.keys().contains(k) <==> (k == extension@ || self.keys().contains(k)),
            b.fallback() === self.fallback(),
            forall|k: Seq<char>| #[trigger] b.served(k) === (if k == extension@ { self.served(existing@) } else { self.served(k) }),
    {
        proof {
            use_type_invariant(&self);
        }
        let ghost old_entries = self.by_extension@;
        let ghost old_pool = self.pool@;
        let ChunkerRouterBuilder { mut by_extension, pool, others } = self;
        let mut slot: usize = 0;
        let mut i: usize = 0;
        while i < by_extension.len()
            invariant
                i <= by_extension@.len(),
                by_extension@ == old_entries,
                pool@ == old_pool,
                sorted_keys(keys_of(old_entries)),
                slots_valid(old_entries, old_pool.len()),
                slot < old_pool.len(),
                (exists|j: int| 0 <= j < i && (#[trigger] old_entries[j]).0@ == existing@) ==> slot_of(old_entries, existing@)
                    == Some(slot),
                !(exists|j: int| 0 <= j < i && (#[trigger] old_entries[j]).0@ == existing@) ==> slot == 0,
            decreases by_extension@.len() - i,
        {
            if str_eq(by_extension[i].0.as_str(), existing) {
                slot = by_extension[i].1;
                proof {
                    lemma_slot_of_at(old_entries, i as int);
                }
            }
            i += 1;
        }
        proof {
            if keys_of(old_entries).contains(existing@) {
                let j = choose|j: int| 0 <= j < keys_of(old_entries).len() && keys_of(old_entries)[j] == existing@;
                assert(old_entries[j].0@ == existing@);
            } else {
                lemma_slot_of_absent(old_entries, existing@);
            }
            assert(served_in(old_entries, old_pool, existing@) === old_pool[slot as int]);
        }
        upsert(&mut by_extension, extension, slot);
        proof {
            lemma_upsert_served(old_entries, by_extension@, extension@, slot, old_pool, pool@);
        }
        ChunkerRouterBuilder { by_extension, pool, others }
    }

    /// The router, with its configuration fingerprint listing the registered
    /// extensions in order.
    pub fn build(self) -> (r: ChunkerRouter)
        ensures
            r.wf(),
            r.keys() == self.keys(),
            r.fallback() === self.fallback(),
            forall|k: Seq<char>| #[trigger] r.served(k) === self.served(k),
            r.config_fingerprint_view() == router_fingerprint(self.keys()),
    {
        proof {
            use_type_invariant(&self);
        }
        let mut summary = owned("router:v1");
        let mut i: usize = 0;
        while i < self.by_extension.len()
            invariant
                i <= self.by_extension@.len(),
                summary@ == router_fingerprint(keys_of(self.by_extension@).take(i as int)),
            decreases self.by_extension@.len() - i,
        {
            summary.push_str("|");
            summary.push_str(self.by_extension[i].0.as_str());
            summary.push_str("=on");
            proof {
                let ks = keys_of(self.by_extension@);
                assert(ks.take(i + 1).drop_last() =~= ks.take(i as int));
                assert(ks.take(i + 1).last() == self.by_extension@[i as int].0@);
                assert(ks.take(0) =~= Seq::<Seq<char>>::empty());
            }
            i += 1;
        }
        proof {
            assert(keys_of(self.by_extension@).take(self.by_extension@.len() as int) =~= keys_of(self.by_extension@));
            assert(keys_of(self.by_extension@).take(0) =~= Seq::<Seq<char>>::empty());
        }
        ChunkerRouter {
            by_extension: self.by_extension,
            pool: self.pool,
            others: self.others,
            fingerprint: StrategyFingerprint::new(summary),
        }
    }
}

impl ChunkerRouter {
    pub closed spec fn keys(&self) -> Seq<Seq<char>> {
        keys_of(self.by_extension@)
    }

    pub closed spec fn wf(&self) -> bool {
        &&& sorted_keys(keys_of(self.by_extension@))
        &&& slots_valid(self.by_extension@, self.pool@.len())
        &&& self.fingerprint@ == router_fingerprint(keys_of(self.by_extension@))
    }

    #[verifier::type_invariant]
    spec fn inv(self) -> bool {
        self.wf()
    }

    /// The pool entry that serves key `k` (a lowercased extension).
    pub closed spec fn served(&self, k: Seq<char>) -> Delegate {
        served_in(self.by_extension@, self.pool@, k)
    }

    /// The fallback: the entry that serves every key not registered.
    pub closed spec fn fallback(&self) -> Delegate {
        self.pool@[0]
    }

    /// The router's chunkers of kinds it does not know, by position.
    pub closed spec fn others(&self) -> Seq<Box<dyn Chunker>> {
        self.others@
    }

    /// The answer `r` for `text` and `hint` is the one the serving chunker
    /// gives: for a chunker the router knows, what its contract states; for
    /// another, what that chunker promises of its own answers.
    pub open spec fn delegated_outcome(&self, text: Seq<char>, hint: ChunkHint, r: Result<ChunkedDocument, ChunkError>) -> bool {
        match self.target(hint) {
            Delegate::Builtin(c) => builtin_chunk_result(c, text, r),
            Delegate::Other(k) => if k < self.others().len() {
                self.others()[k as int].chunk_outcome(text, hint, r)
            } else {
                r matches Err(ChunkError::InvalidConfig(_))
            },
        }
    }

    /// The pool entry that serves `hint`: the one for its extension, ASCII
    /// lowercased, or the fallback when it has none.
    pub open spec fn target(&self, hint: ChunkHint) -> Delegate {
        match hint.extension {
            Some(e) => self.served(ascii_lower_seq(e@)),
            None => self.fallback(),
        }
    }

    pub closed spec fn config_fingerprint_view(&self) -> Seq<char> {
        self.fingerprint@
    }

    /// A builder whose fallback is `default`, of a kind the router does not
    /// know.
    pub fn builder(default: Box<dyn Chunker>) -> (b: ChunkerRouterBuilder)
        ensures
            b.wf(),
            b.keys().len() == 0,
            b.fallback() == Delegate::Other(0),
    {
        let mut others: Vec<Box<dyn Chunker>> = Vec::new();
        others.push(default);
        let mut pool: Vec<Delegate> = Vec::new();
        pool.push(Delegate::Other(0));
        let by_extension: Vec<(String, usize)> = Vec::new();
        let b = ChunkerRouterBuilder { by_extension, pool, others };
        proof {
            assert(keys_of(b.by_extension@) =~= Seq::<Seq<char>>::empty());
        }
        b
    }

    /// A builder whose fallback is `default`.
    pub fn builder_builtin(default: BuiltinChunker) -> (b: ChunkerRouterBuilder)
        ensures
            b.wf(),
            b.keys().len() == 0,
            b.fallback() === Delegate::Builtin(default),
    {
        let ghost d = default;
        let others: Vec<Box<dyn Chunker>> = Vec::new();
        let mut pool: Vec<Delegate> = Vec::new();
        pool.push(Delegate::Builtin(default));
        let by_extension: Vec<(String, usize)> = Vec::new();
        let b = ChunkerRouterBuilder { by_extension, pool, others };
        proof {
            assert(keys_of(b.by_extension@) =~= Seq::<Seq<char>>::empty());
            assert(b.pool@[0] === Delegate::Builtin(d));
        }
        b
    }

    /// The router's own configuration fingerprint, for diagnostics.
    pub fn config_fingerprint(&self) -> (f: &StrategyFingerprint)
        ensures
            f@ == self.config_fingerprint_view(),
    {
        &self.fingerprint
    }

    /// The registration serving the hint: the position of its extension
    /// (ASCII lowercased) among the registered ones, or `None` for the
    /// fallback.
    pub fn route(&self, hint: &ChunkHint) -> (r: Option<usize>)
        requires
            self.wf(),
        ensures
            r is None <==> routed_key(self.keys(), *hint) is None,
            r matches Some(i) ==> i < self.keys().len() && Some(self.keys()[i as int]) == routed_key(self.keys(), *hint),
    {
        match &hint.extension {
            None => None,
            Some(e) => {
                assert(hint.extension == Some(*e));
                let lower = ascii_lowercase(e.as_str());
                let mut i: usize = 0;
                while i < self.by_extension.len()
                    invariant
                        i <= self.by_extension@.len(),
                        lower@ == ascii_lower_seq(e@),
                        hint.extension == Some(*e),
                        forall|k: int| 0 <= k < i ==> (#[trigger] keys_of(self.by_extension@)[k]) != lower@,
                    decreases self.by_extension@.len() - i,
                {
                    if str_eq(self.by_extension[i].0.as_str(), lower.as_str()) {
                        proof {
                            assert(keys_of(self.by_extension@)[i as int] == lower@);
                            assert(keys_of(self.by_extension@).contains(lower@));
                        }
                        return Some(i);
                    }
                    i += 1;
                }
                proof {
                    if keys_of(self.by_extension@).contains(lower@) {
                        let k = choose|k: int| 0 <= k < keys_of(self.by_extension@).len() && keys_of(self.by_extension@)[k] == lower@;
                    }
                }
                None
            },
        }
    }
}

/// ASCII lowercase of a string.
pub fn ascii_lowercase(s: &str) -> (r: String)
    ensures
        r@ == ascii_lower_seq(s@),
{
    let chars = crate::text::chars_of(s);
    let mut r = String::new();
    let mut i: usize = 0;
    while i < chars.len()
        invariant
            i <= chars@.len(),
            chars@ == s@,
            r@ == ascii_lower_seq(s@).take(i as int),
        decreases chars@.len() - i,
    {
        r.push(to_ascii_lower_char(chars[i]));
        assert(ascii_lower_seq(s@).take(i + 1) =~= ascii_lower_seq(s@).take(i as int).push(ascii_lower(chars@[i as int])));
        i += 1;
    }
    assert(ascii_lower_seq(s@).take(chars@.len() as int) =~= ascii_lower_seq(s@));
    r
}

impl Chunker for ChunkerRouter {
    /// Delegates to the chunker that serves the hint and returns its result
    /// unchanged: for a chunker the router knows, the result its contract
    /// states.
    open spec fn chunk_outcome(&self, text: Seq<char>, hint: ChunkHint, r: Result<ChunkedDocument, ChunkError>) -> bool {
        self.delegated_outcome(text, hint, r)
    }

    fn chunk(&self, text: &str, hint: &ChunkHint) -> (r: Result<ChunkedDocument, ChunkError>)
        ensures
            self.delegated_outcome(text@, *hint, r),
    {
        proof {
            use_type_invariant(self);
        }
        let slot = match self.route_checked(hint) {
            Some(i) => {
                proof {
                    lemma_slot_of_at(self.by_extension@, i as int);
                }
                self.by_extension[i].1
            },
            None => {
                proof {
                    if hint.extension is Some {
                        lemma_slot_of_absent(self.by_extension@, ascii_lower_seq(hint.extension->Some_0@));
                    }
                }
                0
            },
        };
        assert(self.pool@[slot as int] === self.target(*hint));
        match &self.pool[slot] {
            Delegate::Builtin(BuiltinChunker::Recursive(c)) => c.chunk(text, hint),
            Delegate::Builtin(BuiltinChunker::Markdown(c)) => c.chunk(text, hint),
            Delegate::Builtin(BuiltinChunker::Code(c)) => c.chunk(text, hint),
            Delegate::Other(k) => {
                if *k < self.others.len() {
                    self.others[*k].chunk(text, hint)
                } else {
                    Err(ChunkError::InvalidConfig(owned("router has no chunker at this position")))
                }
            },
        }
    }
}

impl ChunkerRouter {
    /// The position of the registration for the hint's extension (ASCII
    /// lowercased), `None` when there is none.
    fn route_checked(&self, hint: &ChunkHint) -> (r: Option<usize>)
        ensures
            r is None <==> routed_key(self.keys(), *hint) is None,
            r matches Some(i) ==> i < self.keys().len() && Some(self.keys()[i as int]) == routed_key(self.keys(), *hint)
                && forall|k: int| 0 <= k < i ==> #[trigger] self.keys()[k] != self.keys()[i as int],
    {
        match &hint.extension {
            None => None,
            Some(e) => {
                assert(hint.extension == Some(*e));
                let lower = ascii_lowercase(e.as_str());
                let mut i: usize = 0;
                while i < self.by_extension.len()
                    invariant
                        i <= self.by_extension@.len(),
                        lower@ == ascii_lower_seq(e@),
                        hint.extension == Some(*e),
                        forall|k: int| 0 <= k < i ==> (#[trigger] keys_of(self.by_extension@)[k]) != lower@,
                    decreases self.by_extension@.len() - i,
                {
                    if str_eq(self.by_extension[i].0.as_str(), lower.as_str()) {
                        proof {
                            assert(keys_of(self.by_extension@)[i as int] == lower@);
                            assert(keys_of(self.by_extension@).contains(lower@));
                        }
                        return Some(i);
                    }
                    i += 1;
                }
                proof {
                    if keys_of(self.by_extension@).contains(lower@) {
                        let k = choose|k: int| 0 <= k < keys_of(self.by_extension@).len() && keys_of(self.by_extension@)[k] == lower@;
                    }
                }
                None
            },
        }
    }
}

/// The extensions every production router registers.
pub open spec fn routed_extensions() -> Set<Seq<char>> {
    set![
        "md"@, "markdown"@, "mdx"@, "rs"@, "py"@, "pyi"@, "js"@, "mjs"@, "cjs"@, "jsx"@, "ts"@, "tsx"@,
        "go"@, "java"@, "c"@, "h"@, "cpp"@, "cc"@, "cxx"@, "hpp"@, "hh"@, "hxx"@, "rb"@, "sh"@, "bash"@,
    ]
}

/// The characters of the extensions the production routers register.
proof fn lemma_extension_literals()
    ensures
        "md"@.len() == 2,
        "md"@[0] == 'm',
        "md"@[1] == 'd',
        "markdown"@.len() == 8,
        "markdown"@[0] == 'm',
        "markdown"@[1] == 'a',
        "markdown"@[2] == 'r',
        "markdown"@[3] == 'k',
        "markdown"@[4] == 'd',
        "markdown"@[5] == 'o',
        "markdown"@[6] == 'w',
        "markdown"@[7] == 'n',
        "mdx"@.len() == 3,
        "mdx"@[0] == 'm',
        "mdx"@[1] == 'd',
        "mdx"@[2] == 'x',
        "rs"@.len() == 2,
        "rs"@[0] == 'r',
        "rs"@[1] == 's',
        "py"@.len() == 2,
        "py"@[0] == 'p',
        "py"@[1] == 'y',
        "pyi"@.len() == 3,
        "pyi"@[0] == 'p',
        "pyi"@[1] == 'y',
        "pyi"@[2] == 'i',
        "js"@.len() == 2,
        "js"@[0] == 'j',
        "js"@[1] == 's',
        "mjs"@.len() == 3,
        "mjs"@[0] == 'm',
        "mjs"@[1] == 'j',
        "mjs"@[2] == 's',
        "cjs"@.len() == 3,
        "cjs"@[0] == 'c',
        "cjs"@[1] == 'j',
        "cjs"@[2] == 's',
        "jsx"@.len() == 3,
        "jsx"@[0] == 'j',
        "jsx"@[1] == 's',
        "jsx"@[2] == 'x',
        "ts"@.len() == 2,
        "ts"@[0] == 't',
        "ts"@[1] == 's',
        "tsx"@.len() == 3,
        "tsx"@[0] == 't',
        "tsx"@[1] == 's',
        "tsx"@[2] == 'x',
        "go"@.len() == 2,
        "go"@[0] == 'g',
        "go"@[1] == 'o',
        "java"@.len() == 4,
        "java"@[0] == 'j',
        "java"@[1] == 'a',
        "java"@[2] == 'v',
        "java"@[3] == 'a',
        "c"@.len() == 1,
        "c"@[0] == 'c',
        "h"@.len() == 1,
        "h"@[0] == 'h',
        "cpp"@.len() == 3,
        "cpp"@[0] == 'c',
        "cpp"@[1] == 'p',
        "cpp"@[2] == 'p',
        "cc"@.len() == 2,
        "cc"@[0] == 'c',
        "cc"@[1] == 'c',
        "cxx"@.len() == 3,
        "cxx"@[0] == 'c',
        "cxx"@[1] == 'x',
        "cxx"@[2] == 'x',
        "hpp"@.len() == 3,
        "hpp"@[0] == 'h',
        "hpp"@[1] == 'p',
        "hpp"@[2] == 'p',
        "hh"@.len() == 2,
        "hh"@[0] == 'h',
        "hh"@[1] == 'h',
        "hxx"@.len() == 3,
        "hxx"@[0] == 'h',
        "hxx"@[1] == 'x',
        "hxx"@[2] == 'x',
        "rb"@.len() == 2,
        "rb"@[0] == 'r',
        "rb"@[1] == 'b',
        "sh"@.len() == 2,
        "sh"@[0] == 's',
        "sh"@[1] == 'h',
        "bash"@.len() == 4,
        "bash"@[0] == 'b',
        "bash"@[1] == 'a',
        "bash"@[2] == 's',
        "bash"@[3] == 'h',
{
    reveal_strlit("md");
    reveal_strlit("markdown");
    reveal_strlit("mdx");
    reveal_strlit("rs");
    reveal_strlit("py");
    reveal_strlit("pyi");
    reveal_strlit("js");
    reveal_strlit("mjs");
    reveal_strlit("cjs");
    reveal_strlit("jsx");
    reveal_strlit("ts");
    reveal_strlit("tsx");
    reveal_strlit("go");
    reveal_strlit("java");
    reveal_strlit("c");
    reveal_strlit("h");
    reveal_strlit("cpp");
    reveal_strlit("cc");
    reveal_strlit("cxx");
    reveal_strlit("hpp");
    reveal_strlit("hh");
    reveal_strlit("hxx");
    reveal_strlit("rb");
    reveal_strlit("sh");
    reveal_strlit("bash");
}

/// The language of the code chunker the production routers register for
/// extension `k`.
pub open spec fn code_lang_for(k: Seq<char>) -> Option<Lang> {
    if k == "rs"@ {
        Some(Lang::Rust)
    } else if k == "py"@ || k == "pyi"@ {
        Some(Lang::Python)
    } else if k == "js"@ || k == "mjs"@ || k == "cjs"@ || k == "jsx"@ {
        Some(Lang::JavaScript)
    } else if k == "ts"@ {
        Some(Lang::TypeScript)
    } else if k == "tsx"@ {
        Some(Lang::Tsx)
    } else if k == "go"@ {
        Some(Lang::Go)
    } else if k == "java"@ {
        Some(Lang::Java)
    } else if k == "c"@ || k == "h"@ {
        Some(Lang::C)
    } else if k == "cpp"@ || k == "cc"@ || k == "cxx"@ || k == "hpp"@ || k == "hh"@ || k == "hxx"@ {
        Some(Lang::Cpp)
    } else if k == "rb"@ {
        Some(Lang::Ruby)
    } else if k == "sh"@ || k == "bash"@ {
        Some(Lang::Bash)
    } else {
        None
    }
}

/// The extensions the production router hands to the markdown chunker.
pub open spec fn is_markdown_extension(k: Seq<char>) -> bool {
    k == "md"@ || k == "markdown"@ || k == "mdx"@
}

/// `d` is the code chunker for `lang` with configuration `base`.
pub open spec fn serves_code(d: Delegate, lang: Lang, base: RecursiveConfig) -> bool {
    d matches Delegate::Builtin(BuiltinChunker::Code(c)) && c.language() == lang && c.config() == base
}

/// `d` is the recursive chunker with configuration `base`.
pub open spec fn serves_recursive(d: Delegate, base: RecursiveConfig) -> bool {
    d matches Delegate::Builtin(BuiltinChunker::Recursive(c)) && c.config() == base
        && c.fingerprint_view() == recursive_fingerprint(base)
}

/// `d` is the markdown chunker with configuration `base`.
pub open spec fn serves_markdown(d: Delegate, base: RecursiveConfig) -> bool {
    d matches Delegate::Builtin(BuiltinChunker::Markdown(c)) && c.config() == base
}

/// What the production router serves key `k` with.
pub open spec fn default_serves(d: Delegate, k: Seq<char>, base: RecursiveConfig) -> bool {
    if is_markdown_extension(k) {
        serves_markdown(d, base)
    } else {
        match code_lang_for(k) {
            Some(l) => serves_code(d, l, base),
            None => serves_recursive(d, base),
        }
    }
}

/// What the semantic router serves key `k` with: the code chunkers, else its
/// fallback.
pub open spec fn semantic_serves(d: Delegate, k: Seq<char>, base: RecursiveConfig) -> bool {
    match code_lang_for(k) {
        Some(l) => serves_code(d, l, base),
        None => d == Delegate::Other(0),
    }
}

/// The code chunker for `lang` with configuration `base`.
fn code_chunker_for(lang: Lang, base: RecursiveConfig) -> (c: BuiltinChunker)
    requires
        config_ok(base),
        base.metric == SizeMetric::Chars,
    ensures
        serves_code(Delegate::Builtin(c), lang, base),
{
    BuiltinChunker::Code(CodeChunker::new(lang, base).unwrap())
}

/// Registers the code chunkers shared by both production routers.
#[verifier::rlimit(60)]
fn register_code(b: ChunkerRouterBuilder, base: RecursiveConfig) -> (r: ChunkerRouterBuilder)
    requires
        config_ok(base),
        base.metric == SizeMetric::Chars,
    ensures
        r.wf(),
        forall|k: Seq<char>| r.keys().contains(k) <==> (b.keys().contains(k) || set![
            "rs"@, "py"@, "pyi"@, "js"@, "mjs"@, "cjs"@, "jsx"@, "ts"@, "tsx"@, "go"@, "java"@, "c"@, "h"@,
            "cpp"@, "cc"@, "cxx"@, "hpp"@, "hh"@, "hxx"@, "rb"@, "sh"@, "bash"@,
        ].contains(k)),
        r.fallback() === b.fallback(),
        forall|k: Seq<char>| (code_lang_for(k) matches Some(l) ==> serves_code(#[trigger] r.served(k), l, base))
            && (code_lang_for(k) is None ==> r.served(k) === b.served(k)),
{
    proof {
        use_type_invariant(&b);
        lemma_extension_literals();
    }
    let b = b.register_builtin("rs", code_chunker_for(Lang::Rust, base));
    let b = b.register_builtin("py", code_chunker_for(Lang::Python, base));
    let b = b.register_shared("pyi", "py");
    let b = b.register_builtin("js", code_chunker_for(Lang::JavaScript, base));
    let b = b.register_shared("mjs", "js");
    let b = b.register_shared("cjs", "js");
    let b = b.register_shared("jsx", "js");
    let b = b.register_builtin("ts", code_chunker_for(Lang::TypeScript, base));
    let b = b.register_builtin("tsx", code_chunker_for(Lang::Tsx, base));
    let b = b.register_builtin("go", code_chunker_for(Lang::Go, base));
    let b = b.register_builtin("java", code_chunker_for(Lang::Java, base));
    let b = b.register_builtin("c", code_chunker_for(Lang::C, base));
    let b = b.register_shared("h", "c");
    let b = b.register_builtin("cpp", code_chunker_for(Lang::Cpp, base));
    let b = b.register_shared("cc", "cpp");
    let b = b.register_shared("cxx", "cpp");
    let b = b.register_shared("hpp", "cpp");
    let b = b.register_shared("hh", "cpp");
    let b = b.register_shared("hxx", "cpp");
    let b = b.register_builtin("rb", code_chunker_for(Lang::Ruby, base));
    let b = b.register_builtin("sh", code_chunker_for(Lang::Bash, base));
    let b = b.register_shared("bash", "sh");
    b
}

/// The production router: markdown for `md`, `markdown` and `mdx`, the code
/// chunker for the supported languages, and the recursive chunker for
/// everything else. Fails exactly as [`RecursiveChunker::new`] does.
#[verifier::rlimit(30)]
pub fn default_router(base: RecursiveConfig) -> (r: Result<ChunkerRouter, ChunkError>)
    ensures
        !config_ok(base) ==> (r matches Err(ChunkError::InvalidConfig(m)) && m@ == config_error_message(base)),
        config_ok(base) && base.metric == SizeMetric::Tokens ==> (r matches Err(e) && e is Tokenizer),
        config_ok(base) && base.metric == SizeMetric::Chars ==> (r matches Ok(router) && router.wf()
            && (forall|k: Seq<char>| #[trigger] router.keys().contains(k) <==> routed_extensions().contains(k))
            && router.config_fingerprint_view() == router_fingerprint(router.keys())
            && serves_recursive(router.fallback(), base)
            && (forall|k: Seq<char>| #[trigger] default_serves(router.served(k), k, base))),
{
    let default = match RecursiveChunker::new(base) {
        Ok(c) => c,
        Err(e) => return Err(e),
    };
    let md = match MarkdownChunker::new(base) {
        Ok(c) => c,
        Err(e) => return Err(e),
    };
    proof {
        lemma_extension_literals();
    }
    let b = ChunkerRouter::builder_builtin(BuiltinChunker::Recursive(default));
    let b = b.register_builtin("md", BuiltinChunker::Markdown(md));
    let b = b.register_shared("markdown", "md");
    let b = b.register_shared("mdx", "md");
    let b = register_code(b, base);
    let router = b.build();
    proof {
        assert forall|k: Seq<char>| #[trigger] router.keys().contains(k) <==> routed_extensions().contains(k) by {}
        assert forall|k: Seq<char>| #[trigger] default_serves(router.served(k), k, base) by {
            assert(router.served(k) === b.served(k));
        }
    }
    Ok(router)
}

/// The router that hands markdown and every unregistered extension to
/// `semantic` (its fallback), keeping the code chunkers. Fails exactly as
/// [`RecursiveChunker::new`] does.
pub fn semantic_router(base: RecursiveConfig, semantic: Box<dyn Chunker>) -> (r: Result<ChunkerRouter, ChunkError>)
    ensures
        !config_ok(base) ==> (r matches Err(ChunkError::InvalidConfig(m)) && m@ == config_error_message(base)),
        config_ok(base) && base.metric == SizeMetric::Tokens ==> (r matches Err(e) && e is Tokenizer),
        config_ok(base) && base.metric == SizeMetric::Chars ==> (r matches Ok(router) && router.wf()
            && (forall|k: Seq<char>| #[trigger] router.keys().contains(k) <==> routed_extensions().contains(k))
            && router.config_fingerprint_view() == router_fingerprint(router.keys())
            && router.fallback() == Delegate::Other(0)
            && (forall|k: Seq<char>| #[trigger] semantic_serves(router.served(k), k, base))),
{
    match RecursiveChunker::new(base) {
        Ok(_) => {},
        Err(e) => return Err(e),
    }
    let b = ChunkerRouter::builder(semantic);
    let b = b.register_shared("md", "");
    let b = b.register_shared("markdown", "");
    let b = b.register_shared("mdx", "");
    let b = register_code(b, base);
    let router = b.build();
    proof {
        assert forall|k: Seq<char>| #[trigger] router.keys().contains(k) <==> routed_extensions().contains(k) by {}
        assert forall|k: Seq<char>| #[trigger] semantic_serves(router.served(k), k, base) by {
            assert(router.served(k) === b.served(k));
        }
    }
    Ok(router)
}

proof fn lemma_sorted_tail_excludes_head(a: Seq<Seq<char>>, k: Seq<char>)
    requires
        sorted_keys(a),
        a.len() > 0,
        a.drop_first().contains(k),
    ensures
        k != a[0],
{
    let i = choose|i: int| 0 <= i < a.drop_first().len() && a.drop_first()[i] == k;
    assert(a[i + 1] == k);
    assert(lex_lt(a[0], a[i + 1]));
    lemma_lex_total(k, k);
}

proof fn lemma_sorted_unique(a: Seq<Seq<char>>, b: Seq<Seq<char>>)
    requires
        sorted_keys(a),
        sorted_keys(b),
        forall|k: Seq<char>| a.contains(k) <==> b.contains(k),
    ensures
        a == b,
    decreases a.len(),
{
    if a.len() == 0 {
        if b.len() > 0 {
            assert(b.contains(b[0]));
        }
        assert(a =~= b);
    } else {
        assert(a.contains(a[0]));
        let j = choose|j: int| 0 <= j < b.len() && b[j] == a[0];
        assert(b.contains(b[0]));
        let m = choose|m: int| 0 <= m < a.len() && a[m] == b[0];
        lemma_lex_total(a[0], b[0]);
        if m > 0 && j > 0 {
            assert(lex_lt(a[0], a[m]));
            assert(lex_lt(b[0], b[j]));
        }
        assert(a[0] == b[0]);
        let a1 = a.drop_first();
        let b1 = b.drop_first();
        assert forall|k: Seq<char>| a1.contains(k) <==> b1.contains(k) by {
            if a1.contains(k) {
                lemma_sorted_tail_excludes_head(a, k);
                let i = choose|i: int| 0 <= i < a1.len() && a1[i] == k;
                assert(a.contains(a[i + 1]));
                let q = choose|q: int| 0 <= q < b.len() && b[q] == k;
                assert(q != 0);
                assert(b1[q - 1] == k);
            }
            if b1.contains(k) {
                lemma_sorted_tail_excludes_head(b, k);
                let i = choose|i: int| 0 <= i < b1.len() && b1[i] == k;
                assert(b.contains(b[i + 1]));
                let q = choose|q: int| 0 <= q < a.len() && a[q] == k;
                assert(q != 0);
                assert(a1[q - 1] == k);
            }
        }
        assert(sorted_keys(a1)) by {
            assert forall|x: int, y: int| 0 <= x < y < a1.len() implies lex_lt(#[trigger] a1[x], #[trigger] a1[y]) by {
                assert(a1[x] == a[x + 1] && a1[y] == a[y + 1]);
            }
        }
        assert(sorted_keys(b1)) by {
            assert forall|x: int, y: int| 0 <= x < y < b1.len() implies lex_lt(#[trigger] b1[x], #[trigger] b1[y]) by {
                assert(b1[x] == b[x + 1] && b1[y] == b[y + 1]);
            }
        }
        lemma_sorted_unique(a1, b1);
        assert(a =~= seq![a[0]] + a1);
        assert(b =~= seq![b[0]] + b1);
    }
}

/// A router's configuration fingerprint does not depend on the order of
/// registration: two builders with the same extensions registered list them
/// alike, so the routers they build carry the same fingerprint.
pub proof fn law_fingerprint_ignores_registration_order(a: ChunkerRouterBuilder, b: ChunkerRouterBuilder)
    requires
        a.wf(),
        b.wf(),
        forall|k: Seq<char>| a.keys().contains(k) <==> b.keys().contains(k),
    ensures
        a.keys() == b.keys(),
        router_fingerprint(a.keys()) == router_fingerprint(b.keys()),
{
    lemma_sorted_unique(a.keys(), b.keys());
}

/// Two routers with the same extensions registered carry the same
/// configuration fingerprint, whatever the order in which they were
/// registered; so the production router and the semantic router built from
/// one configuration share theirs.
pub proof fn law_routers_with_same_extensions_share_fingerprint(a: ChunkerRouter, b: ChunkerRouter)
    requires
        a.wf(),
        b.wf(),
        forall|k: Seq<char>| a.keys().contains(k) <==> b.keys().contains(k),
    ensures
        a.config_fingerprint_view() == b.config_fingerprint_view(),
{
    lemma_sorted_unique(a.keys(), b.keys());
}

/// In the production router each code extension is served by the code
/// chunker of the language whose grammar reads it: `tsx` by the TSX grammar
/// (JSX inside TypeScript), `ts` by plain TypeScript, `jsx`, `mjs`, `cjs` by
/// JavaScript, `h` by C, the C++ header and source extensions by C++, and so
/// on; `md`, `markdown` and `mdx` by the markdown chunker.
pub proof fn law_production_router_languages(router: ChunkerRouter, base: RecursiveConfig)
    requires
        forall|k: Seq<char>| #[trigger] default_serves(router.served(k), k, base),
    ensures
        serves_code(router.served("rs"@), Lang::Rust, base),
        serves_code(router.served("py"@), Lang::Python, base),
        serves_code(router.served("pyi"@), Lang::Python, base),
        serves_code(router.served("js"@), Lang::JavaScript, base),
        serves_code(router.served("mjs"@), Lang::JavaScript, base),
        serves_code(router.served("cjs"@), Lang::JavaScript, base),
        serves_code(router.served("jsx"@), Lang::JavaScript, base),
        serves_code(router.served("ts"@), Lang::TypeScript, base),
        serves_code(router.served("tsx"@), Lang::Tsx, base),
        serves_code(router.served("go"@), Lang::Go, base),
        serves_code(router.served("java"@), Lang::Java, base),
        serves_code(router.served("c"@), Lang::C, base),
        serves_code(router.served("h"@), Lang::C, base),
        serves_code(router.served("cpp"@), Lang::Cpp, base),
        serves_code(router.served("cc"@), Lang::Cpp, base),
        serves_code(router.served("cxx"@), Lang::Cpp, base),
        serves_code(router.served("hpp"@), Lang::Cpp, base),
        serves_code(router.served("hh"@), Lang::Cpp, base),
        serves_code(router.served("hxx"@), Lang::Cpp, base),
        serves_code(router.served("rb"@), Lang::Ruby, base),
        serves_code(router.served("sh"@), Lang::Bash, base),
        serves_code(router.served("bash"@), Lang::Bash, base),
        serves_markdown(router.served("md"@), base),
        serves_markdown(router.served("markdown"@), base),
        serves_markdown(router.served("mdx"@), base),
{
    lemma_extension_literals();
    assert(default_serves(router.served("rs"@), "rs"@, base));
    assert(default_serves(router.served("py"@), "py"@, base));
    assert(default_serves(router.served("pyi"@), "pyi"@, base));
    assert(default_serves(router.served("js"@), "js"@, base));
    assert(default_serves(router.served("mjs"@), "mjs"@, base));
    assert(default_serves(router.served("cjs"@), "cjs"@, base));
    assert(default_serves(router.served("jsx"@), "jsx"@, base));
    assert(default_serves(router.served("ts"@), "ts"@, base));
    assert(default_serves(router.served("tsx"@), "tsx"@, base));
    assert(default_serves(router.served("go"@), "go"@, base));
    assert(default_serves(router.served("java"@), "java"@, base));
    assert(default_serves(router.served("c"@), "c"@, base));
    assert(default_serves(router.served("h"@), "h"@, base));
    assert(default_serves(router.served("cpp"@), "cpp"@, base));
    assert(default_serves(router.served("cc"@), "cc"@, base));
    assert(default_serves(router.served("cxx"@), "cxx"@, base));
    assert(default_serves(router.served("hpp"@), "hpp"@, base));
    assert(default_serves(router.served("hh"@), "hh"@, base));
    assert(default_serves(router.served("hxx"@), "hxx"@, base));
    assert(default_serves(router.served("rb"@), "rb"@, base));
    assert(default_serves(router.served("sh"@), "sh"@, base));
    assert(default_serves(router.served("bash"@), "bash"@, base));
    assert(default_serves(router.served("md"@), "md"@, base));
    assert(default_serves(router.served("markdown"@), "markdown"@, base));
    assert(default_serves(router.served("mdx"@), "mdx"@, base));
}

/// The semantic router keeps the code chunkers: each code extension is
/// served by the code chunker of the language whose grammar reads it, as in
/// the production router.
pub proof fn law_semantic_router_languages(router: ChunkerRouter, base: RecursiveConfig)
    requires
        forall|k: Seq<char>| #[trigger] semantic_serves(router.served(k), k, base),
    ensures
        serves_code(router.served("rs"@), Lang::Rust, base),
        serves_code(router.served("py"@), Lang::Python, base),
        serves_code(router.served("pyi"@), Lang::Python, base),
        serves_code(router.served("js"@), Lang::JavaScript, base),
        serves_code(router.served("mjs"@), Lang::JavaScript, base),
        serves_code(router.served("cjs"@), Lang::JavaScript, base),
        serves_code(router.served("jsx"@), Lang::JavaScript, base),
        serves_code(router.served("ts"@), Lang::TypeScript, base),
        serves_code(router.served("tsx"@), Lang::Tsx, base),
        serves_code(router.served("go"@), Lang::Go, base),
        serves_code(router.served("java"@), Lang::Java, base),
        serves_code(router.served("c"@), Lang::C, base),
        serves_code(router.served("h"@), Lang::C, base),
        serves_code(router.served("cpp"@), Lang::Cpp, base),
        serves_code(router.served("cc"@), Lang::Cpp, base),
        serves_code(router.served("cxx"@), Lang::Cpp, base),
        serves_code(router.served("hpp"@), Lang::Cpp, base),
        serves_code(router.served("hh"@), Lang::Cpp, base),
        serves_code(router.served("hxx"@), Lang::Cpp, base),
        serves_code(router.served("rb"@), Lang::Ruby, base),
        serves_code(router.served("sh"@), Lang::Bash, base),
        serves_code(router.served("bash"@), Lang::Bash, base),
{
    lemma_extension_literals();
    assert(semantic_serves(router.served("rs"@), "rs"@, base));
    assert(semantic_serves(router.served("py"@), "py"@, base));
    assert(semantic_serves(router.served("pyi"@), "pyi"@, base));
    assert(semantic_serves(router.served("js"@), "js"@, base));
    assert(semantic_serves(router.served("mjs"@), "mjs"@, base));
    assert(semantic_serves(router.served("cjs"@), "cjs"@, base));
    assert(semantic_serves(router.served("jsx"@), "jsx"@, base));
    assert(semantic_serves(router.served("ts"@), "ts"@, base));
    assert(semantic_serves(router.served("tsx"@), "tsx"@, base));
    assert(semantic_serves(router.served("go"@), "go"@, base));
    assert(semantic_serves(router.served("java"@), "java"@, base));
    assert(semantic_serves(router.served("c"@), "c"@, base));
    assert(semantic_serves(router.served("h"@), "h"@, base));
    assert(semantic_serves(router.served("cpp"@), "cpp"@, base));
    assert(semantic_serves(router.served("cc"@), "cc"@, base));
    assert(semantic_serves(router.served("cxx"@), "cxx"@, base));
    assert(semantic_serves(router.served("hpp"@), "hpp"@, base));
    assert(semantic_serves(router.served("hh"@), "hh"@, base));
    assert(semantic_serves(router.served("hxx"@), "hxx"@, base));
    assert(semantic_serves(router.served("rb"@), "rb"@, base));
    assert(semantic_serves(router.served("sh"@), "sh"@, base));
    assert(semantic_serves(router.served("bash"@), "bash"@, base));
}

/// Routing ignores ASCII case: two hints whose extensions agree up to ASCII
/// case are routed to the same registration (or both to the fallback).
pub proof fn law_route_ignores_ascii_case(ks: Seq<Seq<char>>, a: ChunkHint, b: ChunkHint)
    requires
        a.extension is Some <==> b.extension is Some,
        a.extension is Some ==> ascii_lower_seq(a.extension->Some_0@) == ascii_lower_seq(b.extension->Some_0@),
    ensures
        routed_key(ks, a) == routed_key(ks, b),
{
}

} // verus!
