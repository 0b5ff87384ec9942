//! Code-aware chunker: tree-sitter finds the top-level declarations; each
//! declaration, and each gap between them, becomes a slab that the recursive
//! chunker splits when it exceeds the size budget.
pub mod query;
pub mod grammars;


use vstd::prelude::*;
use crate::text::{chars_of, decimal, enc_len, owned, prefix_byte_offsets, push_usize, str_eq};
use self::grammars::{describes, parse_with_grammar, top_level_nodes, ts_language_error, ts_top_level_nodes, TsNode};
use self::query::{declaration_types, grammar_name, lang_name, Lang};
use super::engine::normalize;
use super::recursive::{
    chunks_are_spans, config_error_message, config_ok, metric_name, metric_str, recursive_spans, RecursiveChunker,
    RecursiveConfig,
};
use super::slabs::{char_index_of, chunk_slabs, chunks_are_pieces, lemma_offsets_strictly_increase};
use super::types::{Chunk, ChunkError, ChunkHint, ChunkedDocument, SizeMetric, StrategyFingerprint};
use super::Chunker;

verus! {

/// The fingerprint of the code strategy for `lang` with configuration `cfg`.
pub open spec fn code_fingerprint(lang: Lang, cfg: RecursiveConfig) -> Seq<char> {
    "code:v1|lang="@ + lang_name(lang) + "|grammar="@ + grammar_name(lang) + "|metric="@ + metric_name(cfg.metric)
        + "|max="@ + decimal(cfg.max_size as nat) + "|min="@ + decimal(cfg.min_size as nat) + "|overlap="@
        + decimal(cfg.overlap as nat)
}

/// Byte ranges of the top-level declarations among `nodes`, in order.
pub open spec fn declaration_ranges(nodes: Seq<TsNode>, lang: Lang) -> Seq<(usize, usize)>
    decreases nodes.len(),
{
    if nodes.len() == 0 {
        Seq::empty()
    } else {
        let rest = declaration_ranges(nodes.drop_last(), lang);
        let n = nodes.last();
        if declaration_types(lang).contains(n.kind@) {
            rest.push((n.start_byte, n.end_byte))
        } else {
            rest
        }
    }
}

/// What the code chunker for `lang` with configuration `cfg` returns for
/// `text`: no chunks for empty text; the `set_language` error when tree-sitter
/// refuses the grammar; otherwise the code chunks of the declarations among the
/// parse's top-level nodes when they all lie on character boundaries, and a
/// `ParseError` when one does not.
pub open spec fn code_chunk_result(lang: Lang, cfg: RecursiveConfig, text: Seq<char>, r: Result<ChunkedDocument, ChunkError>) -> bool {
    if text.len() == 0 {
        r matches Ok(d) && d.chunks@.len() == 0 && d.strategy_fingerprint@ == code_fingerprint(lang, cfg)
    } else if ts_language_error(lang) is Some {
        r matches Err(ChunkError::Tokenizer(m)) && m@ == "tree-sitter set_language: "@ + ts_language_error(lang)->Some_0
    } else {
        let rs = child_declaration_ranges(ts_top_level_nodes(lang, text), lang);
        &&& (r is Ok <==> ranges_well_placed(text, rs))
        &&& (r matches Ok(d) ==> d.strategy_fingerprint@ == code_fingerprint(lang, cfg) && code_chunks(d.chunks@, text, char_ranges(text, rs), cfg))
        &&& (r matches Err(e) ==> e is ParseError)
    }
}

/// Byte ranges of the top-level declarations among the parse-tree children
/// `cs` (node type and byte range each), in order.
pub open spec fn child_declaration_ranges(cs: Seq<(Seq<char>, usize, usize)>, lang: Lang) -> Seq<(usize, usize)>
    decreases cs.len(),
{
    if cs.len() == 0 {
        Seq::empty()
    } else {
        let rest = child_declaration_ranges(cs.drop_last(), lang);
        let c = cs.last();
        if declaration_types(lang).contains(c.0) {
            rest.push((c.1, c.2))
        } else {
            rest
        }
    }
}

proof fn lemma_described_ranges(nodes: Seq<TsNode>, cs: Seq<(Seq<char>, usize, usize)>, lang: Lang)
    requires
        nodes.len() == cs.len(),
        forall|k: int| 0 <= k < nodes.len() ==> describes(#[trigger] nodes[k], cs[k]),
    ensures
        declaration_ranges(nodes, lang) == child_declaration_ranges(cs, lang),
    decreases nodes.len(),
{
    if nodes.len() > 0 {
        assert(describes(nodes[nodes.len() - 1], cs[cs.len() - 1]));
        lemma_described_ranges(nodes.drop_last(), cs.drop_last(), lang);
    }
}

proof fn lemma_cover_contains(rs: Seq<(usize, usize)>, cursor: int, n: int, d: int)
    requires
        0 <= d < rs.len(),
    ensures
        cover_from(rs, cursor, n).contains(rs[d]),
    decreases rs.len(),
{
    let gap: Seq<(usize, usize)> = if rs[0].0 > cursor {
        seq![(cursor as usize, rs[0].0)]
    } else {
        Seq::empty()
    };
    let rest = cover_from(rs.drop_first(), rs[0].1 as int, n);
    let all = gap + seq![rs[0]] + rest;
    assert(cover_from(rs, cursor, n) == all);
    if d == 0 {
        assert(all[gap.len() as int] == rs[0]);
    } else {
        lemma_cover_contains(rs.drop_first(), rs[0].1 as int, n, d - 1);
        let q = choose|q: int| 0 <= q < rest.len() && rest[q] == rs.drop_first()[d - 1];
        assert(all[gap.len() + 1 + q] == rest[q]);
    }
}

proof fn lemma_declared_child_listed(cs: Seq<(Seq<char>, usize, usize)>, lang: Lang, k: int)
    requires
        0 <= k < cs.len(),
        declaration_types(lang).contains(cs[k].0),
    ensures
        exists|d: int| 0 <= d < child_declaration_ranges(cs, lang).len()
            && #[trigger] child_declaration_ranges(cs, lang)[d] == (cs[k].1, cs[k].2),
    decreases cs.len(),
{
    let rs = child_declaration_ranges(cs, lang);
    let rest = child_declaration_ranges(cs.drop_last(), lang);
    if k == cs.len() - 1 {
        assert(rs[rs.len() - 1] == (cs[k].1, cs[k].2));
    } else {
        assert(cs.drop_last()[k] == cs[k]);
        lemma_declared_child_listed(cs.drop_last(), lang, k);
        let d = choose|d: int| 0 <= d < rest.len() && #[trigger] rest[d] == (cs[k].1, cs[k].2);
        assert(rs[d] == rest[d]);
    }
}

/// The node types of the top-level declarations of each language, as its
/// tree-sitter grammar names them.
pub open spec fn grammar_declaration(lang: Lang, node: Seq<char>) -> bool {
    match lang {
        Lang::Rust => node == "function_item"@
            || node == "impl_item"@
            || node == "struct_item"@
            || node == "enum_item"@
            || node == "trait_item"@
            || node == "mod_item"@
            || node == "union_item"@
            || node == "type_item"@
            || node == "const_item"@
            || node == "static_item"@
            || node == "use_declaration"@
            || node == "extern_crate_declaration"@
            || node == "macro_definition"@
            || node == "foreign_mod_item"@,
        Lang::Python => node == "function_definition"@ || node == "class_definition"@ || node == "decorated_definition"@,
        Lang::JavaScript | Lang::Tsx => node == "function_declaration"@ || node == "method_definition"@
            || node == "class_declaration"@ || node == "export_statement"@ || node == "lexical_declaration"@
            || node == "variable_declaration"@,
        Lang::TypeScript => node == "function_declaration"@ || node == "method_definition"@ || node == "class_declaration"@
            || node == "interface_declaration"@ || node == "type_alias_declaration"@ || node == "enum_declaration"@
            || node == "export_statement"@ || node == "lexical_declaration"@,
        Lang::Go => node == "function_declaration"@ || node == "method_declaration"@ || node == "type_declaration"@
            || node == "var_declaration"@ || node == "const_declaration"@,
        Lang::Java => node == "method_declaration"@ || node == "class_declaration"@ || node == "interface_declaration"@
            || node == "constructor_declaration"@ || node == "enum_declaration"@,
        Lang::C => node == "function_definition"@ || node == "struct_specifier"@ || node == "union_specifier"@
            || node == "enum_specifier"@ || node == "type_definition"@,
        Lang::Cpp => node == "function_definition"@ || node == "class_specifier"@ || node == "struct_specifier"@
            || node == "union_specifier"@ || node == "enum_specifier"@ || node == "namespace_definition"@
            || node == "template_declaration"@ || node == "type_definition"@,
        Lang::Ruby => node == "method"@ || node == "class"@ || node == "module"@ || node == "singleton_method"@,
        Lang::Bash => node == "function_definition"@,
    }
}

proof fn lemma_grammar_declaration_listed(lang: Lang, node: Seq<char>)
    requires
        grammar_declaration(lang, node),
    ensures
        declaration_types(lang).contains(node),
{
    match lang {
        Lang::Rust => {
            if node == "function_item"@ {
                assert(declaration_types(lang)[0] == node);
            }
            if node == "impl_item"@ {
                assert(declaration_types(lang)[1] == node);
            }
            if node == "struct_item"@ {
                assert(declaration_types(lang)[2] == node);
            }
            if node == "enum_item"@ {
                assert(declaration_types(lang)[3] == node);
            }
            if node == "trait_item"@ {
                assert(declaration_types(lang)[4] == node);
            }
            if node == "mod_item"@ {
                assert(declaration_types(lang)[5] == node);
            }
            if node == "union_item"@ {
                assert(declaration_types(lang)[6] == node);
            }
            if node == "type_item"@ {
                assert(declaration_types(lang)[7] == node);
            }
            if node == "const_item"@ {
                assert(declaration_types(lang)[8] == node);
            }
            if node == "static_item"@ {
                assert(declaration_types(lang)[9] == node);
            }
            if node == "use_declaration"@ {
                assert(declaration_types(lang)[10] == node);
            }
            if node == "extern_crate_declaration"@ {
                assert(declaration_types(lang)[11] == node);
            }
            if node == "macro_definition"@ {
                assert(declaration_types(lang)[12] == node);
            }
            if node == "foreign_mod_item"@ {
                assert(declaration_types(lang)[13] == node);
            }
        },
        Lang::Python => {
            if node == "function_definition"@ {
                assert(declaration_types(lang)[0] == node);
            }
            if node == "class_definition"@ {
                assert(declaration_types(lang)[1] == node);
            }
            if node == "decorated_definition"@ {
                assert(declaration_types(lang)[2] == node);
            }
        },
        Lang::JavaScript => {
            if node == "function_declaration"@ {
                assert(declaration_types(lang)[0] == node);
            }
            if node == "method_definition"@ {
                assert(declaration_types(lang)[1] == node);
            }
            if node == "class_declaration"@ {
                assert(declaration_types(lang)[2] == node);
            }
            if node == "export_statement"@ {
                assert(declaration_types(lang)[3] == node);
            }
            if node == "lexical_declaration"@ {
                assert(declaration_types(lang)[4] == node);
            }
            if node == "variable_declaration"@ {
                assert(declaration_types(lang)[5] == node);
            }
        },
        Lang::Tsx => {
            if node == "function_declaration"@ {
                assert(declaration_types(lang)[0] == node);
            }
            if node == "method_definition"@ {
                assert(declaration_types(lang)[1] == node);
            }
            if node == "class_declaration"@ {
                assert(declaration_types(lang)[2] == node);
            }
            if node == "export_statement"@ {
                assert(declaration_types(lang)[3] == node);
            }
            if node == "lexical_declaration"@ {
                assert(declaration_types(lang)[4] == node);
            }
            if node == "variable_declaration"@ {
                assert(declaration_types(lang)[5] == node);
            }
        },
        Lang::TypeScript => {
            if node == "function_declaration"@ {
                assert(declaration_types(lang)[0] == node);
            }
            if node == "method_definition"@ {
                assert(declaration_types(lang)[1] == node);
            }
            if node == "class_declaration"@ {
                assert(declaration_types(lang)[2] == node);
            }
            if node == "interface_declaration"@ {
                assert(declaration_types(lang)[3] == node);
            }
            if node == "type_alias_declaration"@ {
                assert(declaration_types(lang)[4] == node);
            }
            if node == "enum_declaration"@ {
                assert(declaration_types(lang)[5] == node);
            }
            if node == "export_statement"@ {
                assert(declaration_types(lang)[6] == node);
            }
            if node == "lexical_declaration"@ {
                assert(declaration_types(lang)[7] == node);
            }
        },
        Lang::Go => {
            if node == "function_declaration"@ {
                assert(declaration_types(lang)[0] == node);
            }
            if node == "method_declaration"@ {
                assert(declaration_types(lang)[1] == node);
            }
            if node == "type_declaration"@ {
                assert(declaration_types(lang)[2] == node);
            }
            if node == "var_declaration"@ {
                assert(declaration_types(lang)[3] == node);
            }
            if node == "const_declaration"@ {
                assert(declaration_types(lang)[4] == node);
            }
        },
        Lang::Java => {
            if node == "method_declaration"@ {
                assert(declaration_types(lang)[0] == node);
            }
            if node == "class_declaration"@ {
                assert(declaration_types(lang)[1] == node);
            }
            if node == "interface_declaration"@ {
                assert(declaration_types(lang)[2] == node);
            }
            if node == "constructor_declaration"@ {
                assert(declaration_types(lang)[3] == node);
            }
            if node == "enum_declaration"@ {
                assert(declaration_types(lang)[4] == node);
            }
        },
        Lang::C => {
            if node == "function_definition"@ {
                assert(declaration_types(lang)[0] == node);
            }
            if node == "struct_specifier"@ {
                assert(declaration_types(lang)[1] == node);
            }
            if node == "union_specifier"@ {
                assert(declaration_types(lang)[2] == node);
            }
            if node == "enum_specifier"@ {
                assert(declaration_types(lang)[3] == node);
            }
            if node == "type_definition"@ {
                assert(declaration_types(lang)[4] == node);
            }
        },
        Lang::Cpp => {
            if node == "function_definition"@ {
                assert(declaration_types(lang)[0] == node);
            }
            if node == "class_specifier"@ {
                assert(declaration_types(lang)[1] == node);
            }
            if node == "struct_specifier"@ {
                assert(declaration_types(lang)[2] == node);
            }
            if node == "union_specifier"@ {
                assert(declaration_types(lang)[3] == node);
            }
            if node == "enum_specifier"@ {
                assert(declaration_types(lang)[4] == node);
            }
            if node == "namespace_definition"@ {
                assert(declaration_types(lang)[5] == node);
            }
            if node == "template_declaration"@ {
                assert(declaration_types(lang)[6] == node);
            }
            if node == "type_definition"@ {
                assert(declaration_types(lang)[7] == node);
            }
        },
        Lang::Ruby => {
            if node == "method"@ {
                assert(declaration_types(lang)[0] == node);
            }
            if node == "class"@ {
                assert(declaration_types(lang)[1] == node);
            }
            if node == "module"@ {
                assert(declaration_types(lang)[2] == node);
            }
            if node == "singleton_method"@ {
                assert(declaration_types(lang)[3] == node);
            }
        },
        Lang::Bash => {
            if node == "function_definition"@ {
                assert(declaration_types(lang)[0] == node);
            }
        },
    }
}

/// Top-level declarations are slabs of their own: a top-level node whose
/// type is a declaration of its language (a Python `class_definition`, a
/// Rust `function_item`, ...) has its byte range among the declaration
/// ranges, and its character range is a slab of the cover of the text, so no
/// chunk holds text both inside and outside it.
pub proof fn law_declarations_are_own_slabs(cs: Seq<(Seq<char>, usize, usize)>, lang: Lang, k: int, t: Seq<char>, n: int)
    requires
        0 <= k < cs.len(),
        grammar_declaration(lang, cs[k].0),
    ensures
        exists|d: int| 0 <= d < child_declaration_ranges(cs, lang).len()
            && #[trigger] child_declaration_ranges(cs, lang)[d] == (cs[k].1, cs[k].2)
            && cover_from(char_ranges(t, child_declaration_ranges(cs, lang)), 0, n).contains(
                char_ranges(t, child_declaration_ranges(cs, lang))[d],
            ),
{
    assert(declaration_types(lang).contains(cs[k].0)) by {
        lemma_grammar_declaration_listed(lang, cs[k].0);
    }
    lemma_declared_child_listed(cs, lang, k);
    let rs = child_declaration_ranges(cs, lang);
    let d = choose|d: int| 0 <= d < rs.len() && #[trigger] rs[d] == (cs[k].1, cs[k].2);
    lemma_cover_contains(char_ranges(t, rs), 0, n, d);
}

/// Byte offset `b` falls on a character boundary of `t`.
pub open spec fn at_char_boundary(t: Seq<char>, b: int) -> bool {
    exists|i: int| 0 <= i <= t.len() && #[trigger] enc_len(t.take(i)) == b
}

/// The character position at byte offset `b` (a character boundary).
pub open spec fn char_pos(t: Seq<char>, b: int) -> int {
    choose|i: int| 0 <= i <= t.len() && #[trigger] enc_len(t.take(i)) == b
}

/// Every declaration starts and ends on a character boundary, start first.
pub open spec fn ranges_well_placed(t: Seq<char>, rs: Seq<(usize, usize)>) -> bool {
    forall|k: int| 0 <= k < rs.len() ==> {
        &&& at_char_boundary(t, (#[trigger] rs[k]).0 as int)
        &&& at_char_boundary(t, rs[k].1 as int)
        &&& rs[k].0 <= rs[k].1
    }
}

/// The declaration ranges as character positions.
pub open spec fn char_ranges(t: Seq<char>, rs: Seq<(usize, usize)>) -> Seq<(usize, usize)> {
    Seq::new(rs.len(), |k: int| (char_pos(t, rs[k].0 as int) as usize, char_pos(t, rs[k].1 as int) as usize))
}

/// The slabs covering the text from `cursor` on: each gap before a
/// declaration, the declaration itself, and the tail after the last one.
pub open spec fn cover_from(rs: Seq<(usize, usize)>, cursor: int, n: int) -> Seq<(usize, usize)>
    decreases rs.len(),
{
    if rs.len() == 0 {
        if cursor < n {
            seq![(cursor as usize, n as usize)]
        } else {
            Seq::empty()
        }
    } else {
        let gap: Seq<(usize, usize)> = if rs[0].0 > cursor {
            seq![(cursor as usize, rs[0].0)]
        } else {
            Seq::empty()
        };
        gap + seq![rs[0]] + cover_from(rs.drop_first(), rs[0].1 as int, n)
    }
}

/// `chunks` are the code chunks of `t` for the declarations `rs` (character
/// positions): with no declaration the whole text is chunked recursively,
/// otherwise every slab of the cover is.
pub open spec fn code_chunks(chunks: Seq<Chunk>, t: Seq<char>, rs: Seq<(usize, usize)>, cfg: RecursiveConfig) -> bool {
    if rs.len() == 0 {
        chunks_are_spans(chunks, normalize(t), recursive_spans(t, cfg))
    } else {
        chunks_are_pieces(chunks, t, cover_from(rs, 0, t.len() as int), cfg)
    }
}

fn is_declaration(kind: &String, allowed: &Vec<&'static str>, Ghost(lang): Ghost<Lang>) -> (r: bool)
    requires
        allowed@.len() == declaration_types(lang).len(),
        forall|i: int| 0 <= i < allowed@.len() ==> (#[trigger] allowed@[i])@ == declaration_types(lang)[i],
    ensures
        r == declaration_types(lang).contains(kind@),
{
    let mut i: usize = 0;
    while i < allowed.len()
        invariant
            i <= allowed@.len(),
            allowed@.len() == declaration_types(lang).len(),
            forall|k: int| 0 <= k < allowed@.len() ==> (#[trigger] allowed@[k])@ == declaration_types(lang)[k],
            forall|k: int| 0 <= k < i ==> declaration_types(lang)[k] != kind@,
        decreases allowed@.len() - i,
    {
        if str_eq(allowed[i], kind.as_str()) {
            assert(declaration_types(lang)[i as int] == kind@);
            return true;
        }
        i += 1;
    }
    false
}

proof fn lemma_char_pos_unique(t: Seq<char>, i: int)
    requires
        0 <= i <= t.len(),
    ensures
        at_char_boundary(t, enc_len(t.take(i)) as int),
        char_pos(t, enc_len(t.take(i)) as int) == i,
{
    let b = enc_len(t.take(i)) as int;
    assert(0 <= i <= t.len() && enc_len(t.take(i)) == b);
    let j = char_pos(t, b);
    if j < i {
        lemma_offsets_strictly_increase(t, j, i);
    } else if j > i {
        lemma_offsets_strictly_increase(t, i, j);
    }
}

fn cover(rs: &Vec<(usize, usize)>, n: usize) -> (out: Vec<(usize, usize)>)
    requires
        forall|k: int| 0 <= k < rs@.len() ==> (#[trigger] rs@[k]).0 <= rs@[k].1 <= n,
    ensures
        out@ == cover_from(rs@, 0, n as int),
        forall|k: int| 0 <= k < out@.len() ==> (#[trigger] out@[k]).0 <= out@[k].1 <= n,
{
    let mut out: Vec<(usize, usize)> = Vec::new();
    let mut cursor: usize = 0;
    let mut i: usize = 0;
    assert(rs@.skip(0) =~= rs@);
    while i < rs.len()
        invariant
            i <= rs@.len(),
            cursor <= n,
            forall|k: int| 0 <= k < rs@.len() ==> (#[trigger] rs@[k]).0 <= rs@[k].1 <= n,
            out@ + cover_from(rs@.skip(i as int), cursor as int, n as int) == cover_from(rs@, 0, n as int),
            forall|k: int| 0 <= k < out@.len() ==> (#[trigger] out@[k]).0 <= out@[k].1 <= n,
        decreases rs@.len() - i,
    {
        let (s, e) = rs[i];
        let ghost rest = rs@.skip(i as int);
        let ghost before = out@;
        assert(rest[0] == (s, e));
        assert(rest.drop_first() =~= rs@.skip(i + 1));
        if s > cursor {
            out.push((cursor, s));
        }
        out.push((s, e));
        proof {
            let gap: Seq<(usize, usize)> = if s > cursor { seq![(cursor, s)] } else { Seq::empty() };
            assert(cover_from(rest, cursor as int, n as int) == gap + seq![(s, e)] + cover_from(rs@.skip(i + 1), e as int, n as int));
            assert(out@ =~= before + gap + seq![(s, e)]);
        }
        cursor = e;
        i += 1;
    }
    let ghost before = out@;
    if cursor < n {
        out.push((cursor, n));
    }
    proof {
        assert(rs@.skip(rs@.len() as int) =~= Seq::<(usize, usize)>::empty());
        assert(out@ =~= before + cover_from(Seq::<(usize, usize)>::empty(), cursor as int, n as int));
    }
    out
}

/// The code chunker.
pub struct CodeChunker {
    lang: Lang,
    inner: RecursiveChunker,
    fingerprint: StrategyFingerprint,
}

impl CodeChunker {
    #[verifier::type_invariant]
    spec fn inv(self) -> bool {
        self.fingerprint@ == code_fingerprint(self.lang, self.inner.config())
    }

    pub closed spec fn language(self) -> Lang {
        self.lang
    }

    pub closed spec fn config(self) -> RecursiveConfig {
        self.inner.config()
    }

    /// Builds the chunker for `lang`; the configuration is checked as for
    /// [`RecursiveChunker::new`].
    pub fn new(lang: Lang, config: RecursiveConfig) -> (r: Result<Self, ChunkError>)
        ensures
            !config_ok(config) ==> (r matches Err(ChunkError::InvalidConfig(m)) && m@ == config_error_message(config)),
            config_ok(config) && config.metric == SizeMetric::Tokens ==> (r matches Err(e) && e is Tokenizer),
            config_ok(config) && config.metric == SizeMetric::Chars ==> (r matches Ok(c) && c.config() == config
                && c.language() == lang),
    {
        let inner = match RecursiveChunker::new(config) {
            Ok(c) => c,
            Err(e) => return Err(e),
        };
        let mut fp = String::new();
        fp.push_str("code:v1|lang=");
        fp.push_str(lang.as_fingerprint());
        fp.push_str("|grammar=");
        fp.push_str(lang.grammar_fingerprint());
        fp.push_str("|metric=");
        fp.push_str(metric_str(config.metric));
        fp.push_str("|max=");
        push_usize(&mut fp, config.max_size);
        fp.push_str("|min=");
        push_usize(&mut fp, config.min_size);
        fp.push_str("|overlap=");
        push_usize(&mut fp, config.overlap);
        proof {
            assert(Seq::<char>::empty() + "code:v1|lang="@ =~= "code:v1|lang="@);
        }
        Ok(CodeChunker { lang, inner, fingerprint: StrategyFingerprint::new(fp) })
    }

    /// The fingerprint stamped on the documents this chunker produces.
    pub fn fingerprint(&self) -> (f: &StrategyFingerprint)
        ensures
            f@ == code_fingerprint(self.language(), self.config()),
    {
        proof {
            use_type_invariant(self);
        }
        &self.fingerprint
    }

    /// A document of `chunks` stamped with this chunker's fingerprint.
    pub fn finalise(&self, chunks: Vec<Chunk>) -> (r: Result<ChunkedDocument, ChunkError>)
        ensures
            r matches Ok(d) && d.chunks@ == chunks@ && d.strategy_fingerprint@ == code_fingerprint(self.language(), self.config()),
    {
        Ok(ChunkedDocument { chunks, strategy_fingerprint: self.fingerprint().duplicate() })
    }

    /// The chunks of `text` given its top-level parse-tree nodes: a
    /// `ParseError` when a declaration does not start and end on character
    /// boundaries (start first), else the code chunks of the declarations.
    pub fn chunk_from_nodes(&self, text: &str, nodes: &Vec<TsNode>) -> (r: Result<Vec<Chunk>, ChunkError>)
        ensures
            r is Ok <==> ranges_well_placed(text@, declaration_ranges(nodes@, self.language())),
            r matches Ok(chunks) ==> code_chunks(
                chunks@,
                text@,
                char_ranges(text@, declaration_ranges(nodes@, self.language())),
                self.config(),
            ),
            r matches Err(e) ==> e is ParseError,
    {
        let ghost t = text@;
        let ghost lang = self.lang;
        let allowed = self.lang.declaration_node_types();
        let chars = chars_of(text);
        let offs = prefix_byte_offsets(&chars, text.as_bytes().len());
        let n = chars.len();
        let mut decls: Vec<(usize, usize)> = Vec::new();
        let mut k: usize = 0;
        while k < nodes.len()
            invariant
                k <= nodes@.len(),
                t == text@,
                t == chars@,
                lang == self.lang,
                n == t.len(),
                offs@.len() == t.len() + 1,
                forall|i: int| 0 <= i <= t.len() ==> #[trigger] offs@[i] == enc_len(t.take(i)),
                allowed@.len() == declaration_types(lang).len(),
                forall|i: int| 0 <= i < allowed@.len() ==> (#[trigger] allowed@[i])@ == declaration_types(lang)[i],
                ranges_well_placed(t, declaration_ranges(nodes@.take(k as int), lang)),
                decls@ == char_ranges(t, declaration_ranges(nodes@.take(k as int), lang)),
                forall|m: int| 0 <= m < decls@.len() ==> (#[trigger] decls@[m]).0 <= decls@[m].1 <= n,
            decreases nodes@.len() - k,
        {
            let node = &nodes[k];
            let ghost prev = declaration_ranges(nodes@.take(k as int), lang);
            proof {
                assert(nodes@.take(k + 1).drop_last() =~= nodes@.take(k as int));
                assert(nodes@.take(k + 1).last() == nodes@[k as int]);
            }
            if is_declaration(&node.kind, &allowed, Ghost(lang)) {
                let ghost cur = prev.push((node.start_byte, node.end_byte));
                assert(declaration_ranges(nodes@.take(k + 1), lang) == cur);
                let s = char_index_of(&offs, node.start_byte, Ghost(t));
                let e = char_index_of(&offs, node.end_byte, Ghost(t));
                match (s, e) {
                    (Some(cs), Some(ce)) => {
                        proof {
                            lemma_char_pos_unique(t, cs as int);
                            lemma_char_pos_unique(t, ce as int);
                        }
                        if cs > ce {
                            proof {
                                lemma_offsets_strictly_increase(t, ce as int, cs as int);
                                lemma_not_well_placed(t, nodes@, k as int, lang);
                            }
                            return Err(self.misplaced(node.start_byte));
                        }
                        if cs < ce {
                            proof {
                                lemma_offsets_strictly_increase(t, cs as int, ce as int);
                            }
                        }
                        decls.push((cs, ce));
                        proof {
                            assert(decls@ =~= char_ranges(t, cur));
                            assert forall|m: int| 0 <= m < cur.len() implies {
                                &&& at_char_boundary(t, (#[trigger] cur[m]).0 as int)
                                &&& at_char_boundary(t, cur[m].1 as int)
                                &&& cur[m].0 <= cur[m].1
                            } by {
                                if m < prev.len() {
                                    assert(cur[m] == prev[m]);
                                }
                            }
                        }
                    },
                    _ => {
                        proof {
                            lemma_not_well_placed(t, nodes@, k as int, lang);
                        }
                        return Err(self.misplaced(node.start_byte));
                    },
                }
            } else {
                assert(declaration_ranges(nodes@.take(k + 1), lang) == prev);
            }
            k += 1;
        }
        proof {
            assert(nodes@.take(nodes@.len() as int) =~= nodes@);
        }
        if decls.len() == 0 {
            let chunks = self.inner.chunk_raw(text);
            return Ok(chunks);
        }
        let slabs = cover(&decls, n);
        let chunks = chunk_slabs(&self.inner, &chars, &offs, &slabs);
        Ok(chunks)
    }

    fn misplaced(&self, pos: usize) -> (e: ChunkError)
        ensures
            e matches ChunkError::ParseError { lang, pos: p, detail } && lang@ == lang_name(self.language()) && p == pos
                && detail@ == "declaration does not start and end on a character boundary"@,
    {
        let detail = "declaration does not start and end on a character boundary";
        ChunkError::ParseError { lang: owned(self.lang.as_fingerprint()), pos, detail: owned(detail) }
    }
}

proof fn lemma_not_well_placed(t: Seq<char>, nodes: Seq<TsNode>, k: int, lang: Lang)
    requires
        0 <= k < nodes.len(),
        declaration_types(lang).contains(nodes[k].kind@),
        !(at_char_boundary(t, nodes[k].start_byte as int) && at_char_boundary(t, nodes[k].end_byte as int)
            && nodes[k].start_byte <= nodes[k].end_byte),
    ensures
        !ranges_well_placed(t, declaration_ranges(nodes, lang)),
    decreases nodes.len(),
{
    let rs = declaration_ranges(nodes, lang);
    if k == nodes.len() - 1 {
        assert(rs.last() == (nodes[k].start_byte, nodes[k].end_byte));
        assert(rs[rs.len() - 1] == (nodes[k].start_byte, nodes[k].end_byte));
    } else {
        lemma_not_well_placed(t, nodes.drop_last(), k, lang);
        lemma_ranges_prefix(nodes, lang);
    }
}

proof fn lemma_ranges_prefix(nodes: Seq<TsNode>, lang: Lang)
    requires
        nodes.len() > 0,
    ensures
        declaration_ranges(nodes.drop_last(), lang).len() <= declaration_ranges(nodes, lang).len(),
        forall|m: int| 0 <= m < declaration_ranges(nodes.drop_last(), lang).len() ==> #[trigger] declaration_ranges(nodes.drop_last(), lang)[m]
            == declaration_ranges(nodes, lang)[m],
{
}

impl Chunker for CodeChunker {
    open spec fn chunk_outcome(&self, text: Seq<char>, hint: ChunkHint, r: Result<ChunkedDocument, ChunkError>) -> bool {
        code_chunk_result(self.language(), self.config(), text, r)
    }

    fn chunk(&self, text: &str, hint: &ChunkHint) -> (r: Result<ChunkedDocument, ChunkError>)
        ensures
            code_chunk_result(self.language(), self.config(), text@, r),
    {
        if text.is_empty() {
            return self.finalise(Vec::new());
        }
        let tree = match parse_with_grammar(self.lang, text) {
            Ok(Some(t)) => t,
            Ok(None) => {
                return Err(ChunkError::ParseError {
                    lang: owned(self.lang.as_fingerprint()),
                    pos: 0,
                    detail: owned("tree_sitter::Parser::parse returned None"),
                });
            },
            Err(e) => {
                let mut m = owned("tree-sitter set_language: ");
                m.push_str(e.as_str());
                return Err(ChunkError::Tokenizer(m));
            },
        };
        let nodes = top_level_nodes(&tree);
        proof {
            lemma_described_ranges(nodes@, ts_top_level_nodes(self.lang, text@), self.lang);
        }
        match self.chunk_from_nodes(text, &nodes) {
            Ok(chunks) => self.finalise(chunks),
            Err(e) => Err(e),
        }
    }
}

} // verus!
