//! Supported languages and the node types at which code is cut.
use vstd::prelude::*;

verus! {

/// A language with a tree-sitter grammar.
#[derive(Debug, Clone, Copy, PartialEq, Eq, Hash, Structural)]
pub enum Lang {
    Rust,
    Python,
    JavaScript,
    TypeScript,
    Tsx,
    Go,
    Java,
    C,
    Cpp,
    Ruby,
    Bash,
}

pub open spec fn lang_name(l: Lang) -> Seq<char> {
    match l {
        Lang::Rust => "rust"@,
        Lang::Python => "python"@,
        Lang::JavaScript => "javascript"@,
        Lang::TypeScript => "typescript"@,
        Lang::Tsx => "tsx"@,
        Lang::Go => "go"@,
        Lang::Java => "java"@,
        Lang::C => "c"@,
        Lang::Cpp => "cpp"@,
        Lang::Ruby => "ruby"@,
        Lang::Bash => "bash"@,
    }
}

pub open spec fn grammar_name(l: Lang) -> Seq<char> {
    match l {
        Lang::Rust => "tree-sitter-rust@0.24"@,
        Lang::Python => "tree-sitter-python@0.25"@,
        Lang::JavaScript => "tree-sitter-javascript@0.25"@,
        Lang::TypeScript => "tree-sitter-typescript@0.23"@,
        Lang::Tsx => "tree-sitter-typescript@0.23-tsx"@,
        Lang::Go => "tree-sitter-go@0.25"@,
        Lang::Java => "tree-sitter-java@0.23"@,
        Lang::C => "tree-sitter-c@0.24"@,
        Lang::Cpp => "tree-sitter-cpp@0.23"@,
        Lang::Ruby => "tree-sitter-ruby@0.23"@,
        Lang::Bash => "tree-sitter-bash@0.25"@,
    }
}

/// The declaration-level node types of each grammar.
pub open spec fn declaration_types(l: Lang) -> Seq<Seq<char>> {
    match l {
        Lang::Rust => seq![
            "function_item"@, "impl_item"@, "struct_item"@, "enum_item"@, "trait_item"@, "mod_item"@,
            "union_item"@, "type_item"@, "const_item"@, "static_item"@, "use_declaration"@,
            "extern_crate_declaration"@, "macro_definition"@, "foreign_mod_item"@,
        ],
        Lang::Python => seq!["function_definition"@, "class_definition"@, "decorated_definition"@],
        Lang::JavaScript => seq![
            "function_declaration"@, "method_definition"@, "class_declaration"@, "export_statement"@,
            "lexical_declaration"@, "variable_declaration"@,
        ],
        Lang::Tsx => seq![
            "function_declaration"@, "method_definition"@, "class_declaration"@, "export_statement"@,
            "lexical_declaration"@, "variable_declaration"@,
        ],
        Lang::TypeScript => seq![
            "function_declaration"@, "method_definition"@, "class_declaration"@, "interface_declaration"@,
            "type_alias_declaration"@, "enum_declaration"@, "export_statement"@, "lexical_declaration"@,
        ],
        Lang::Go => seq![
            "function_declaration"@, "method_declaration"@, "type_declaration"@, "var_declaration"@,
            "const_declaration"@,
        ],
        Lang::Java => seq![
            "method_declaration"@, "class_declaration"@, "interface_declaration"@, "constructor_declaration"@,
            "enum_declaration"@,
        ],
        Lang::C => seq![
            "function_definition"@, "struct_specifier"@, "union_specifier"@, "enum_specifier"@,
            "type_definition"@,
        ],
        Lang::Cpp => seq![
            "function_definition"@, "class_specifier"@, "struct_specifier"@, "union_specifier"@,
            "enum_specifier"@, "namespace_definition"@, "template_declaration"@, "type_definition"@,
        ],
        Lang::Ruby => seq!["method"@, "class"@, "module"@, "singleton_method"@],
        Lang::Bash => seq!["function_definition"@],
    }
}

fn literals(parts: &[&'static str]) -> (v: Vec<&'static str>)
    ensures
        v@.len() == parts@.len(),
        forall|i: int| 0 <= i < v@.len() ==> (#[trigger] v@[i])@ == parts@[i]@,
{
    let mut v: Vec<&'static str> = Vec::new();
    let mut i: usize = 0;
    while i < parts.len()
        invariant
            i <= parts@.len(),
            v@.len() == i,
            forall|k: int| 0 <= k < i ==> (#[trigger] v@[k])@ == parts@[k]@,
        decreases parts@.len() - i,
    {
        v.push(parts[i]);
        i += 1;
    }
    v
}

impl Lang {
    /// The language's name in fingerprints.
    pub fn as_fingerprint(&self) -> (s: &'static str)
        ensures
            s@ == lang_name(*self),
    {
        match self {
            Lang::Rust => "rust",
            Lang::Python => "python",
            Lang::JavaScript => "javascript",
            Lang::TypeScript => "typescript",
            Lang::Tsx => "tsx",
            Lang::Go => "go",
            Lang::Java => "java",
            Lang::C => "c",
            Lang::Cpp => "cpp",
            Lang::Ruby => "ruby",
            Lang::Bash => "bash",
        }
    }

    /// The grammar crate and version the chunking depends on.
    pub fn grammar_fingerprint(&self) -> (s: &'static str)
        ensures
            s@ == grammar_name(*self),
    {
        match self {
            Lang::Rust => "tree-sitter-rust@0.24",
            Lang::Python => "tree-sitter-python@0.25",
            Lang::JavaScript => "tree-sitter-javascript@0.25",
            Lang::TypeScript => "tree-sitter-typescript@0.23",
            Lang::Tsx => "tree-sitter-typescript@0.23-tsx",
            Lang::Go => "tree-sitter-go@0.25",
            Lang::Java => "tree-sitter-java@0.23",
            Lang::C => "tree-sitter-c@0.24",
            Lang::Cpp => "tree-sitter-cpp@0.23",
            Lang::Ruby => "tree-sitter-ruby@0.23",
            Lang::Bash => "tree-sitter-bash@0.25",
        }
    }

    /// The declaration-level node types of the language's grammar.
    pub fn declaration_node_types(&self) -> (v: Vec<&'static str>)
        ensures
            v@.len() == declaration_types(*self).len(),
            forall|i: int| 0 <= i < v@.len() ==> (#[trigger] v@[i])@ == declaration_types(*self)[i],
    {
        let v = match self {
            Lang::Rust => literals(&[
                "function_item", "impl_item", "struct_item", "enum_item", "trait_item", "mod_item",
                "union_item", "type_item", "const_item", "static_item", "use_declaration",
                "extern_crate_declaration", "macro_definition", "foreign_mod_item",
            ]),
            Lang::Python => literals(&["function_definition", "class_definition", "decorated_definition"]),
            Lang::JavaScript | Lang::Tsx => literals(&[
                "function_declaration", "method_definition", "class_declaration", "export_statement",
                "lexical_declaration", "variable_declaration",
            ]),
            Lang::TypeScript => literals(&[
                "function_declaration", "method_definition", "class_declaration", "interface_declaration",
                "type_alias_declaration", "enum_declaration", "export_statement", "lexical_declaration",
            ]),
            Lang::Go => literals(&[
                "function_declaration", "method_declaration", "type_declaration", "var_declaration",
                "const_declaration",
            ]),
            Lang::Java => literals(&[
                "method_declaration", "class_declaration", "interface_declaration", "constructor_declaration",
                "enum_declaration",
            ]),
            Lang::C => literals(&[
                "function_definition", "struct_specifier", "union_specifier", "enum_specifier", "type_definition",
            ]),
            Lang::Cpp => literals(&[
                "function_definition", "class_specifier", "struct_specifier", "union_specifier",
                "enum_specifier", "namespace_definition", "template_declaration", "type_definition",
            ]),
            Lang::Ruby => literals(&["method", "class", "module", "singleton_method"]),
            Lang::Bash => literals(&["function_definition"]),
        };
        v
    }
}

} // verus!
