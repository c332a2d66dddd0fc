//! The languages the scanner reads: how a file's language is found, what
//! the parser reports of a source text, and the per-language table of
//! comment kinds, scope kinds and naming rules.

use crate::scan::tree::{raw_views, tree_of, valid_raw, RawNode, RawNodeView, SyntaxTree};
use crate::text::{chars_of, contains, contains_chars, equals_str, string_views};
use ast_grep_core::Language;
use vstd::prelude::*;

verus! {

/// Trusted: `ast_grep_language::SupportLang`, the language handle of the
/// parser, carried as an opaque value.
#[verifier::external_type_specification]
#[verifier::external_body]
pub struct ExSupportLang(ast_grep_language::SupportLang);

/// The name of the language that a file of the given path is written in,
/// judged by the path's extension; `None` for a path of no supported
/// language.
pub uninterp spec fn path_language(path: Seq<char>) -> Option<Seq<char>>;

/// The nodes of the parse tree of `source` in the language named
/// `language`, in depth-first order; each node comes with the text of its
/// child in each of `name_fields`. `None` when the parser yields no tree.
pub uninterp spec fn parsed_nodes(
    language: Seq<char>,
    source: Seq<char>,
    name_fields: Seq<Seq<char>>,
) -> Option<Seq<RawNodeView>>;

/// A supported language.
pub struct SourceLanguage {
    name: String,
    handle: ast_grep_language::SupportLang,
}

impl View for SourceLanguage {
    type V = Seq<char>;

    /// The name of the language.
    closed spec fn view(&self) -> Seq<char> {
        self.name@
    }
}

/// The view of an optional language.
pub open spec fn language_view(language: Option<SourceLanguage>) -> Option<Seq<char>> {
    match language {
        Some(l) => Some(l@),
        None => None,
    }
}

/// The view of an optional list of raw nodes.
pub open spec fn nodes_view(nodes: Option<Vec<RawNode>>) -> Option<Seq<RawNodeView>> {
    match nodes {
        Some(v) => Some(raw_views(v@)),
        None => None,
    }
}

/// The language of the file at `path`.
///
/// Trusted: `SupportLang::from_path` of `ast_grep_language`, which looks the
/// path's extension up in its table of supported languages, and the
/// language's `Display` text, which is its name.
#[verifier::external_body]
fn detect(path: &str) -> (r: Option<SourceLanguage>)
    ensures
        language_view(r) == path_language(path@),
{
    ast_grep_language::SupportLang::from_path(path).map(
        |handle| SourceLanguage { name: handle.to_string(), handle },
    )
}

/// Parses `source` and lists the nodes of its tree.
///
/// Trusted: `AstGrep::try_new` of `ast_grep_core`, the depth-first walk
/// `Node::dfs`, and the node's accessors `kind`, `text`, `ancestors`,
/// `start_pos`, `end_pos` and `field`. Each node is copied with its kind,
/// its text, the number of its ancestors, its start and end positions and
/// the text of its child in each of the name fields. The parse is a
/// function of the language and the source.
#[verifier::external_body]
fn parse(language: &SourceLanguage, source: &str, name_fields: &Vec<String>) -> (r: Option<
    Vec<RawNode>,
>)
    ensures
        nodes_view(r) == parsed_nodes(language@, source@, string_views(name_fields@)),
{
    let root = ast_grep_core::AstGrep::try_new(source, language.handle).ok()?;
    let nodes = root.root().dfs().map(
        |n|
            RawNode {
                kind: n.kind().to_string(),
                text: n.text().to_string(),
                depth: n.ancestors().count(),
                start_line: n.start_pos().line(),
                end_line: n.end_pos().line(),
                end_column: n.end_pos().byte_point().1,
                names: name_fields.iter().map(|f| n.field(f).map(|c| c.text().to_string())).collect(),
            },
    ).collect();
    Some(nodes)
}

/// The language of the file at `path`, judged by the path's extension.
pub fn detect_language(path: &str) -> (r: Option<SourceLanguage>)
    ensures
        language_view(r) == path_language(path@),
{
    detect(path)
}

/// The tree that the source text `source` has in `language`, its nodes
/// named by the rules of `profile`. `None` when the parser yields no tree.
pub fn parse_tree(language: &SourceLanguage, source: &str, profile: &LanguageProfile) -> (r:
    Option<SyntaxTree>)
    ensures
        match parsed_nodes(language@, source@, profile@.name_fields) {
            Some(raw) => if valid_raw(raw) {
                r matches Some(tree) && tree.wf() && tree@ == tree_of(raw)
            } else {
                r is None
            },
            None => r is None,
        },
{
    match parse(language, source, &profile.name_fields) {
        Some(raw) => SyntaxTree::from_raw(&raw),
        None => None,
    }
}

impl SourceLanguage {
    /// The name of the language.
    pub fn name(&self) -> (r: &str)
        ensures
            r@ == self@,
    {
        self.name.as_str()
    }
}

/// What the scanner knows of a language.
#[derive(Debug)]
pub struct LanguageProfile {
    /// A node is a comment when its kind tag contains this token.
    pub comment_token: String,
    /// The kinds of the named constructs that enclose code: functions and
    /// methods, types and implementation blocks, modules and namespaces.
    pub scope_kinds: Vec<String>,
    /// The fields in which a node's name is looked for, in order.
    pub name_fields: Vec<String>,
}

/// The mathematical content of a [`LanguageProfile`].
pub struct ProfileView {
    pub comment_token: Seq<char>,
    pub scope_kinds: Seq<Seq<char>>,
    pub name_fields: Seq<Seq<char>>,
}

impl View for LanguageProfile {
    type V = ProfileView;

    open spec fn view(&self) -> ProfileView {
        ProfileView {
            comment_token: self.comment_token@,
            scope_kinds: string_views(self.scope_kinds@),
            name_fields: string_views(self.name_fields@),
        }
    }
}

/// Whether a node of kind `kind` is a comment.
pub open spec fn is_comment_kind(profile: ProfileView, kind: Seq<char>) -> bool {
    contains(kind, profile.comment_token)
}

/// Whether a node of kind `kind` is a named scope.
pub open spec fn is_scope_kind(profile: ProfileView, kind: Seq<char>) -> bool {
    profile.scope_kinds.contains(kind)
}

/// The kinds of named scopes in the language named `language`.
pub open spec fn scope_kinds_of(language: Seq<char>) -> Seq<Seq<char>> {
    if language == "Rust"@ {
        seq![
            "function_item"@,
            "impl_item"@,
            "trait_item"@,
            "struct_item"@,
            "enum_item"@,
            "union_item"@,
            "mod_item"@,
        ]
    } else if language == "Python"@ {
        seq!["function_definition"@, "class_definition"@]
    } else if language == "JavaScript"@ {
        seq![
            "function_declaration"@,
            "generator_function_declaration"@,
            "function_expression"@,
            "generator_function"@,
            "arrow_function"@,
            "method_definition"@,
            "class_declaration"@,
            "class"@,
        ]
    } else if language == "TypeScript"@ || language == "Tsx"@ {
        seq![
            "function_declaration"@,
            "generator_function_declaration"@,
            "function_expression"@,
            "generator_function"@,
            "arrow_function"@,
            "method_definition"@,
            "class_declaration"@,
            "class"@,
            "abstract_class_declaration"@,
            "interface_declaration"@,
            "enum_declaration"@,
            "internal_module"@,
            "module"@,
        ]
    } else if language == "Go"@ {
        seq!["function_declaration"@, "method_declaration"@, "func_literal"@, "type_spec"@]
    } else if language == "Java"@ {
        seq![
            "method_declaration"@,
            "constructor_declaration"@,
            "compact_constructor_declaration"@,
            "class_declaration"@,
            "interface_declaration"@,
            "enum_declaration"@,
            "record_declaration"@,
            "annotation_type_declaration"@,
            "module_declaration"@,
        ]
    } else if language == "C"@ {
        seq!["function_definition"@, "struct_specifier"@, "union_specifier"@, "enum_specifier"@]
    } else if language == "Cpp"@ {
        seq![
            "function_definition"@,
            "struct_specifier"@,
            "union_specifier"@,
            "enum_specifier"@,
            "class_specifier"@,
            "namespace_definition"@,
        ]
    } else if language == "CSharp"@ {
        seq![
            "method_declaration"@,
            "constructor_declaration"@,
            "destructor_declaration"@,
            "local_function_statement"@,
            "class_declaration"@,
            "struct_declaration"@,
            "interface_declaration"@,
            "enum_declaration"@,
            "record_declaration"@,
            "namespace_declaration"@,
        ]
    } else if language == "Kotlin"@ {
        seq![
            "function_declaration"@,
            "anonymous_function"@,
            "secondary_constructor"@,
            "class_declaration"@,
            "object_declaration"@,
        ]
    } else if language == "Swift"@ {
        seq![
            "function_declaration"@,
            "protocol_function_declaration"@,
            "class_declaration"@,
            "protocol_declaration"@,
        ]
    } else if language == "Ruby"@ {
        seq!["method"@, "singleton_method"@, "class"@, "singleton_class"@, "module"@]
    } else if language == "Php"@ {
        seq![
            "function_definition"@,
            "method_declaration"@,
            "class_declaration"@,
            "interface_declaration"@,
            "trait_declaration"@,
            "enum_declaration"@,
            "namespace_definition"@,
        ]
    } else if language == "Scala"@ {
        seq![
            "function_definition"@,
            "class_definition"@,
            "object_definition"@,
            "trait_definition"@,
            "enum_definition"@,
            "package_object"@,
            "package_clause"@,
        ]
    } else if language == "Lua"@ {
        seq!["function_declaration"@, "function_definition"@]
    } else if language == "Bash"@ {
        seq!["function_definition"@]
    } else {
        Seq::empty()
    }
}

/// The fields that name a node in the language named `language`.
pub open spec fn name_fields_of(language: Seq<char>) -> Seq<Seq<char>> {
    if language == "C"@ || language == "Cpp"@ {
        seq!["name"@, "declarator"@]
    } else {
        seq!["name"@]
    }
}

/// The table entry of the language named `language`.
pub open spec fn profile_of(language: Seq<char>) -> ProfileView {
    ProfileView {
        comment_token: "comment"@,
        scope_kinds: scope_kinds_of(language),
        name_fields: name_fields_of(language),
    }
}

/// The views of a list of string slices.
pub open spec fn str_views(v: Seq<&'static str>) -> Seq<Seq<char>> {
    Seq::new(v.len(), |i: int| v[i]@)
}

/// Owned copies of a list of string slices.
fn owned(list: Vec<&'static str>) -> (r: Vec<String>)
    ensures
        string_views(r@) == str_views(list@),
{
    let mut r: Vec<String> = Vec::new();
    let mut i: usize = 0;
    while i < list.len()
        invariant
            i <= list.len(),
            r.len() == i,
            forall|k: int| 0 <= k < i ==> (#[trigger] r@[k])@ == list@[k]@,
        decreases list.len() - i,
    {
        r.push(list[i].to_owned());
        i = i + 1;
    }
    assert(string_views(r@) =~= str_views(list@));
    r
}

/// The scope kinds of the language named `language`.
fn scope_kinds_for(language: &Vec<char>) -> (r: Vec<String>)
    ensures
        string_views(r@) == scope_kinds_of(language@),
{
    let list: Vec<&'static str> = if equals_str(language, "Rust") {
        vec![
            "function_item",
            "impl_item",
            "trait_item",
            "struct_item",
            "enum_item",
            "union_item",
            "mod_item",
        ]
    } else if equals_str(language, "Python") {
        vec!["function_definition", "class_definition"]
    } else if equals_str(language, "JavaScript") {
        vec![
            "function_declaration",
            "generator_function_declaration",
            "function_expression",
            "generator_function",
            "arrow_function",
            "method_definition",
            "class_declaration",
            "class",
        ]
    } else if equals_str(language, "TypeScript") || equals_str(language, "Tsx") {
        vec![
            "function_declaration",
            "generator_function_declaration",
            "function_expression",
            "generator_function",
            "arrow_function",
            "method_definition",
            "class_declaration",
            "class",
            "abstract_class_declaration",
            "interface_declaration",
            "enum_declaration",
            "internal_module",
            "module",
        ]
    } else if equals_str(language, "Go") {
        vec!["function_declaration", "method_declaration", "func_literal", "type_spec"]
    } else if equals_str(language, "Java") {
        vec![
            "method_declaration",
            "constructor_declaration",
            "compact_constructor_declaration",
            "class_declaration",
            "interface_declaration",
            "enum_declaration",
            "record_declaration",
            "annotation_type_declaration",
            "module_declaration",
        ]
    } else if equals_str(language, "C") {
        vec!["function_definition", "struct_specifier", "union_specifier", "enum_specifier"]
    } else if equals_str(language, "Cpp") {
        vec![
            "function_definition",
            "struct_specifier",
            "union_specifier",
            "enum_specifier",
            "class_specifier",
            "namespace_definition",
        ]
    } else if equals_str(language, "CSharp") {
        vec![
            "method_declaration",
            "constructor_declaration",
            "destructor_declaration",
            "local_function_statement",
            "class_declaration",
            "struct_declaration",
            "interface_declaration",
            "enum_declaration",
            "record_declaration",
            "namespace_declaration",
        ]
    } else if equals_str(language, "Kotlin") {
        vec![
            "function_declaration",
            "anonymous_function",
            "secondary_constructor",
            "class_declaration",
            "object_declaration",
        ]
    } else if equals_str(language, "Swift") {
        vec![
            "function_declaration",
            "protocol_function_declaration",
            "class_declaration",
            "protocol_declaration",
        ]
    } else if equals_str(language, "Ruby") {
        vec!["method", "singleton_method", "class", "singleton_class", "module"]
    } else if equals_str(language, "Php") {
        vec![
            "function_definition",
            "method_declaration",
            "class_declaration",
            "interface_declaration",
            "trait_declaration",
            "enum_declaration",
            "namespace_definition",
        ]
    } else if equals_str(language, "Scala") {
        vec![
            "function_definition",
            "class_definition",
            "object_definition",
            "trait_definition",
            "enum_definition",
            "package_object",
            "package_clause",
        ]
    } else if equals_str(language, "Lua") {
        vec!["function_declaration", "function_definition"]
    } else if equals_str(language, "Bash") {
        vec!["function_definition"]
    } else {
        Vec::new()
    };
    assert(str_views(list@) =~= scope_kinds_of(language@));
    owned(list)
}

/// The table entry of the language named `language`. A language without an
/// entry of its own has no named scopes.
pub fn profile_for(language: &str) -> (p: LanguageProfile)
    ensures
        p@ == profile_of(language@),
{
    let name = chars_of(language);
    let name_list: Vec<&'static str> = if equals_str(&name, "C") || equals_str(&name, "Cpp") {
        vec!["name", "declarator"]
    } else {
        vec!["name"]
    };
    assert(str_views(name_list@) =~= name_fields_of(language@));
    LanguageProfile {
        comment_token: "comment".to_owned(),
        scope_kinds: scope_kinds_for(&name),
        name_fields: owned(name_list),
    }
}

/// Whether a node of kind `kind` is a comment: its kind tag contains the
/// token `comment`.
pub fn is_comment(kind: &str) -> (r: bool)
    ensures
        r == contains(kind@, "comment"@),
{
    let hay = chars_of(kind);
    let needle = chars_of("comment");
    contains_chars(&hay, &needle)
}

impl LanguageProfile {
    /// Whether a node of kind `kind` is a comment in this language.
    pub fn is_comment(&self, kind: &str) -> (r: bool)
        ensures
            r == is_comment_kind(self@, kind@),
    {
        let hay = chars_of(kind);
        let needle = chars_of(self.comment_token.as_str());
        contains_chars(&hay, &needle)
    }

    /// Whether a node of kind `kind` is a named scope in this language.
    pub fn is_scope(&self, kind: &String) -> (r: bool)
        ensures
            r == is_scope_kind(self@, kind@),
    {
        let mut i: usize = 0;
        while i < self.scope_kinds.len()
            invariant
                i <= self.scope_kinds.len(),
                forall|k: int| 0 <= k < i ==> string_views(self.scope_kinds@)[k] != kind@,
            decreases self.scope_kinds.len() - i,
        {
            if self.scope_kinds[i] == *kind {
                assert(string_views(self.scope_kinds@)[i as int] == kind@);
                return true;
            }
            i = i + 1;
        }
        false
    }
}

} // verus!
