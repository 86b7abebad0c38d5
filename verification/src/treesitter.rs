//! The doorway to the tree-sitter parsers: the outside types, the grammars
//! under their names, one small trusted function for each outside call,
//! and the verified conversion of what a parser hands out into a
//! `SyntaxNode`. What a parser makes of a text is taken as it comes:
//! nothing is claimed of it.

use crate::syntax::SyntaxNode;
use tree_sitter::StreamingIterator;
use vstd::prelude::*;
use vstd::string::StringSliceAdditionalSpecFns;
use vstd::utf8::{
    decode_utf8, encode_utf8, encode_utf8_decode_utf8, encode_utf8_valid_utf8, is_char_boundary,
    is_char_boundary_iff_not_is_continuation_byte, is_char_boundary_start_end_of_seq, valid_utf8,
    valid_utf8_split,
};

verus! {

/// A grammar of tree-sitter. Opaque.
#[verifier::external_type_specification]
#[verifier::external_body]
pub struct ExLanguage(tree_sitter::Language);

/// A parser of tree-sitter. Opaque.
#[verifier::external_type_specification]
#[verifier::external_body]
pub struct ExParser(tree_sitter::Parser);

/// A compiled query of tree-sitter. Opaque.
#[verifier::external_type_specification]
#[verifier::external_body]
pub struct ExQuery(tree_sitter::Query);

/// The grammar `tree_sitter_java::LANGUAGE`. Nothing is claimed of it.
#[verifier::external_body]
pub(crate) fn grammar_java() -> (lang: tree_sitter::Language) {
    tree_sitter_java::LANGUAGE.into()
}

/// The grammar `tree_sitter_python::LANGUAGE`. Nothing is claimed of it.
#[verifier::external_body]
pub(crate) fn grammar_python() -> (lang: tree_sitter::Language) {
    tree_sitter_python::LANGUAGE.into()
}

/// The grammar `tree_sitter_rust::LANGUAGE`. Nothing is claimed of it.
#[verifier::external_body]
pub(crate) fn grammar_rust() -> (lang: tree_sitter::Language) {
    tree_sitter_rust::LANGUAGE.into()
}

/// The grammar `tree_sitter_javascript::LANGUAGE`. Nothing is claimed of it.
#[verifier::external_body]
pub(crate) fn grammar_javascript() -> (lang: tree_sitter::Language) {
    tree_sitter_javascript::LANGUAGE.into()
}

/// The grammar `tree_sitter_typescript::LANGUAGE_TYPESCRIPT`. Nothing is
/// claimed of it.
#[verifier::external_body]
pub(crate) fn grammar_typescript() -> (lang: tree_sitter::Language) {
    tree_sitter_typescript::LANGUAGE_TYPESCRIPT.into()
}

/// The grammar `tree_sitter_typescript::LANGUAGE_TSX`. Nothing is claimed
/// of it.
#[verifier::external_body]
pub(crate) fn grammar_tsx() -> (lang: tree_sitter::Language) {
    tree_sitter_typescript::LANGUAGE_TSX.into()
}

/// The grammar `tree_sitter_go::LANGUAGE`. Nothing is claimed of it.
#[verifier::external_body]
pub(crate) fn grammar_go() -> (lang: tree_sitter::Language) {
    tree_sitter_go::LANGUAGE.into()
}

/// The grammar `tree_sitter_html::LANGUAGE`. Nothing is claimed of it.
#[verifier::external_body]
pub(crate) fn grammar_html() -> (lang: tree_sitter::Language) {
    tree_sitter_html::LANGUAGE.into()
}

/// The grammar `tree_sitter_css::LANGUAGE`. Nothing is claimed of it.
#[verifier::external_body]
pub(crate) fn grammar_css() -> (lang: tree_sitter::Language) {
    tree_sitter_css::LANGUAGE.into()
}

/// The grammar `tree_sitter_json::LANGUAGE`. Nothing is claimed of it.
#[verifier::external_body]
pub(crate) fn grammar_json() -> (lang: tree_sitter::Language) {
    tree_sitter_json::LANGUAGE.into()
}

/// The grammar `tree_sitter_c::LANGUAGE`. Nothing is claimed of it.
#[verifier::external_body]
pub(crate) fn grammar_c() -> (lang: tree_sitter::Language) {
    tree_sitter_c::LANGUAGE.into()
}

/// The grammar `tree_sitter_cpp::LANGUAGE`. Nothing is claimed of it.
#[verifier::external_body]
pub(crate) fn grammar_cpp() -> (lang: tree_sitter::Language) {
    tree_sitter_cpp::LANGUAGE.into()
}

/// `Parser::new` of tree-sitter: a parser without a grammar.
#[verifier::external_body]
pub(crate) fn new_parser() -> (parser: tree_sitter::Parser) {
    tree_sitter::Parser::new()
}

/// A grammar of tree-sitter together with the name under which this
/// library knows it. The two belong together: a value is only ever made by
/// one of the functions below, each of which gives one grammar one name.
pub struct NamedGrammar {
    name: String,
    language: tree_sitter::Language,
}

impl View for NamedGrammar {
    type V = Seq<char>;

    /// The grammar's name.
    closed spec fn view(&self) -> Seq<char> {
        self.name@
    }
}

impl NamedGrammar {
    /// The grammar of Java.
    pub fn java() -> (g: Self)
        ensures
            g@ == "java"@,
    {
        NamedGrammar { name: "java".to_string(), language: grammar_java() }
    }

    /// The grammar of Python.
    pub fn python() -> (g: Self)
        ensures
            g@ == "python"@,
    {
        NamedGrammar { name: "python".to_string(), language: grammar_python() }
    }

    /// The grammar of Rust.
    pub fn rust() -> (g: Self)
        ensures
            g@ == "rust"@,
    {
        NamedGrammar { name: "rust".to_string(), language: grammar_rust() }
    }

    /// The grammar of JavaScript.
    pub fn javascript() -> (g: Self)
        ensures
            g@ == "javascript"@,
    {
        NamedGrammar { name: "javascript".to_string(), language: grammar_javascript() }
    }

    /// The grammar of TypeScript.
    pub fn typescript() -> (g: Self)
        ensures
            g@ == "typescript"@,
    {
        NamedGrammar { name: "typescript".to_string(), language: grammar_typescript() }
    }

    /// The grammar of TypeScript with embedded markup.
    pub fn tsx() -> (g: Self)
        ensures
            g@ == "tsx"@,
    {
        NamedGrammar { name: "tsx".to_string(), language: grammar_tsx() }
    }

    /// The grammar of Go.
    pub fn go() -> (g: Self)
        ensures
            g@ == "go"@,
    {
        NamedGrammar { name: "go".to_string(), language: grammar_go() }
    }

    /// The grammar of HTML.
    pub fn html() -> (g: Self)
        ensures
            g@ == "html"@,
    {
        NamedGrammar { name: "html".to_string(), language: grammar_html() }
    }

    /// The grammar of CSS.
    pub fn css() -> (g: Self)
        ensures
            g@ == "css"@,
    {
        NamedGrammar { name: "css".to_string(), language: grammar_css() }
    }

    /// The grammar of JSON.
    pub fn json() -> (g: Self)
        ensures
            g@ == "json"@,
    {
        NamedGrammar { name: "json".to_string(), language: grammar_json() }
    }

    /// The grammar of C.
    pub fn c() -> (g: Self)
        ensures
            g@ == "c"@,
    {
        NamedGrammar { name: "c".to_string(), language: grammar_c() }
    }

    /// The grammar of C++.
    pub fn cpp() -> (g: Self)
        ensures
            g@ == "cpp"@,
    {
        NamedGrammar { name: "cpp".to_string(), language: grammar_cpp() }
    }
}

/// One node of a parsed tree as plain values: its kind, the field under
/// which it hangs in its parent, how many children it has, and the byte
/// offsets and rows at which it starts and ends.
#[derive(Debug)]
pub struct RawNode {
    pub kind: String,
    pub field: Option<String>,
    pub children: u32,
    pub start_byte: usize,
    pub end_byte: usize,
    pub start_row: usize,
    pub end_row: usize,
}

/// One captured node of a query match as plain values: the index of the
/// capture within its query, and the byte offsets and rows at which the
/// node starts and ends.
#[derive(Debug)]
pub struct RawCapture {
    pub index: u32,
    pub start_byte: usize,
    pub end_byte: usize,
    pub start_row: usize,
    pub end_row: usize,
}

/// Whether a parser of tree-sitter takes the grammar of this name: what
/// `Parser::set_language` answers for it.
pub uninterp spec fn grammar_loads(name: Seq<char>) -> bool;

/// `Parser::set_language` of tree-sitter: whether the parser took the
/// grammar. The answer depends on the grammar alone; it is named, not
/// stated. Nothing is claimed of the parser afterwards.
#[verifier::external_body]
pub(crate) fn set_language(parser: &mut tree_sitter::Parser, grammar: &NamedGrammar) -> (ok: bool)
    ensures
        ok == grammar_loads(grammar@),
{
    parser.set_language(&grammar.language).is_ok()
}

/// Whether a fresh parser takes the grammar.
pub(crate) fn language_loads(grammar: &NamedGrammar) -> (ok: bool)
    ensures
        ok == grammar_loads(grammar@),
{
    let mut parser = new_parser();
    set_language(&mut parser, grammar)
}

/// `Parser::parse` of tree-sitter on a whole text with a fresh parser that
/// was given the grammar, and the tree handed out node by node with
/// `TreeCursor::goto_descendant`: for each node its kind, field, number of
/// children, byte offsets and rows. Nothing where the parser refuses the
/// grammar or gives no tree. Nothing is claimed of the outcome: the
/// scanners of some grammars read the locale of the process.
#[verifier::external_body]
pub(crate) fn parse_nodes(grammar: &NamedGrammar, content: &str) -> (r: Option<Vec<RawNode>>)
{
    let mut parser = tree_sitter::Parser::new();
    parser.set_language(&grammar.language).ok()?;
    let tree = parser.parse(content, None)?;
    let mut cursor = tree.walk();
    let nodes = (0..tree.root_node().descendant_count()).map(|i| {
        cursor.goto_descendant(i);
        let n = cursor.node();
        RawNode {
            kind: n.kind().to_string(), field: cursor.field_name().map(str::to_string),
            children: n.child_count(), start_byte: n.start_byte(), end_byte: n.end_byte(),
            start_row: n.start_position().row, end_row: n.end_position().row,
        }
    });
    Some(nodes.collect())
}

/// Whether the bytes of `content` from `start` up to `end` are a part of
/// it that begins and ends between characters.
pub open spec fn is_span(content: Seq<char>, start: usize, end: usize) -> bool {
    let bytes = encode_utf8(content);
    &&& start <= end <= bytes.len()
    &&& is_char_boundary(bytes, start as int)
    &&& is_char_boundary(bytes, end as int)
}

/// Whether `text` is what `content` holds from byte `start` up to byte
/// `end`: that part, where it begins and ends between characters of the
/// text, and nothing otherwise.
pub open spec fn is_part(text: Option<String>, content: Seq<char>, start: usize, end: usize) -> bool {
    match text {
        Some(t) => is_span(content, start, end) && encode_utf8(t@) == encode_utf8(content).subrange(
            start as int,
            end as int,
        ),
        None => !is_span(content, start, end),
    }
}

/// Whether `text` is what `content` holds between some two byte offsets.
pub open spec fn part_of(text: Option<String>, content: Seq<char>) -> bool {
    exists|start: usize, end: usize| #[trigger] is_part(text, content, start, end)
}

/// An offset between characters of a text that lies in the part before a
/// later such offset is an offset between characters of that part.
pub proof fn lemma_boundary_in_prefix(bytes: Seq<u8>, start: int, end: int)
    requires
        valid_utf8(bytes),
        0 <= start <= end <= bytes.len(),
        is_char_boundary(bytes, start),
        is_char_boundary(bytes, end),
    ensures
        valid_utf8(bytes.subrange(0, end)),
        is_char_boundary(bytes.subrange(0, end), start),
{
    let head = bytes.subrange(0, end);
    valid_utf8_split(bytes, end);
    if start == end {
        is_char_boundary_start_end_of_seq(head);
    } else {
        is_char_boundary_iff_not_is_continuation_byte(bytes, start);
        is_char_boundary_iff_not_is_continuation_byte(head, start);
        assert(head[start] == bytes[start]);
    }
}

/// What `content` holds from byte `start` up to byte `end`: that part,
/// where both are offsets between characters of the text with `start` not
/// behind `end`, and nothing for any other range.
pub fn text_between(content: &str, start: usize, end: usize) -> (text: Option<String>)
    ensures
        is_part(text, content@, start, end),
{
    let size = content.as_bytes().len();
    if start <= end && end <= size && content.is_char_boundary(start) && content.is_char_boundary(
        end,
    ) {
        proof {
            encode_utf8_valid_utf8(content@);
            lemma_boundary_in_prefix(content.spec_bytes(), start as int, end as int);
        }
        let head = content.split_at(end).0;
        let part = head.split_at(start).1;
        proof {
            assert(part.spec_bytes() =~= content.spec_bytes().subrange(start as int, end as int));
        }
        Some(part.to_owned())
    } else {
        None
    }
}

/// The part of `content` from byte `start` up to byte `end`, where both are
/// offsets between characters of the text with `start` not behind `end`;
/// the empty text for any other range.
pub open spec fn span_text(content: Seq<char>, start: usize, end: usize) -> Seq<char> {
    if is_span(content, start, end) {
        decode_utf8(encode_utf8(content).subrange(start as int, end as int))
    } else {
        Seq::empty()
    }
}

/// The part of `content` that a node spans, where its span is a part of
/// the text.
pub(crate) fn node_text(node: &RawNode, content: &str) -> (text: Option<String>)
    ensures
        is_part(text, content@, node.start_byte, node.end_byte),
        text is Some ==> text->0@ == span_text(content@, node.start_byte, node.end_byte),
{
    let text = text_between(content, node.start_byte, node.end_byte);
    proof {
        if text is Some {
            encode_utf8_decode_utf8(text->0@);
        }
    }
    text
}

/// The index behind the subtree that starts at the index `at` of a list of
/// nodes in which each node is followed by its descendants: behind the
/// node's children. Nothing where the list ends before the subtree does.
pub open spec fn subtree_end(nodes: Seq<RawNode>, at: int) -> Option<int>
    decreases nodes.len() - at, 0nat,
{
    if 0 <= at < nodes.len() {
        kids_end(nodes, at + 1, nodes[at].children as nat)
    } else {
        None
    }
}

/// The index behind the first `count` subtrees that follow one another
/// from the index `first` on.
pub open spec fn kids_end(nodes: Seq<RawNode>, first: int, count: nat) -> Option<int>
    decreases nodes.len() - first, count,
{
    if count == 0 {
        Some(first)
    } else {
        match kids_end(nodes, first, (count - 1) as nat) {
            Some(at) => if first <= at < nodes.len() {
                subtree_end(nodes, at)
            } else {
                None
            },
            None => None,
        }
    }
}

/// The text of an optional string.
pub open spec fn field_text(field: Option<String>) -> Option<Seq<char>> {
    match field {
        Some(f) => Some(f@),
        None => None,
    }
}

/// Whether a node holds what the listed node says: kind, field, rows, the
/// part of `content` that it spans, and the number of children.
pub open spec fn head_matches(node: SyntaxNode, raw: RawNode, content: Seq<char>) -> bool {
    &&& node.kind@ == raw.kind@
    &&& field_text(node.field) == field_text(raw.field)
    &&& node.start_row == raw.start_row
    &&& node.end_row == raw.end_row
    &&& node.text@ == span_text(content, raw.start_byte, raw.end_byte)
    &&& node.children@.len() == raw.children
}

/// Whether `node` is the tree that the list holds from the index `at` on:
/// it holds what the node listed there says, and its children are the
/// trees of the subtrees that follow.
pub open spec fn mirrors(node: SyntaxNode, nodes: Seq<RawNode>, content: Seq<char>, at: int) -> bool
    decreases node, node.children@.len() + 1,
{
    0 <= at < nodes.len() && head_matches(node, nodes[at], content) && kids_mirror(
        node,
        nodes,
        content,
        at + 1,
        node.children@.len(),
    )
}

/// Whether the first `n` children of `node` are the trees of the subtrees
/// that follow one another from the index `first` on.
pub open spec fn kids_mirror(
    node: SyntaxNode,
    nodes: Seq<RawNode>,
    content: Seq<char>,
    first: int,
    n: nat,
) -> bool
    decreases node, n,
{
    if n == 0 || n > node.children@.len() {
        true
    } else {
        kids_mirror(node, nodes, content, first, (n - 1) as nat) && match kids_end(
            nodes,
            first,
            (n - 1) as nat,
        ) {
            Some(at) => mirrors(node.children@[n - 1], nodes, content, at),
            None => false,
        }
    }
}

/// Where a list ends before some of the subtrees that follow one another,
/// it ends before any greater number of them.
pub proof fn lemma_kids_end_none(nodes: Seq<RawNode>, first: int, some: nat, more: nat)
    requires
        some <= more,
        kids_end(nodes, first, some) is None,
    ensures
        kids_end(nodes, first, more) is None,
    decreases more,
{
    if some < more {
        lemma_kids_end_none(nodes, first, some, (more - 1) as nat);
    }
}

/// Where each child is the tree of its subtree, the first `n` children
/// are the trees of the first `n` subtrees.
pub proof fn lemma_kids_mirror(
    node: SyntaxNode,
    nodes: Seq<RawNode>,
    content: Seq<char>,
    first: int,
    n: nat,
)
    requires
        n <= node.children@.len(),
        forall|j: int|
            0 <= j < node.children@.len() ==> match #[trigger] kids_end(nodes, first, j as nat) {
                Some(at) => mirrors(node.children@[j], nodes, content, at),
                None => false,
            },
    ensures
        kids_mirror(node, nodes, content, first, n),
    decreases n,
{
    if n > 0 {
        lemma_kids_mirror(node, nodes, content, first, (n - 1) as nat);
        assert(kids_end(nodes, first, (n - 1) as nat) is Some);
    }
}

/// The tree of the subtree that starts at the index `at` of a list of
/// nodes, and the index behind it; nothing where the list ends before the
/// subtree does.
pub fn build_subtree(nodes: &Vec<RawNode>, content: &str, at: usize) -> (r: Option<
    (SyntaxNode, usize),
>)
    ensures
        match r {
            Some((node, next)) => {
                &&& subtree_end(nodes@, at as int) == Some(next as int)
                &&& at < next <= nodes@.len()
                &&& mirrors(node, nodes@, content@, at as int)
            },
            None => subtree_end(nodes@, at as int) is None,
        },
    decreases nodes@.len() - at,
{
    if at >= nodes.len() {
        return None;
    }
    let raw = &nodes[at];
    let first = at + 1;
    let mut children: Vec<SyntaxNode> = Vec::new();
    let mut next: usize = first;
    let mut k: u32 = 0;
    while k < raw.children
        invariant
            k <= raw.children,
            at < nodes@.len(),
            first == at + 1,
            *raw == nodes@[at as int],
            children@.len() == k,
            first <= next <= nodes@.len(),
            kids_end(nodes@, first as int, k as nat) == Some(next as int),
            forall|j: int|
                0 <= j < k ==> match #[trigger] kids_end(nodes@, first as int, j as nat) {
                    Some(p) => mirrors(children@[j], nodes@, content@, p),
                    None => false,
                },
        decreases raw.children - k,
    {
        if next >= nodes.len() {
            proof {
                assert(kids_end(nodes@, first as int, (k + 1) as nat) is None);
                lemma_kids_end_none(nodes@, first as int, (k + 1) as nat, raw.children as nat);
            }
            return None;
        }
        match build_subtree(nodes, content, next) {
            Some((child, behind)) => {
                proof {
                    assert(kids_end(nodes@, first as int, (k + 1) as nat) == Some(behind as int));
                }
                children.push(child);
                next = behind;
            },
            None => {
                proof {
                    assert(kids_end(nodes@, first as int, (k + 1) as nat) is None);
                    lemma_kids_end_none(nodes@, first as int, (k + 1) as nat, raw.children as nat);
                }
                return None;
            },
        }
        k += 1;
    }
    let text = match node_text(raw, content) {
        Some(t) => t,
        None => String::new(),
    };
    let node = SyntaxNode {
        kind: raw.kind.clone(),
        field: raw.field.clone(),
        text,
        start_row: raw.start_row,
        end_row: raw.end_row,
        children,
    };
    proof {
        lemma_kids_mirror(node, nodes@, content@, first as int, node.children@.len());
    }
    Some((node, next))
}

/// Whether a list of nodes holds a whole tree from its first node on.
pub open spec fn holds_tree(nodes: Seq<RawNode>) -> bool {
    subtree_end(nodes, 0) is Some
}

/// The tree that a list of nodes holds from its first node on; nothing
/// where the list ends before the tree does.
pub fn convert_tree(nodes: &Vec<RawNode>, content: &str) -> (r: Option<SyntaxNode>)
    ensures
        match r {
            Some(root) => holds_tree(nodes@) && mirrors(root, nodes@, content@, 0),
            None => !holds_tree(nodes@),
        },
{
    match build_subtree(nodes, content, 0) {
        Some((root, _)) => Some(root),
        None => None,
    }
}

/// Whether `root` is a tree over `content`: the tree that some list of
/// nodes holds, with the text of each node the part of `content` that the
/// node spans.
pub open spec fn is_tree_of(root: SyntaxNode, content: Seq<char>) -> bool {
    exists|nodes: Seq<RawNode>| #[trigger] mirrors(root, nodes, content, 0)
}

/// The tree that a fresh parser with the grammar gives for the text;
/// nothing where the parser refuses the grammar or gives no tree. Which
/// tree there is, if any, is the parser's answer.
pub(crate) fn parse_source(grammar: &NamedGrammar, content: &str) -> (r: Option<SyntaxNode>)
    ensures
        r is Some ==> is_tree_of(r->0, content@),
{
    match parse_nodes(grammar, content) {
        Some(nodes) => convert_tree(&nodes, content),
        None => None,
    }
}

/// A compiled query of tree-sitter with the grammar and the source that it
/// was compiled from. They belong together: a value is only ever made by
/// compiling its source for its grammar.
pub struct GrammarQuery {
    grammar: NamedGrammar,
    source: String,
    query: tree_sitter::Query,
}

impl GrammarQuery {
    /// The name of the grammar that the query was compiled for.
    pub closed spec fn grammar(&self) -> Seq<char> {
        self.grammar@
    }

    /// The source that the query was compiled from.
    pub closed spec fn source(&self) -> Seq<char> {
        self.source@
    }
}

/// `Query::new` of tree-sitter: the compiled query together with its
/// grammar and source, or nothing where the grammar does not accept the
/// source. Nothing is claimed of which sources a grammar accepts.
#[verifier::external_body]
pub(crate) fn compile_query(grammar: &NamedGrammar, source: &str) -> (r: Option<GrammarQuery>)
    ensures
        r is Some ==> r->0.grammar() == grammar@ && r->0.source() == source@,
{
    let query = tree_sitter::Query::new(&grammar.language, source).ok()?;
    let name = grammar.name.clone();
    let grammar = NamedGrammar { name, language: grammar.language.clone() };
    Some(GrammarQuery { grammar, source: source.to_string(), query })
}

/// One captured node of a query match.
#[derive(Debug)]
pub struct QueryHit {
    /// The index of the capture within its query.
    pub index: u32,
    /// The zero-based row on which the captured node starts.
    pub start_row: usize,
    /// The zero-based row on which the captured node ends.
    pub end_row: usize,
    /// The source text of the captured node; none where its span is no
    /// part of the text.
    pub text: Option<String>,
}

/// `QueryCursor::matches` of tree-sitter over the tree that a fresh parser
/// with the query's grammar gives for `content`: for every match, in the
/// order found, its captures, each with its index, byte offsets and rows.
/// Nothing where the parser refuses the grammar or gives no tree. Nothing
/// is claimed of the outcome.
#[verifier::external_body]
pub(crate) fn capture_list(query: &GrammarQuery, content: &str) -> (r: Option<Vec<Vec<RawCapture>>>)
{
    let mut parser = tree_sitter::Parser::new();
    parser.set_language(&query.grammar.language).ok()?;
    let tree = parser.parse(content, None)?;
    let mut cursor = tree_sitter::QueryCursor::new();
    let mut matches = cursor.matches(&query.query, tree.root_node(), content.as_bytes());
    let mut found = Vec::new();
    while let Some(m) = matches.next() {
        found.push(m.captures().iter().map(|c| RawCapture {
            index: c.index, start_byte: c.node.start_byte(), end_byte: c.node.end_byte(),
            start_row: c.node.start_position().row, end_row: c.node.end_position().row,
        }).collect());
    }
    Some(found)
}

/// Whether a hit holds what the listed capture says: index, rows, and the
/// part of `content` that the captured node spans.
pub open spec fn hit_matches(hit: QueryHit, raw: RawCapture, content: Seq<char>) -> bool {
    &&& hit.index == raw.index
    &&& hit.start_row == raw.start_row
    &&& hit.end_row == raw.end_row
    &&& is_part(hit.text, content, raw.start_byte, raw.end_byte)
}

/// Whether `hits` holds, match by match and capture by capture, what the
/// listed captures say.
pub open spec fn hits_mirror(hits: Seq<Vec<QueryHit>>, found: Seq<Vec<RawCapture>>, content: Seq<char>) -> bool {
    &&& hits.len() == found.len()
    &&& forall|i: int| 0 <= i < hits.len() ==> (#[trigger] hits[i])@.len() == found[i]@.len()
    &&& forall|i: int, j: int|
        0 <= i < hits.len() && 0 <= j < hits[i]@.len() ==> hit_matches(
            #[trigger] hits[i]@[j],
            found[i]@[j],
            content,
        )
}

/// Whether `hits` are matches in `content`: what some list of captures
/// says, with the text of each hit the part of `content` that the captured
/// node spans.
pub open spec fn are_hits_in(hits: Seq<Vec<QueryHit>>, content: Seq<char>) -> bool {
    exists|found: Seq<Vec<RawCapture>>| #[trigger] hits_mirror(hits, found, content)
}

/// The captures of one match as plain values with their texts.
pub fn capture_row(captures: &Vec<RawCapture>, content: &str) -> (row: Vec<QueryHit>)
    ensures
        row@.len() == captures@.len(),
        forall|j: int|
            0 <= j < row@.len() ==> hit_matches(#[trigger] row@[j], captures@[j], content@),
{
    let mut row: Vec<QueryHit> = Vec::new();
    let mut j: usize = 0;
    while j < captures.len()
        invariant
            j <= captures.len(),
            row@.len() == j,
            forall|k: int|
                0 <= k < row@.len() ==> hit_matches(#[trigger] row@[k], captures@[k], content@),
        decreases captures.len() - j,
    {
        let c = &captures[j];
        row.push(
            QueryHit {
                index: c.index,
                start_row: c.start_row,
                end_row: c.end_row,
                text: text_between(content, c.start_byte, c.end_byte),
            },
        );
        j += 1;
    }
    row
}

/// The captures of every match as plain values with their texts, match
/// after match.
pub fn capture_rows(found: &Vec<Vec<RawCapture>>, content: &str) -> (hits: Vec<Vec<QueryHit>>)
    ensures
        hits_mirror(hits@, found@, content@),
{
    let mut hits: Vec<Vec<QueryHit>> = Vec::new();
    let mut i: usize = 0;
    while i < found.len()
        invariant
            i <= found.len(),
            hits@.len() == i,
            forall|a: int| 0 <= a < hits@.len() ==> (#[trigger] hits@[a])@.len() == found@[a]@.len(),
            forall|a: int, b: int|
                0 <= a < hits@.len() && 0 <= b < hits@[a]@.len() ==> hit_matches(
                    #[trigger] hits@[a]@[b],
                    found@[a]@[b],
                    content@,
                ),
        decreases found.len() - i,
    {
        let row = capture_row(&found[i], content);
        let ghost before = hits@;
        hits.push(row);
        proof {
            assert forall|a: int| 0 <= a < hits@.len() implies (#[trigger] hits@[a])@.len()
                == found@[a]@.len() by {
                if a < before.len() {
                    assert(hits@[a] == before[a]);
                }
            }
            assert forall|a: int, b: int|
                0 <= a < hits@.len() && 0 <= b < hits@[a]@.len() implies hit_matches(
                #[trigger] hits@[a]@[b],
                found@[a]@[b],
                content@,
            ) by {
                if a < before.len() {
                    assert(hits@[a] == before[a]);
                }
            }
        }
        i += 1;
    }
    hits
}

/// The matches of a query in the text: for every match, in the order
/// found, its captures as plain values with their texts; none where the
/// grammar gives no tree for the text. Which matches there are is
/// tree-sitter's answer.
pub(crate) fn query_matches(query: &GrammarQuery, content: &str) -> (hits: Vec<Vec<QueryHit>>)
    ensures
        are_hits_in(hits@, content@),
{
    match capture_list(query, content) {
        Some(found) => capture_rows(&found, content),
        None => {
            let hits: Vec<Vec<QueryHit>> = Vec::new();
            proof {
                assert(hits_mirror(hits@, Seq::<Vec<RawCapture>>::empty(), content@));
            }
            hits
        },
    }
}

} // verus!
