//! Symbol extraction from syntax trees: the tree walk that all languages
//! share, and what the rules of every language are built from.

use crate::java::{java_emit, java_rule, java_scope, java_scope_of};
use crate::javascript::{javascript_emit, javascript_rule, javascript_scope, javascript_scope_of};
use crate::python::{python_emit, python_rule, python_scope, python_scope_of};
use crate::rustlang::{rust_emit, rust_rule, rust_scope, rust_scope_of};
use crate::symbol::{
    meta_insert, meta_view, pairs_insert, symbol_views, Metadata, Pairs, Symbol, SymbolKind,
    SymbolView,
};
use crate::syntax::{end_line_of, field_child, start_line_of, SyntaxNode};
use crate::text::{
    after_last, after_last_chars, clip, clipped, from_chars, replace_chars, replaced, to_chars,
    trim_chars, trimmed,
};
use vstd::prelude::*;

verus! {

/// The sets of extraction rules. Languages of one syntactic shape share a
/// set; `Other` stands for the languages that have a grammar and no rules.
#[derive(Debug, Clone, Copy, PartialEq, Eq, Structural)]
pub enum Grammar {
    Java,
    Python,
    Rust,
    JavaScript,
    Other,
}

/// What encloses a node: the name of the innermost enclosing type and of
/// the innermost enclosing function or method, where there is one.
pub struct Scope {
    pub class: Option<Seq<char>>,
    pub func: Option<Seq<char>>,
}

/// The characters of an optional string.
pub open spec fn opt_view(o: Option<String>) -> Option<Seq<char>> {
    match o {
        Some(s) => Some(s@),
        None => None,
    }
}

/// The scope that two optional names stand for.
pub open spec fn scope_of(class: Option<String>, func: Option<String>) -> Scope {
    Scope { class: opt_view(class), func: opt_view(func) }
}

/// The text of the child under the field `name`, where there is one.
pub open spec fn named(node: SyntaxNode) -> Option<Seq<char>> {
    match field_child(node.children@, "name"@) {
        Some(c) => Some(c.text@),
        None => None,
    }
}

/// The symbol that every rule starts from: name, kind and file as given,
/// the node's lines, and the node's text shortened to `limit` characters.
pub open spec fn base_symbol(
    node: SyntaxNode,
    name: Seq<char>,
    kind: SymbolKind,
    path: Seq<char>,
    limit: nat,
) -> SymbolView {
    SymbolView::fresh(name, kind, path, start_line_of(node), clipped(node.text@, limit)).with_end_line(
        end_line_of(node),
    )
}

/// `pairs` with `value` stored under `key` where there is a value.
pub open spec fn put_opt(pairs: Pairs, key: Seq<char>, value: Option<Seq<char>>) -> Pairs {
    match value {
        Some(v) => pairs_insert(pairs, key, v),
        None => pairs,
    }
}

/// The last segment of a callee expression: the text without surrounding
/// white space, with `?.`, `::` and `->` read as `.`, cut behind its last
/// `.`. Empty for a blank text.
pub open spec fn last_name(text: Seq<char>) -> Seq<char> {
    let t = trimmed(text);
    if t.len() == 0 {
        Seq::empty()
    } else {
        after_last(replaced(replaced(replaced(t, "?."@, "."@), "::"@, "."@), "->"@, "."@), '.')
    }
}

/// The symbol that the rules of `grammar` give for `node` itself.
pub open spec fn emitted(
    grammar: Grammar,
    node: SyntaxNode,
    scope: Scope,
    path: Seq<char>,
    package: Seq<char>,
) -> Option<SymbolView> {
    match grammar {
        Grammar::Java => java_emit(node, scope, path, package),
        Grammar::Python => python_emit(node, scope, path),
        Grammar::Rust => rust_emit(node, scope, path),
        Grammar::JavaScript => javascript_emit(node, scope, path),
        Grammar::Other => None,
    }
}

/// The scope in which the children of `node` stand.
pub open spec fn inner_scope(grammar: Grammar, node: SyntaxNode, scope: Scope) -> Scope {
    match grammar {
        Grammar::Java => java_scope(node, scope),
        Grammar::Python => python_scope(node, scope),
        Grammar::Rust => rust_scope(node, scope),
        Grammar::JavaScript => javascript_scope(node, scope),
        Grammar::Other => scope,
    }
}

/// An optional symbol as a list.
pub open spec fn as_list(s: Option<SymbolView>) -> Seq<SymbolView> {
    match s {
        Some(v) => seq![v],
        None => Seq::empty(),
    }
}

/// The symbols of the subtree under `node`, depth first: the node's own
/// symbol, then those of its children in order, each child standing in the
/// scope that the node opens.
pub open spec fn walk(
    grammar: Grammar,
    node: SyntaxNode,
    scope: Scope,
    path: Seq<char>,
    package: Seq<char>,
) -> Seq<SymbolView>
    decreases node, node.children@.len() + 1,
{
    as_list(emitted(grammar, node, scope, path, package)) + walk_children(
        grammar,
        node,
        node.children@.len(),
        inner_scope(grammar, node, scope),
        path,
        package,
    )
}

/// The symbols of the first `n` children of `node`, all in `scope`.
pub open spec fn walk_children(
    grammar: Grammar,
    node: SyntaxNode,
    n: nat,
    scope: Scope,
    path: Seq<char>,
    package: Seq<char>,
) -> Seq<SymbolView>
    decreases node, n,
{
    if n == 0 || n > node.children@.len() {
        Seq::empty()
    } else {
        walk_children(grammar, node, (n - 1) as nat, scope, path, package) + walk(
            grammar,
            node.children@[n - 1],
            scope,
            path,
            package,
        )
    }
}

/// The symbols of a whole tree. A grammar without rules gives none.
pub open spec fn extracted(
    grammar: Grammar,
    root: SyntaxNode,
    path: Seq<char>,
    package: Seq<char>,
) -> Seq<SymbolView> {
    if grammar == Grammar::Other {
        Seq::empty()
    } else {
        walk(grammar, root, Scope { class: None, func: None }, path, package)
    }
}

/// The text of the child under the field `name`, where there is one.
pub fn named_child_text(node: &SyntaxNode) -> (r: Option<String>)
    ensures
        opt_view(r) == named(*node),
{
    match node.child_by_field_name("name") {
        Some(c) => Some(c.text.clone()),
        None => None,
    }
}

/// The symbol that every rule starts from.
pub fn base(node: &SyntaxNode, name: String, kind: SymbolKind, path: &str, limit: usize) -> (s: Symbol)
    ensures
        s@ == base_symbol(*node, name@, kind, path@, limit as nat),
        s.wf(),
{
    let code = clip(node.text.as_str(), limit);
    Symbol::new(name, kind, path.to_string(), node.start_line(), code).with_end_line(node.end_line())
}

/// Stores `value` under `key` where there is a value.
pub fn put_opt_into(md: &mut Metadata, key: &str, value: &Option<String>)
    ensures
        meta_view(final(md)) == put_opt(meta_view(old(md)), key@, opt_view(*value)),
{
    match value {
        Some(v) => {
            meta_insert(md, key.to_string(), v.clone());
        },
        None => {},
    }
}

/// The last segment of a callee expression.
pub fn extract_last_name(text: &str) -> (r: String)
    ensures
        r@ == last_name(text@),
{
    let t = trim_chars(&to_chars(text));
    if t.len() == 0 {
        return String::new();
    }
    let dot = to_chars(".");
    let a = replace_chars(&t, &to_chars("?."), &dot);
    let b = replace_chars(&a, &to_chars("::"), &dot);
    let c = replace_chars(&b, &to_chars("->"), &dot);
    let last = after_last_chars(&c, '.');
    from_chars(&last)
}

/// The symbol that the rules of `grammar` give for `node` itself.
pub fn emit_symbol(
    grammar: Grammar,
    node: &SyntaxNode,
    class: &Option<String>,
    func: &Option<String>,
    path: &str,
    package: &str,
) -> (r: Option<Symbol>)
    ensures
        match r {
            Some(s) => emitted(grammar, *node, scope_of(*class, *func), path@, package@) == Some(s@)
                && s.wf(),
            None => emitted(grammar, *node, scope_of(*class, *func), path@, package@) is None,
        },
{
    match grammar {
        Grammar::Java => java_rule(node, class, func, path, package),
        Grammar::Python => python_rule(node, class, func, path),
        Grammar::Rust => rust_rule(node, class, func, path),
        Grammar::JavaScript => javascript_rule(node, class, func, path),
        Grammar::Other => None,
    }
}

/// The names that enclose the children of `node`.
pub fn child_scope(
    grammar: Grammar,
    node: &SyntaxNode,
    class: &Option<String>,
    func: &Option<String>,
) -> (r: (Option<String>, Option<String>))
    ensures
        scope_of(r.0, r.1) == inner_scope(grammar, *node, scope_of(*class, *func)),
{
    match grammar {
        Grammar::Java => java_scope_of(node, class, func),
        Grammar::Python => python_scope_of(node, class, func),
        Grammar::Rust => rust_scope_of(node, class, func),
        Grammar::JavaScript => javascript_scope_of(node, class, func),
        Grammar::Other => (class.clone(), func.clone()),
    }
}

/// Appends the symbols of the subtree under `node` to `out`.
pub fn walk_tree(
    grammar: Grammar,
    node: &SyntaxNode,
    class: &Option<String>,
    func: &Option<String>,
    path: &str,
    package: &str,
    out: &mut Vec<Symbol>,
)
    ensures
        symbol_views(final(out)@) == symbol_views(old(out)@) + walk(
            grammar,
            *node,
            scope_of(*class, *func),
            path@,
            package@,
        ),
        forall|i: int| 0 <= i < old(out)@.len() ==> final(out)@[i] == old(out)@[i],
        (forall|i: int| 0 <= i < old(out)@.len() ==> (#[trigger] old(out)@[i]).wf()) ==> (forall|
            i: int,
        | 0 <= i < final(out)@.len() ==> (#[trigger] final(out)@[i]).wf()),
    decreases node,
{
    let ghost start = symbol_views(out@);
    let ghost scope = scope_of(*class, *func);
    match emit_symbol(grammar, node, class, func, path, package) {
        Some(s) => {
            out.push(s);
            proof {
                assert(symbol_views(out@) =~= start + seq![s@]);
            }
        },
        None => {
            proof {
                assert(start + Seq::<SymbolView>::empty() =~= start);
            }
        },
    }
    let ghost own = as_list(emitted(grammar, *node, scope, path@, package@));
    let inner = child_scope(grammar, node, class, func);
    let ghost inner_view = inner_scope(grammar, *node, scope);
    let mut i: usize = 0;
    proof {
        assert(start + own + Seq::<SymbolView>::empty() =~= start + own);
    }
    while i < node.children.len()
        invariant
            i <= node.children.len(),
            scope_of(inner.0, inner.1) == inner_view,
            symbol_views(out@) == start + own + walk_children(
                grammar,
                *node,
                i as nat,
                inner_view,
                path@,
                package@,
            ),
            out@.len() >= old(out)@.len(),
            forall|k: int| 0 <= k < old(out)@.len() ==> out@[k] == old(out)@[k],
            (forall|k: int| 0 <= k < old(out)@.len() ==> (#[trigger] old(out)@[k]).wf()) ==> (
            forall|k: int| 0 <= k < out@.len() ==> (#[trigger] out@[k]).wf()),
        decreases node.children.len() - i,
    {
        let ghost before = symbol_views(out@);
        let ghost done = walk_children(grammar, *node, i as nat, inner_view, path@, package@);
        let ghost len_before = out@.len();
        walk_tree(grammar, &node.children[i], &inner.0, &inner.1, path, package, out);
        proof {
            let more = walk(grammar, node.children@[i as int], inner_view, path@, package@);
            assert(symbol_views(out@).len() == out@.len());
            assert(before.len() == len_before);
            assert((start + own + done) + more =~= start + own + (done + more));
        }
        i += 1;
    }
    proof {
        assert(symbol_views(out@).len() == out@.len());
        assert(start.len() == old(out)@.len());
    }
}

/// The symbols of a whole tree under the rules of `grammar`, for a file
/// stored at `path` and, where the language has packages, declaring
/// `package`.
pub fn extract_symbols(grammar: Grammar, root: &SyntaxNode, path: &str, package: &str) -> (r: Vec<
    Symbol,
>)
    ensures
        symbol_views(r@) == extracted(grammar, *root, path@, package@),
        forall|i: int| 0 <= i < r@.len() ==> (#[trigger] r@[i]).wf(),
{
    let mut out: Vec<Symbol> = Vec::new();
    match grammar {
        Grammar::Other => {
            proof {
                assert(symbol_views(out@) =~= Seq::empty());
            }
        },
        _ => {
            let none_class: Option<String> = None;
            let none_func: Option<String> = None;
            proof {
                assert(symbol_views(out@) =~= Seq::empty());
            }
            walk_tree(grammar, root, &none_class, &none_func, path, package, &mut out);
            proof {
                assert(Seq::<SymbolView>::empty() + walk(
                    grammar,
                    *root,
                    scope_of(none_class, none_func),
                    path@,
                    package@,
                ) =~= walk(grammar, *root, scope_of(none_class, none_func), path@, package@));
            }
        },
    }
    out
}

/// The symbols of a Java syntax tree, for a file stored at `path` that
/// declares `package`.
pub fn extract_java_symbols(path: &str, package: &str, root: &SyntaxNode) -> (r: Vec<Symbol>)
    ensures
        symbol_views(r@) == extracted(Grammar::Java, *root, path@, package@),
        forall|i: int| 0 <= i < r@.len() ==> (#[trigger] r@[i]).wf(),
{
    extract_symbols(Grammar::Java, root, path, package)
}

/// The symbols of a Python syntax tree, for a file stored at `path`.
pub fn extract_python_symbols(path: &str, root: &SyntaxNode) -> (r: Vec<Symbol>)
    ensures
        symbol_views(r@) == extracted(Grammar::Python, *root, path@, Seq::empty()),
        forall|i: int| 0 <= i < r@.len() ==> (#[trigger] r@[i]).wf(),
{
    let package = String::new();
    extract_symbols(Grammar::Python, root, path, package.as_str())
}

/// The symbols of a Rust syntax tree, for a file stored at `path`.
pub fn extract_rust_symbols(path: &str, root: &SyntaxNode) -> (r: Vec<Symbol>)
    ensures
        symbol_views(r@) == extracted(Grammar::Rust, *root, path@, Seq::empty()),
        forall|i: int| 0 <= i < r@.len() ==> (#[trigger] r@[i]).wf(),
{
    let package = String::new();
    extract_symbols(Grammar::Rust, root, path, package.as_str())
}

/// The symbols of a JavaScript syntax tree, for a file stored at `path`.
pub fn extract_javascript_symbols(path: &str, root: &SyntaxNode) -> (r: Vec<Symbol>)
    ensures
        symbol_views(r@) == extracted(Grammar::JavaScript, *root, path@, Seq::empty()),
        forall|i: int| 0 <= i < r@.len() ==> (#[trigger] r@[i]).wf(),
{
    let package = String::new();
    extract_symbols(Grammar::JavaScript, root, path, package.as_str())
}

/// The symbols of a TypeScript syntax tree, for a file stored at `path`:
/// those that the rules for JavaScript give.
pub fn extract_typescript_symbols(path: &str, root: &SyntaxNode) -> (r: Vec<Symbol>)
    ensures
        symbol_views(r@) == extracted(Grammar::JavaScript, *root, path@, Seq::empty()),
        forall|i: int| 0 <= i < r@.len() ==> (#[trigger] r@[i]).wf(),
{
    extract_javascript_symbols(path, root)
}

/// The symbols of a syntax tree of a language without rules: none.
pub fn extract_generic_symbols(path: &str, root: &SyntaxNode) -> (r: Vec<Symbol>)
    ensures
        r@.len() == 0,
        symbol_views(r@) == extracted(Grammar::Other, *root, path@, Seq::empty()),
{
    let package = String::new();
    let r = extract_symbols(Grammar::Other, root, path, package.as_str());
    proof {
        assert(symbol_views(r@).len() == r@.len());
    }
    r
}

} // verus!
