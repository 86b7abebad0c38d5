//! The extraction rules for JavaScript and TypeScript.

use crate::extract::{
    base, base_symbol, extract_last_name, last_name, named, named_child_text, put_opt, put_opt_into,
    scope_of, Scope,
};
use crate::symbol::{
    new_metadata,
    lemma_symbol_view_eq,meta_insert, pairs_insert, Metadata, Symbol, SymbolKind, SymbolView};
use crate::syntax::{field_child, SyntaxNode};
use vstd::prelude::*;

verus! {

/// Whether a node declares a function or a method.
pub open spec fn is_function_like(node: SyntaxNode) -> bool {
    node.kind@ == "function_declaration"@ || node.kind@ == "method_definition"@
}

/// The symbol that a JavaScript or TypeScript node stands for. A class
/// declaration gives a class. A function declaration or method definition
/// gives a method inside a class and a function elsewhere, and records its
/// own name as its caller context. A call expression gives a call symbol
/// named by the last segment of its callee.
pub open spec fn javascript_emit(node: SyntaxNode, scope: Scope, path: Seq<char>) -> Option<
    SymbolView,
> {
    if node.kind@ == "class_declaration"@ {
        match named(node) {
            Some(name) => Some(base_symbol(node, name, SymbolKind::Class, path, 200)),
            None => None,
        }
    } else if is_function_like(node) {
        match named(node) {
            Some(name) => Some(
                base_symbol(
                    node,
                    name,
                    if scope.class is None {
                        SymbolKind::Function
                    } else {
                        SymbolKind::Method
                    },
                    path,
                    200,
                ).with_metadata(
                    pairs_insert(
                        put_opt(Seq::empty(), "callerClass"@, scope.class),
                        "callerFunction"@,
                        name,
                    ),
                ),
            ),
            None => None,
        }
    } else if node.kind@ == "call_expression"@ {
        match field_child(node.children@, "function"@) {
            Some(callee) => if last_name(callee.text@).len() == 0 {
                None
            } else {
                Some(
                    base_symbol(
                        node,
                        last_name(callee.text@),
                        SymbolKind::MethodCall,
                        path,
                        200,
                    ).with_metadata(
                        put_opt(
                            put_opt(Seq::empty(), "callerClass"@, scope.class),
                            "callerFunction"@,
                            scope.func,
                        ),
                    ),
                )
            },
            None => None,
        }
    } else {
        None
    }
}

/// The scope inside a JavaScript or TypeScript node: a named class
/// declaration becomes the enclosing type, a named function declaration or
/// method definition the enclosing function.
pub open spec fn javascript_scope(node: SyntaxNode, scope: Scope) -> Scope {
    if node.kind@ == "class_declaration"@ {
        match named(node) {
            Some(name) => Scope { class: Some(name), func: scope.func },
            None => scope,
        }
    } else if is_function_like(node) {
        match named(node) {
            Some(name) => Scope { class: scope.class, func: Some(name) },
            None => scope,
        }
    } else {
        scope
    }
}

/// The symbol that a JavaScript or TypeScript node stands for, if it stands for
/// one.
pub fn javascript_rule(
    node: &SyntaxNode,
    class: &Option<String>,
    func: &Option<String>,
    path: &str,
) -> (r: Option<Symbol>)
    ensures
        match r {
            Some(s) => javascript_emit(*node, scope_of(*class, *func), path@) == Some(s@) && s.wf(),
            None => javascript_emit(*node, scope_of(*class, *func), path@) is None,
        },
{
    let r = {
        if node.is_kind("class_declaration") {
            match named_child_text(node) {
                Some(name) => Some(base(node, name, SymbolKind::Class, path, 200)),
                None => None,
            }
        } else if node.is_kind("function_declaration") || node.is_kind("method_definition") {
            match named_child_text(node) {
                Some(name) => {
                    let kind = if class.is_none() {
                        SymbolKind::Function
                    } else {
                        SymbolKind::Method
                    };
                    let mut md: Metadata = new_metadata();
                    put_opt_into(&mut md, "callerClass", class);
                    meta_insert(&mut md, "callerFunction".to_string(), name.clone());
                    Some(base(node, name, kind, path, 200).with_metadata(md))
                },
                None => None,
            }
        } else if node.is_kind("call_expression") {
            match node.child_by_field_name("function") {
                Some(callee) => {
                    let name = extract_last_name(callee.text.as_str());
                    if name.as_str().is_empty() {
                        None
                    } else {
                        let mut md: Metadata = new_metadata();
                        put_opt_into(&mut md, "callerClass", class);
                        put_opt_into(&mut md, "callerFunction", func);
                        Some(base(node, name, SymbolKind::MethodCall, path, 200).with_metadata(md))
                    }
                },
                None => None,
            }
        } else {
            None
        }
    };
    proof {
        if r is Some {
            lemma_symbol_view_eq(javascript_emit(*node, scope_of(*class, *func), path@)->0, r->0@);
        }
    }
    r
}

/// The names that enclose the children of a JavaScript or TypeScript node.
pub fn javascript_scope_of(node: &SyntaxNode, class: &Option<String>, func: &Option<String>) -> (r: (
    Option<String>,
    Option<String>,
))
    ensures
        scope_of(r.0, r.1) == javascript_scope(*node, scope_of(*class, *func)),
{
    if node.is_kind("class_declaration") {
        match named_child_text(node) {
            Some(name) => (Some(name), func.clone()),
            None => (class.clone(), func.clone()),
        }
    } else if node.is_kind("function_declaration") || node.is_kind("method_definition") {
        match named_child_text(node) {
            Some(name) => (class.clone(), Some(name)),
            None => (class.clone(), func.clone()),
        }
    } else {
        (class.clone(), func.clone())
    }
}

} // verus!
