//! The extraction rules for Rust.

use crate::extract::{
    base, base_symbol, extract_last_name, last_name, named, named_child_text, put_opt, put_opt_into,
    scope_of, Scope,
};
use crate::symbol::{
    new_metadata,
    lemma_symbol_view_eq,meta_insert, pairs_insert, Metadata, Symbol, SymbolKind, SymbolView};
use crate::syntax::{field_child, SyntaxNode};
use vstd::prelude::*;

verus! {

/// The symbol that a Rust node stands for. A struct item gives a struct. A
/// function item gives a function that records its own name as its caller
/// context. A call expression gives a call symbol named by the last segment
/// of its callee.
pub open spec fn rust_emit(node: SyntaxNode, scope: Scope, path: Seq<char>) -> Option<SymbolView> {
    if node.kind@ == "struct_item"@ {
        match named(node) {
            Some(name) => Some(base_symbol(node, name, SymbolKind::Struct, path, 200)),
            None => None,
        }
    } else if node.kind@ == "function_item"@ {
        match named(node) {
            Some(name) => Some(
                base_symbol(node, name, SymbolKind::Function, path, 200).with_metadata(
                    pairs_insert(Seq::empty(), "callerFunction"@, name),
                ),
            ),
            None => None,
        }
    } else if node.kind@ == "call_expression"@ {
        match field_child(node.children@, "function"@) {
            Some(callee) => if last_name(callee.text@).len() == 0 {
                None
            } else {
                Some(
                    base_symbol(
                        node,
                        last_name(callee.text@),
                        SymbolKind::MethodCall,
                        path,
                        200,
                    ).with_metadata(put_opt(Seq::empty(), "callerFunction"@, scope.func)),
                )
            },
            None => None,
        }
    } else {
        None
    }
}

/// The scope inside a Rust node: a named function item becomes the
/// enclosing function.
pub open spec fn rust_scope(node: SyntaxNode, scope: Scope) -> Scope {
    if node.kind@ == "function_item"@ {
        match named(node) {
            Some(name) => Scope { class: scope.class, func: Some(name) },
            None => scope,
        }
    } else {
        scope
    }
}

/// The symbol that a Rust node stands for, if it stands for one.
pub fn rust_rule(node: &SyntaxNode, class: &Option<String>, func: &Option<String>, path: &str) -> (r:
    Option<Symbol>)
    ensures
        match r {
            Some(s) => rust_emit(*node, scope_of(*class, *func), path@) == Some(s@) && s.wf(),
            None => rust_emit(*node, scope_of(*class, *func), path@) is None,
        },
{
    let r = {
        if node.is_kind("struct_item") {
            match named_child_text(node) {
                Some(name) => Some(base(node, name, SymbolKind::Struct, path, 200)),
                None => None,
            }
        } else if node.is_kind("function_item") {
            match named_child_text(node) {
                Some(name) => {
                    let mut md: Metadata = new_metadata();
                    meta_insert(&mut md, "callerFunction".to_string(), name.clone());
                    Some(base(node, name, SymbolKind::Function, path, 200).with_metadata(md))
                },
                None => None,
            }
        } else if node.is_kind("call_expression") {
            match node.child_by_field_name("function") {
                Some(callee) => {
                    let name = extract_last_name(callee.text.as_str());
                    if name.as_str().is_empty() {
                        None
                    } else {
                        let mut md: Metadata = new_metadata();
                        put_opt_into(&mut md, "callerFunction", func);
                        Some(base(node, name, SymbolKind::MethodCall, path, 200).with_metadata(md))
                    }
                },
                None => None,
            }
        } else {
            None
        }
    };
    proof {
        if r is Some {
            lemma_symbol_view_eq(rust_emit(*node, scope_of(*class, *func), path@)->0, r->0@);
        }
    }
    r
}

/// The names that enclose the children of a Rust node.
pub fn rust_scope_of(node: &SyntaxNode, class: &Option<String>, func: &Option<String>) -> (r: (
    Option<String>,
    Option<String>,
))
    ensures
        scope_of(r.0, r.1) == rust_scope(*node, scope_of(*class, *func)),
{
    if node.is_kind("function_item") {
        match named_child_text(node) {
            Some(name) => (class.clone(), Some(name)),
            None => (class.clone(), func.clone()),
        }
    } else {
        (class.clone(), func.clone())
    }
}

} // verus!
