//! The extraction rules for Java.

use crate::extract::{
    base, base_symbol, extract_last_name, last_name, named, named_child_text, put_opt, put_opt_into,
    scope_of, Scope,
};
use crate::symbol::{
    new_metadata,
    lemma_field_view_eq,
    lemma_symbol_view_eq,
    field_views, meta_insert, pairs_insert, Field, FieldView, Metadata, Symbol, SymbolKind,
    SymbolView,
};
use crate::syntax::{
    end_line_of, field_child, kind_child, node_texts, start_line_of, SyntaxNode,
};
use crate::text::texts;
use vstd::prelude::*;

verus! {

/// Whether a node declares a class or an interface.
pub open spec fn is_type_declaration(node: SyntaxNode) -> bool {
    node.kind@ == "class_declaration"@ || node.kind@ == "interface_declaration"@
}

/// The texts of the children of the node's child of the kind `modifiers`,
/// where it has one.
pub open spec fn java_modifiers(node: SyntaxNode) -> Seq<Seq<char>> {
    match kind_child(node.children@, "modifiers"@) {
        Some(m) => node_texts(m.children@),
        None => Seq::empty(),
    }
}

/// Whether a node of this kind only joins the types of a clause: one of
/// the keywords that open a clause, or a comma.
pub open spec fn is_joiner(kind: Seq<char>) -> bool {
    kind == "extends"@ || kind == "implements"@ || kind == ","@
}

/// The types among `children`: the texts of those that are no keyword and
/// no comma, in order.
pub open spec fn type_names(children: Seq<SyntaxNode>) -> Seq<Seq<char>>
    decreases children.len(),
{
    if children.len() == 0 {
        Seq::empty()
    } else {
        let head = type_names(children.drop_last());
        if is_joiner(children.last().kind@) {
            head
        } else {
            head.push(children.last().text@)
        }
    }
}

/// The types that a superclass or interface clause names: those of its
/// type list where it has one, else those among its own children.
pub open spec fn clause_names(clause: SyntaxNode) -> Seq<Seq<char>> {
    match kind_child(clause.children@, "type_list"@) {
        Some(list) => type_names(list.children@),
        None => type_names(clause.children@),
    }
}

/// The declared parents of a type declaration: the type of its superclass
/// clause, then the types of its interface clause, each without the
/// keyword of its clause.
pub open spec fn java_parents(node: SyntaxNode) -> Seq<Seq<char>> {
    (match field_child(node.children@, "superclass"@) {
        Some(s) => clause_names(s),
        None => Seq::empty(),
    }) + (match field_child(node.children@, "interfaces"@) {
        Some(i) => clause_names(i),
        None => Seq::empty(),
    })
}

/// The declared type of a field declaration, `Unknown` where it has none.
pub open spec fn java_field_type(node: SyntaxNode) -> Seq<char> {
    match field_child(node.children@, "type"@) {
        Some(t) => t.text@,
        None => "Unknown"@,
    }
}

/// The field that a member of a type body stands for: a field declaration
/// whose declarator has a name gives a field of that name.
pub open spec fn java_field(node: SyntaxNode) -> Option<FieldView> {
    if node.kind@ == "field_declaration"@ {
        match field_child(node.children@, "declarator"@) {
            Some(d) => match field_child(d.children@, "name"@) {
                Some(n) => Some(
                    FieldView {
                        name: n.text@,
                        field_type: java_field_type(node),
                        start_line: start_line_of(node),
                        end_line: end_line_of(node),
                        modifiers: java_modifiers(node),
                        metadata: pairs_insert(Seq::empty(), "fullType"@, java_field_type(node)),
                    },
                ),
                None => None,
            },
            None => None,
        }
    } else {
        None
    }
}

/// The fields of a type declaration: those of the members of its body.
pub open spec fn java_fields(node: SyntaxNode) -> Seq<FieldView> {
    match field_child(node.children@, "body"@) {
        Some(b) => b.children@.filter_map(|c: SyntaxNode| java_field(c)),
        None => Seq::empty(),
    }
}

/// The name of what a method invocation calls: the text of its `name`
/// child, else the last segment of its whole text.
pub open spec fn java_call_name(node: SyntaxNode) -> Seq<char> {
    match named(node) {
        Some(n) => n,
        None => last_name(node.text@),
    }
}

/// The symbol that a Java node stands for. A class or interface
/// declaration gives a type with its modifiers, parents and fields. A
/// method declaration gives a method that records its owner. A method
/// invocation gives a call symbol that records its caller.
pub open spec fn java_emit(
    node: SyntaxNode,
    scope: Scope,
    path: Seq<char>,
    package: Seq<char>,
) -> Option<SymbolView> {
    if is_type_declaration(node) {
        match named(node) {
            Some(name) => Some(
                base_symbol(
                    node,
                    name,
                    if node.kind@ == "class_declaration"@ {
                        SymbolKind::Class
                    } else {
                        SymbolKind::Interface
                    },
                    path,
                    500,
                ).with_package(package).with_modifiers(java_modifiers(node)).with_parent_classes(
                    java_parents(node),
                ).with_fields(java_fields(node)),
            ),
            None => None,
        }
    } else if node.kind@ == "method_declaration"@ {
        match named(node) {
            Some(name) => Some(
                base_symbol(node, name, SymbolKind::Method, path, 300).with_package(
                    package,
                ).with_metadata(put_opt(Seq::empty(), "ownerClass"@, scope.class)),
            ),
            None => None,
        }
    } else if node.kind@ == "method_invocation"@ {
        if java_call_name(node).len() == 0 {
            None
        } else {
            Some(
                base_symbol(node, java_call_name(node), SymbolKind::MethodCall, path, 200).with_package(
                    package,
                ).with_metadata(
                    put_opt(
                        put_opt(Seq::empty(), "callerClass"@, scope.class),
                        "callerMethod"@,
                        scope.func,
                    ),
                ),
            )
        }
    } else {
        None
    }
}

/// The scope inside a Java node: a named type declaration becomes the
/// enclosing type, a named method declaration the enclosing method.
pub open spec fn java_scope(node: SyntaxNode, scope: Scope) -> Scope {
    if is_type_declaration(node) {
        match named(node) {
            Some(name) => Scope { class: Some(name), func: scope.func },
            None => scope,
        }
    } else if node.kind@ == "method_declaration"@ {
        match named(node) {
            Some(name) => Scope { class: scope.class, func: Some(name) },
            None => scope,
        }
    } else {
        scope
    }
}

/// The texts of the children of the node's `modifiers` child.
pub fn modifiers_of(node: &SyntaxNode) -> (r: Vec<String>)
    ensures
        texts(r@) == java_modifiers(*node),
{
    match node.child_by_kind("modifiers") {
        Some(m) => m.child_texts(),
        None => {
            let r: Vec<String> = Vec::new();
            proof {
                assert(texts(r@) =~= Seq::empty());
            }
            r
        },
    }
}

/// Appends the types among `children` to `out`.
pub fn push_type_names(children: &Vec<SyntaxNode>, out: &mut Vec<String>)
    ensures
        texts(final(out)@) == texts(old(out)@) + type_names(children@),
{
    let ghost start = texts(out@);
    let mut i: usize = 0;
    proof {
        assert(children@.take(0) =~= Seq::empty());
        assert(start + Seq::<Seq<char>>::empty() =~= start);
    }
    while i < children.len()
        invariant
            i <= children.len(),
            texts(out@) == start + type_names(children@.take(i as int)),
        decreases children.len() - i,
    {
        let ghost before = texts(out@);
        let c = &children[i];
        proof {
            assert(children@.take(i + 1).drop_last() =~= children@.take(i as int));
            assert(children@.take(i + 1).last() == *c);
        }
        if !(c.is_kind("extends") || c.is_kind("implements") || c.is_kind(",")) {
            let t = c.text.clone();
            out.push(t);
            proof {
                assert(texts(out@) =~= before.push(t@));
                assert(before.push(t@) =~= start + type_names(children@.take(i as int)).push(t@));
            }
        }
        i += 1;
    }
    proof {
        assert(children@.take(children.len() as int) =~= children@);
    }
}

/// Appends the types that a superclass or interface clause names to `out`.
pub fn push_clause_names(clause: &SyntaxNode, out: &mut Vec<String>)
    ensures
        texts(final(out)@) == texts(old(out)@) + clause_names(*clause),
{
    match clause.child_by_kind("type_list") {
        Some(list) => push_type_names(&list.children, out),
        None => push_type_names(&clause.children, out),
    }
}

/// The declared parents of a type declaration.
pub fn parents_of_declaration(node: &SyntaxNode) -> (r: Vec<String>)
    ensures
        texts(r@) == java_parents(*node),
{
    let mut r: Vec<String> = Vec::new();
    proof {
        assert(texts(r@) =~= Seq::empty());
    }
    match node.child_by_field_name("superclass") {
        Some(s) => {
            push_clause_names(s, &mut r);
            proof {
                assert(Seq::<Seq<char>>::empty() + clause_names(*s) =~= clause_names(*s));
            }
        },
        None => {},
    }
    match node.child_by_field_name("interfaces") {
        Some(i) => {
            push_clause_names(i, &mut r);
        },
        None => {
            proof {
                assert(texts(r@) + Seq::<Seq<char>>::empty() =~= texts(r@));
            }
        },
    }
    r
}

/// The field that a member of a type body stands for.
pub fn extract_java_field(node: &SyntaxNode) -> (r: Option<Field>)
    ensures
        match r {
            Some(f) => java_field(*node) == Some(f@),
            None => java_field(*node) is None,
        },
{
    if !node.is_kind("field_declaration") {
        return None;
    }
    let r = match node.child_by_field_name("declarator") {
        Some(d) => match d.child_by_field_name("name") {
            Some(n) => {
                let field_type = match node.child_by_field_name("type") {
                    Some(t) => t.text.clone(),
                    None => "Unknown".to_string(),
                };
                let mut md: Metadata = new_metadata();
                meta_insert(&mut md, "fullType".to_string(), field_type.clone());
                Some(
                    Field {
                        name: n.text.clone(),
                        field_type,
                        start_line: node.start_line(),
                        end_line: node.end_line(),
                        modifiers: modifiers_of(node),
                        metadata: md,
                    },
                )
            },
            None => None,
        },
        None => None,
    };
    proof {
        if r is Some {
            lemma_field_view_eq(java_field(*node)->0, r->0@);
        }
    }
    r
}

/// The fields of a type declaration.
pub fn fields_of_declaration(node: &SyntaxNode) -> (r: Vec<Field>)
    ensures
        field_views(r@) == java_fields(*node),
{
    let mut r: Vec<Field> = Vec::new();
    match node.child_by_field_name("body") {
        Some(b) => {
            let ghost f = |c: SyntaxNode| java_field(c);
            let mut i: usize = 0;
            proof {
                assert(b.children@.take(0) =~= Seq::empty());
                assert(field_views(r@) =~= Seq::empty());
            }
            while i < b.children.len()
                invariant
                    i <= b.children.len(),
                    f == (|c: SyntaxNode| java_field(c)),
                    field_views(r@) == b.children@.take(i as int).filter_map(f),
                decreases b.children.len() - i,
            {
                let ghost before = field_views(r@);
                proof {
                    b.children@.lemma_filter_map_take_succ(f, i as int);
                }
                match extract_java_field(&b.children[i]) {
                    Some(field) => {
                        r.push(field);
                        proof {
                            assert(field_views(r@) =~= before + seq![field@]);
                        }
                    },
                    None => {
                        proof {
                            assert(before + Seq::<FieldView>::empty() =~= before);
                        }
                    },
                }
                i += 1;
            }
            proof {
                assert(b.children@.take(b.children.len() as int) =~= b.children@);
            }
        },
        None => {
            proof {
                assert(field_views(r@) =~= Seq::empty());
            }
        },
    }
    r
}

/// The name of what a method invocation calls.
pub fn extract_method_name(node: &SyntaxNode) -> (r: String)
    ensures
        r@ == java_call_name(*node),
{
    match named_child_text(node) {
        Some(n) => n,
        None => extract_last_name(node.text.as_str()),
    }
}

/// The symbol that a Java node stands for, if it stands for one.
pub fn java_rule(
    node: &SyntaxNode,
    class: &Option<String>,
    func: &Option<String>,
    path: &str,
    package: &str,
) -> (r: Option<Symbol>)
    ensures
        match r {
            Some(s) => java_emit(*node, scope_of(*class, *func), path@, package@) == Some(s@)
                && s.wf(),
            None => java_emit(*node, scope_of(*class, *func), path@, package@) is None,
        },
{
    let r = {
        let is_class = node.is_kind("class_declaration");
        if is_class || node.is_kind("interface_declaration") {
            match named_child_text(node) {
                Some(name) => {
                    let kind = if is_class {
                        SymbolKind::Class
                    } else {
                        SymbolKind::Interface
                    };
                    Some(
                        base(node, name, kind, path, 500).with_package(
                            package.to_string(),
                        ).with_modifiers(modifiers_of(node)).with_parent_classes(
                            parents_of_declaration(node),
                        ).with_fields(fields_of_declaration(node)),
                    )
                },
                None => None,
            }
        } else if node.is_kind("method_declaration") {
            match named_child_text(node) {
                Some(name) => {
                    let mut md: Metadata = new_metadata();
                    put_opt_into(&mut md, "ownerClass", class);
                    Some(
                        base(node, name, SymbolKind::Method, path, 300).with_package(
                            package.to_string(),
                        ).with_metadata(md),
                    )
                },
                None => None,
            }
        } else if node.is_kind("method_invocation") {
            let name = extract_method_name(node);
            if name.as_str().is_empty() {
                None
            } else {
                let mut md: Metadata = new_metadata();
                put_opt_into(&mut md, "callerClass", class);
                put_opt_into(&mut md, "callerMethod", func);
                Some(
                    base(node, name, SymbolKind::MethodCall, path, 200).with_package(
                        package.to_string(),
                    ).with_metadata(md),
                )
            }
        } else {
            None
        }
    };
    proof {
        if r is Some {
            lemma_symbol_view_eq(java_emit(*node, scope_of(*class, *func), path@, package@)->0, r->0@);
        }
    }
    r
}

/// The names that enclose the children of a Java node.
pub fn java_scope_of(node: &SyntaxNode, class: &Option<String>, func: &Option<String>) -> (r: (
    Option<String>,
    Option<String>,
))
    ensures
        scope_of(r.0, r.1) == java_scope(*node, scope_of(*class, *func)),
{
    if node.is_kind("class_declaration") || node.is_kind("interface_declaration") {
        match named_child_text(node) {
            Some(name) => (Some(name), func.clone()),
            None => (class.clone(), func.clone()),
        }
    } else if node.is_kind("method_declaration") {
        match named_child_text(node) {
            Some(name) => (class.clone(), Some(name)),
            None => (class.clone(), func.clone()),
        }
    } else {
        (class.clone(), func.clone())
    }
}

} // verus!
